//! Full-precision multiplication and division on 256-bit numbers.
//!
//! `mul_div` computes `floor(a * b / d)` through a 512-bit intermediate
//! product, so that it is exact also where `a * b` does not fit in 256 bits.

use vstd::prelude::*;
use vstd::arithmetic::power2::pow2;
use vstd::arithmetic::div_mod::lemma_fundamental_div_mod;
use vstd::arithmetic::div_mod::lemma_fundamental_div_mod_converse;
use vstd::arithmetic::div_mod::lemma_mul_mod_noop_general;
use vstd::arithmetic::div_mod::lemma_mul_mod_noop;
use vstd::arithmetic::div_mod::lemma_add_mod_noop;
use vstd::arithmetic::div_mod::lemma_small_mod;
use vstd::arithmetic::div_mod::lemma_mod_bound;
use crate::num256::U256;
use crate::num256::two_128;
use crate::num256::two_256;
use crate::num256::lemma_two_256_pos;
use crate::num256::lemma_view_bound;
use crate::num256::lemma_mod_of_shifted;

verus! {

/// `floor(a * b / d)`.
pub open spec fn mul_div_floor(a: nat, b: nat, d: nat) -> nat {
    (a * b) / d
}

/// `ceil(x / y)`.
pub open spec fn div_ceil(x: nat, y: nat) -> nat {
    if x % y == 0 {
        x / y
    } else {
        x / y + 1
    }
}

/// `ceil(a * b / d)`.
pub open spec fn mul_div_ceil(a: nat, b: nat, d: nat) -> nat {
    div_ceil(a * b, d)
}

/// `ceil(x / y)` is the least number whose product with `y` reaches `x`.
pub proof fn lemma_div_ceil_bounds(x: nat, y: nat)
    requires
        y > 0,
    ensures
        div_ceil(x, y) * y >= x,
        x > 0 ==> (div_ceil(x, y) - 1) * y < x,
        x > 0 ==> div_ceil(x, y) >= 1,
        x == 0 ==> div_ceil(x, y) == 0,
        x / y <= div_ceil(x, y) <= x / y + 1,
{
    let q: int = (x / y) as int;
    let r: int = (x % y) as int;
    lemma_fundamental_div_mod(x as int, y as int);
    lemma_mod_bound(x as int, y as int);
    assert(q >= 0 && (r == 0 ==> q * y == x) && (r > 0 ==> (q + 1) * y >= x && q * y < x))
        by (nonlinear_arith)
        requires
            x == y * q + r,
            0 <= r < y,
            x >= 0,
    ;
    assert(x > 0 && r == 0 ==> q >= 1 && (q - 1) * y < x) by (nonlinear_arith)
        requires
            x == y * q + r,
            0 <= r < y,
            y > 0,
    ;
}

/// `ceil(x / y) <= c` wherever `x <= c * y`.
pub proof fn lemma_div_ceil_le(x: nat, y: nat, c: nat)
    requires
        y > 0,
        x <= c * y,
    ensures
        div_ceil(x, y) <= c,
{
    lemma_div_ceil_bounds(x, y);
    let k: int = div_ceil(x, y) as int;
    if x > 0 {
        assert(k <= c) by (nonlinear_arith)
            requires
                (k - 1) * y < x,
                x <= c * y,
                y > 0,
        ;
    }
}

/// `ceil(x / y)` grows with `x` and shrinks as `y` grows.
pub proof fn lemma_div_ceil_monotone(x1: nat, y1: nat, x2: nat, y2: nat)
    requires
        x1 <= x2,
        y1 >= y2,
        y2 > 0,
    ensures
        div_ceil(x1, y1) <= div_ceil(x2, y2),
{
    lemma_div_ceil_bounds(x2, y2);
    let c: nat = div_ceil(x2, y2);
    assert(x1 <= c * y1) by (nonlinear_arith)
        requires
            c * y2 >= x2,
            x1 <= x2,
            y1 >= y2,
    ;
    lemma_div_ceil_le(x1, y1, c);
}

/// `floor(x / y)` is the greatest number whose product with `y` stays within `x`.
pub proof fn lemma_div_floor_bounds(x: nat, y: nat)
    requires
        y > 0,
    ensures
        (x / y) * y <= x < (x / y + 1) * y,
{
    let q: int = (x / y) as int;
    lemma_fundamental_div_mod(x as int, y as int);
    lemma_mod_bound(x as int, y as int);
    assert(q * y <= x < (q + 1) * y) by (nonlinear_arith)
        requires
            x == y * q + x % y,
            0 <= x % y < y,
    ;
}

/// `c <= floor(x / y)` wherever `c * y <= x`, and `floor(x / y) < c` wherever
/// `x < c * y`.
pub proof fn lemma_div_floor_compare(x: nat, y: nat, c: nat)
    requires
        y > 0,
    ensures
        c * y <= x ==> c <= x / y,
        x < c * y ==> x / y < c,
{
    lemma_div_floor_bounds(x, y);
    let q: int = (x / y) as int;
    assert(c * y <= x ==> c <= q) by (nonlinear_arith)
        requires
            x < (q + 1) * y,
            y > 0,
    ;
    assert(x < c * y ==> q < c) by (nonlinear_arith)
        requires
            q * y <= x,
            y > 0,
    ;
}

/// The rounded-down quotient brackets the product, and the rounded-up
/// quotient exceeds it by 1 exactly where the division leaves a remainder.
pub proof fn lemma_mul_div_exact(x: nat, y: nat, d: nat)
    requires
        d > 0,
    ensures
        mul_div_floor(x, y, d) * d <= x * y < (mul_div_floor(x, y, d) + 1) * d,
        mul_div_ceil(x, y, d) - mul_div_floor(x, y, d) == (if (x * y) % d != 0 {
            1int
        } else {
            0int
        }),
{
    let p: int = (x * y) as int;
    let q: int = p / (d as int);
    lemma_fundamental_div_mod(p, d as int);
    lemma_mod_bound(p, d as int);
    assert(q * d <= p < (q + 1) * d) by (nonlinear_arith)
        requires
            p == d * q + p % (d as int),
            0 <= p % (d as int) < d,
    ;
}

/// Arithmetic on 256-bit words in the style of a stack machine: comparisons
/// give 0 or 1, and addition, subtraction and multiplication wrap around.
pub trait MathOps: Sized {
    /// The number that a word stands for.
    spec fn number(self) -> nat;

    /// 1 where `self > other`, else 0.
    fn gt(self, other: Self) -> (r: Self)
        ensures
            r.number() == (if self.number() > other.number() {
                1nat
            } else {
                0nat
            }),
    ;

    /// 1 where `self < other`, else 0.
    fn lt(self, other: Self) -> (r: Self)
        ensures
            r.number() == (if self.number() < other.number() {
                1nat
            } else {
                0nat
            }),
    ;

    /// `self - other` modulo 2^256.
    fn sub(self, other: Self) -> (r: Self)
        ensures
            r.number() == (self.number() - other.number()) % (two_256() as int),
    ;

    /// `self + other` modulo 2^256.
    fn add(self, other: Self) -> (r: Self)
        ensures
            r.number() == (self.number() + other.number()) % two_256(),
    ;

    /// `floor(self / other)`.
    fn div(self, other: Self) -> (r: Self)
        requires
            other.number() != 0,
        ensures
            r.number() == self.number() / other.number(),
    ;

    /// `self mod other`.
    fn modulo(self, other: Self) -> (r: Self)
        requires
            other.number() != 0,
        ensures
            r.number() == self.number() % other.number(),
    ;

    /// `self * other` modulo 2^256.
    fn mul(self, other: Self) -> (r: Self)
        ensures
            r.number() == (self.number() * other.number()) % two_256(),
    ;

    /// `(self * other) mod modulo`, exact also where the product exceeds 256 bits.
    fn mulmod(self, other: Self, modulo: Self) -> (r: Self)
        requires
            modulo.number() != 0,
        ensures
            r.number() == (self.number() * other.number()) % modulo.number(),
    ;

    /// `floor(self * other / modulo)` for a product that fits in 256 bits.
    fn unsafe_muldiv(self, other: Self, modulo: Self) -> (r: Self)
        requires
            modulo.number() != 0,
            self.number() * other.number() < two_256(),
        ensures
            r.number() == (self.number() * other.number()) / modulo.number(),
    ;

    /// `(self + other) mod modulo`, exact also where the sum exceeds 256 bits.
    fn addmod(self, other: Self, modulo: Self) -> (r: Self)
        requires
            modulo.number() != 0,
        ensures
            r.number() == (self.number() + other.number()) % modulo.number(),
    ;
}

impl MathOps for U256 {
    open spec fn number(self) -> nat {
        self@
    }

    fn gt(self, other: Self) -> (r: Self) {
        if self.is_gt(other) {
            U256::one()
        } else {
            U256::zero()
        }
    }

    fn lt(self, other: Self) -> (r: Self) {
        if self.is_lt(other) {
            U256::one()
        } else {
            U256::zero()
        }
    }

    fn sub(self, other: Self) -> (r: Self) {
        self.wrapping_sub(other)
    }

    fn add(self, other: Self) -> (r: Self) {
        self.wrapping_add(other)
    }

    fn div(self, other: Self) -> (r: Self) {
        U256::div(self, other)
    }

    fn modulo(self, other: Self) -> (r: Self) {
        self.rem(other)
    }

    fn mul(self, other: Self) -> (r: Self) {
        self.wrapping_mul(other)
    }

    fn mulmod(self, other: Self, modulo: Self) -> (r: Self) {
        let mut a = self.rem(modulo);
        let mut b = other.rem(modulo);
        let mut result = U256::zero();
        proof {
            lemma_mul_mod_noop(self@ as int, other@ as int, modulo@ as int);
        }
        while !b.is_zero()
            invariant
                modulo@ != 0,
                a@ < modulo@,
                result@ < modulo@,
                (result@ + a@ * b@) % modulo@ == (self@ * other@) % modulo@,
            decreases b@,
        {
            let ghost a0: nat = a@;
            let ghost b0: nat = b@;
            let ghost r0: nat = result@;
            if b.is_odd() {
                result = result.addmod(a, modulo);
            }
            a = a.addmod(a, modulo);
            b = b.shr(1);
            proof {
                vstd::arithmetic::power2::lemma2_to64();
                assert(b@ == b0 / 2);
                lemma_mulmod_step(r0 as int, a0 as int, b0 as int, modulo@ as int, result@ as int, a@ as int, b@ as int);
            }
        }
        proof {
            assert(a@ * b@ == 0) by (nonlinear_arith)
                requires
                    b@ == 0,
            ;
            lemma_small_mod(result@, modulo@);
        }
        result
    }

    fn unsafe_muldiv(self, other: Self, modulo: Self) -> (r: Self) {
        let p = self.wrapping_mul(other);
        proof {
            lemma_small_mod(self@ * other@, two_256());
        }
        U256::div(p, modulo)
    }

    fn addmod(self, other: Self, modulo: Self) -> (r: Self) {
        let a = self.rem(modulo);
        let b = other.rem(modulo);
        let remaining_a = modulo.wrapping_sub(a);
        proof {
            lemma_view_bound(modulo);
            lemma_mod_bound(self@ as int, modulo@ as int);
            lemma_mod_bound(other@ as int, modulo@ as int);
            lemma_mod_of_shifted(modulo@ - a@, modulo@ - a@, 0);
            lemma_add_mod_noop(self@ as int, other@ as int, modulo@ as int);
        }
        if remaining_a.is_le(b) {
            let res = b.wrapping_sub(remaining_a);
            proof {
                lemma_mod_of_shifted(b@ - remaining_a@, b@ - remaining_a@, 0);
                lemma_fundamental_div_mod_converse(
                    (a@ + b@) as int,
                    modulo@ as int,
                    1,
                    res@ as int,
                );
            }
            res
        } else {
            let res = a.wrapping_add(b);
            proof {
                lemma_mod_of_shifted((a@ + b@) as int, (a@ + b@) as int, 0);
                lemma_small_mod(a@ + b@, modulo@);
            }
            res
        }
    }
}

/// Full-precision multiply-then-divide on 256-bit numbers.
pub struct FullMath;

impl FullMath {
    /// `floor(a * b / denominator)`, exact also where `a * b` exceeds 256 bits.
    ///
    /// The denominator must not be zero and the quotient must fit in 256 bits.
    pub fn mul_div(a: U256, b: U256, denominator: U256) -> (r: U256)
        requires
            denominator@ > 0,
            mul_div_floor(a@, b@, denominator@) < two_256(),
        ensures
            r@ == mul_div_floor(a@, b@, denominator@),
    {
        let (high_word, low_word) = FullMath::wide_product(a, b);
        let mut prod1 = high_word;
        let mut prod0 = low_word;
        proof {
            lemma_view_bound(a);
            lemma_view_bound(b);
            lemma_two_256_pos();
            lemma_view_bound(prod0);
            lemma_view_bound(prod1);
            lemma_fundamental_div_mod_converse(
                (a@ * b@) as int,
                two_256() as int,
                prod1@ as int,
                prod0@ as int,
            );
            assert(prod1@ == 0 ==> a@ * b@ == prod0@) by (nonlinear_arith)
                requires
                    a@ * b@ == prod1@ * two_256() + prod0@,
            ;
        }
        if prod1.is_zero() {
            return prod0.div(denominator);
        }
        let ghost product: int = (a@ * b@) as int;
        let ghost high: int = prod1@ as int;
        let ghost low: int = prod0@ as int;

        // Subtract the remainder, so that the division becomes exact.
        let remainder = a.mulmod(b, denominator);
        prod1 = prod1.wrapping_sub(remainder.gt(prod0));
        prod0 = prod0.wrapping_sub(remainder);
        let ghost exact: int = product - remainder@;
        proof {
            lemma_view_bound(prod0);
            lemma_view_bound(prod1);
            lemma_view_bound(denominator);
            lemma_subtract_remainder(
                product,
                denominator@ as int,
                high,
                low,
                remainder@ as int,
                prod1@ as int,
                prod0@ as int,
            );
        }

        // Factor the powers of two out of the denominator.
        let mut d = denominator;
        let mut shift: u32 = 0;
        proof {
            vstd::arithmetic::power2::lemma2_to64();
        }
        while !d.is_odd()
            invariant
                d@ > 0,
                d@ * pow2(shift as nat) == denominator@,
                shift < 256,
            decreases d@,
        {
            proof {
                lemma_view_bound(denominator);
                lemma_halve_denominator(d@ as int, shift as nat, denominator@ as int);
            }
            d = d.shr(1);
            shift = shift + 1;
        }
        if shift > 0 {
            prod0 = prod0.shr(shift).wrapping_add(prod1.shl(256 - shift));
        }
        proof {
            lemma_shift_exact(
                exact,
                high - (if remainder@ > low {
                    1int
                } else {
                    0int
                }),
                (exact % (two_256() as int)),
                shift as nat,
                prod0@ as int,
            );
        }

        // Invert the odd denominator modulo 2^256: a seed that is right for
        // four bits, then six rounds that each double the number of right bits.
        let three = U256::from_u128(3);
        let two = U256::from_u128(2);
        let t = three.wrapping_mul(d);
        let mut inv = t.bitxor(two);
        proof {
            lemma_inverse_seed(d, t, inv);
        }
        inv = refine_inverse(d, inv, Ghost(4));
        inv = refine_inverse(d, inv, Ghost(8));
        inv = refine_inverse(d, inv, Ghost(16));
        inv = refine_inverse(d, inv, Ghost(32));
        inv = refine_inverse(d, inv, Ghost(64));
        inv = refine_inverse(d, inv, Ghost(128));

        let result = prod0.wrapping_mul(inv);
        proof {
            vstd::arithmetic::power2::lemma_pow2_adds(128, 128);
            vstd::arithmetic::power2::lemma_pow2_pos(shift as nat);
            crate::num256::lemma_named_powers();
            lemma_exact_division(
                product,
                denominator@ as int,
                remainder@ as int,
                d@ as int,
                pow2(shift as nat) as int,
                prod0@ as int,
                inv@ as int,
                result@ as int,
            );
        }
        result
    }

    /// The product of two numbers as two words: `high * 2^256 + low`.
    ///
    /// The low word is the product modulo 2^256; the high word follows from
    /// it and from the product modulo 2^256 - 1.
    pub fn wide_product(a: U256, b: U256) -> (r: (U256, U256))
        ensures
            a@ * b@ == r.0@ * two_256() + r.1@,
    {
        let mm = a.mulmod(b, U256::max_value());
        let prod0 = a.wrapping_mul(b);
        let prod1 = mm.wrapping_sub(prod0).wrapping_sub(mm.lt(prod0));
        proof {
            lemma_view_bound(a);
            lemma_view_bound(b);
            lemma_high_word(a@ as int, b@ as int, mm@ as int, prod0@ as int, prod1@ as int);
        }
        (prod1, prod0)
    }

    /// `floor(a * b / denominator)`, or `None` where the denominator is zero
    /// or the quotient does not fit in 256 bits.
    pub fn checked_mul_div(a: U256, b: U256, denominator: U256) -> (r: Option<U256>)
        ensures
            denominator@ > 0 && mul_div_floor(a@, b@, denominator@) < two_256() ==> r.is_some()
                && r.unwrap()@ == mul_div_floor(a@, b@, denominator@),
            !(denominator@ > 0 && mul_div_floor(a@, b@, denominator@) < two_256())
                ==> r.is_none(),
    {
        if denominator.is_zero() {
            return None;
        }
        let (high_word, low_word) = FullMath::wide_product(a, b);
        proof {
            lemma_view_bound(low_word);
            lemma_two_256_pos();
            // the quotient fits exactly where the high word is below the denominator
            let product: nat = a@ * b@;
            if high_word@ < denominator@ {
                assert(product < denominator@ * two_256()) by (nonlinear_arith)
                    requires
                        product == high_word@ * two_256() + low_word@,
                        low_word@ < two_256(),
                        high_word@ + 1 <= denominator@,
                ;
                lemma_div_floor_compare(product, denominator@, two_256());
                assert(two_256() * denominator@ == denominator@ * two_256()) by (nonlinear_arith);
            } else {
                assert(two_256() * denominator@ <= product) by (nonlinear_arith)
                    requires
                        product == high_word@ * two_256() + low_word@,
                        high_word@ >= denominator@,
                ;
                lemma_div_floor_compare(product, denominator@, two_256());
            }
        }
        if high_word.is_ge(denominator) {
            None
        } else {
            Some(FullMath::mul_div(a, b, denominator))
        }
    }

    /// `ceil(a * b / denominator)`, exact also where `a * b` exceeds 256 bits.
    ///
    /// The denominator must not be zero and the rounded quotient must fit in
    /// 256 bits.
    pub fn mul_div_rounding_up(a: U256, b: U256, denominator: U256) -> (r: U256)
        requires
            denominator@ > 0,
            mul_div_ceil(a@, b@, denominator@) < two_256(),
        ensures
            r@ == mul_div_ceil(a@, b@, denominator@),
    {
        let result = FullMath::mul_div(a, b, denominator);
        if !a.mulmod(b, denominator).is_zero() {
            let up = result.wrapping_add(U256::one());
            proof {
                lemma_small_mod(result@ + 1, two_256());
            }
            up
        } else {
            result
        }
    }

    /// `ceil(a * b / denominator)`, or `None` where the denominator is zero or
    /// the rounded quotient does not fit in 256 bits.
    pub fn checked_mul_div_rounding_up(a: U256, b: U256, denominator: U256) -> (r: Option<U256>)
        ensures
            denominator@ > 0 && mul_div_ceil(a@, b@, denominator@) < two_256() ==> r.is_some()
                && r.unwrap()@ == mul_div_ceil(a@, b@, denominator@),
            !(denominator@ > 0 && mul_div_ceil(a@, b@, denominator@) < two_256())
                ==> r.is_none(),
    {
        let floored = match FullMath::checked_mul_div(a, b, denominator) {
            Some(floored) => floored,
            None => {
                return None;
            },
        };
        proof {
            lemma_view_bound(floored);
            lemma_two_256_pos();
        }
        if a.mulmod(b, denominator).is_zero() {
            Some(floored)
        } else {
            match floored.checked_add(U256::one()) {
                Some(ceiled) => Some(ceiled),
                None => None,
            }
        }
    }

    /// `ceil(x / y)` for a divisor that is not zero.
    pub fn unsafe_div_rounding_up(x: U256, y: U256) -> (r: U256)
        requires
            y@ != 0,
        ensures
            r@ == div_ceil(x@, y@),
    {
        let q = U256::div(x, y);
        let extra = x.rem(y).gt(U256::zero());
        let z = q.wrapping_add(extra);
        proof {
            lemma_view_bound(x);
            lemma_fundamental_div_mod(x@ as int, y@ as int);
            if x@ % y@ != 0 {
                assert(y@ >= 2);
                assert(q@ + 1 < two_256()) by (nonlinear_arith)
                    requires
                        x@ == y@ * q@ + x@ % y@,
                        y@ >= 2,
                        x@ < two_256(),
                ;
            }
            lemma_small_mod(q@ + extra@, two_256());
        }
        z
    }
}

/// One round of Newton's iteration on an approximate inverse of `d` modulo a
/// power of two: from `k` right bits to `2 * k`.
fn refine_inverse(d: U256, inv: U256, Ghost(k): Ghost<nat>) -> (r: U256)
    requires
        1 <= k <= 128,
        (d@ * inv@) % pow2(k) == 1,
    ensures
        (d@ * r@) % pow2(2 * k) == 1,
{
    let two = U256::from_u128(2);
    let t1 = d.wrapping_mul(inv);
    let t2 = two.wrapping_sub(t1);
    let r = inv.wrapping_mul(t2);
    proof {
        let p: int = pow2(k) as int;
        let rest: int = pow2((256 - 2 * k) as nat) as int;
        vstd::arithmetic::power2::lemma_pow2_adds(k, k);
        vstd::arithmetic::power2::lemma_pow2_adds(2 * k, (256 - 2 * k) as nat);
        vstd::arithmetic::power2::lemma_pow2_pos((256 - 2 * k) as nat);
        vstd::arithmetic::power2::lemma_pow2_strictly_increases(0, k);
        vstd::arithmetic::power2::lemma2_to64();
        crate::num256::lemma_named_powers();
        assert(two_256() as int == p * p * rest) by (nonlinear_arith)
            requires
                pow2(2 * k) == pow2(k) * pow2(k),
                pow2(256) == pow2(2 * k) * pow2((256 - 2 * k) as nat),
                pow2(256) == two_256(),
                p == pow2(k),
                rest == pow2((256 - 2 * k) as nat),
        ;
        lemma_newton(d@ as int, inv@ as int, p, rest, t1@ as int, t2@ as int, r@ as int);
    }
    r
}

/// The high word of a product, from its residues modulo 2^256 - 1 and 2^256.
proof fn lemma_high_word(a: int, b: int, mm: int, low: int, high: int)
    requires
        0 <= a < two_256(),
        0 <= b < two_256(),
        mm == (a * b) % (two_256() - 1),
        low == (a * b) % (two_256() as int),
        high == (((mm - low) % (two_256() as int)) - (if mm < low {
            1int
        } else {
            0int
        })) % (two_256() as int),
    ensures
        high == (a * b) / (two_256() as int),
        a * b == high * two_256() + low,
{
    let m: int = two_256() as int;
    let prod: int = a * b;
    let hi: int = prod / m;
    lemma_two_256_pos();
    lemma_fundamental_div_mod(prod, m);
    assert(prod == m * hi + low);
    assert(0 <= prod <= (m - 1) * (m - 1)) by (nonlinear_arith)
        requires
            0 <= a <= m - 1,
            0 <= b <= m - 1,
            prod == a * b,
    ;
    assert(0 <= hi <= m - 2) by (nonlinear_arith)
        requires
            prod == m * hi + low,
            0 <= low < m,
            0 <= prod <= (m - 1) * (m - 1),
            m > 2,
    ;
    // prod == (m - 1) * hi + (hi + low)
    assert(prod == (m - 1) * hi + (hi + low)) by (nonlinear_arith)
        requires
            prod == m * hi + low,
    ;
    if hi + low < m - 1 {
        lemma_fundamental_div_mod_converse(prod, m - 1, hi, hi + low);
        assert(mm == hi + low);
        lemma_mod_of_shifted(mm - low, hi, 0);
        lemma_mod_of_shifted(hi, hi, 0);
    } else {
        assert(prod == (m - 1) * (hi + 1) + (hi + low - (m - 1))) by (nonlinear_arith)
            requires
                prod == (m - 1) * hi + (hi + low),
        ;
        lemma_fundamental_div_mod_converse(prod, m - 1, hi + 1, hi + low - (m - 1));
        assert(mm == hi + low - (m - 1));
        assert(mm < low);
        lemma_mod_of_shifted(mm - low, hi + 1, -1);
        lemma_mod_of_shifted(hi, hi, 0);
    }
    assert(m * hi == hi * m) by (nonlinear_arith);
}

/// Subtracting the remainder from the two-word product leaves a multiple of
/// the denominator, again as two words.
proof fn lemma_subtract_remainder(
    product: int,
    d: int,
    high: int,
    low: int,
    rem: int,
    new_high: int,
    new_low: int,
)
    requires
        0 < d < two_256(),
        product >= 0,
        product == high * two_256() + low,
        0 < high < two_256(),
        0 <= low < two_256(),
        product / d < two_256(),
        rem == product % d,
        new_high == (high - (if rem > low {
            1int
        } else {
            0int
        })) % (two_256() as int),
        new_low == (low - rem) % (two_256() as int),
    ensures
        high < d,
        new_high == high - (if rem > low {
            1int
        } else {
            0int
        }),
        product - rem == new_high * two_256() + new_low,
        0 <= new_low < two_256(),
        0 <= new_high < two_256(),
        new_low == (product - rem) % (two_256() as int),
{
    let m: int = two_256() as int;
    lemma_two_256_pos();
    lemma_fundamental_div_mod(product, d);
    lemma_mod_bound(product, d);
    let q: int = product / d;
    assert(high < d) by (nonlinear_arith)
        requires
            product == d * q + rem,
            0 <= rem < d,
            q < m,
            0 <= q,
            product == high * m + low,
            0 <= low < m,
            high > 0,
            d > 0,
    ;
    assert(rem < m);
    let borrow: int = if rem > low {
        1
    } else {
        0
    };
    lemma_mod_of_shifted(high - borrow, high - borrow, 0);
    lemma_mod_of_shifted(low - rem, low - rem + borrow * m, -borrow);
    assert(product - rem == (high - borrow) * m + (low - rem + borrow * m)) by (nonlinear_arith)
        requires
            product == high * m + low,
    ;
    lemma_fundamental_div_mod_converse(product - rem, m, high - borrow, new_low);
}

/// Halving an even denominator keeps it positive and adds one to the count
/// of factors of two, which stays below 256.
proof fn lemma_halve_denominator(d: int, shift: nat, denominator: int)
    requires
        d > 0,
        d % 2 == 0,
        d * pow2(shift) == denominator,
        denominator < two_256(),
    ensures
        d / 2 > 0,
        (d / 2) * pow2(shift + 1) == denominator,
        shift + 1 < 256,
        pow2(1) == 2,
{
    vstd::arithmetic::power2::lemma2_to64();
    vstd::arithmetic::power2::lemma_pow2_adds(shift, 1);
    crate::num256::lemma_named_powers();
    let h: int = d / 2;
    assert(d == 2 * h);
    assert(h * pow2(shift + 1) == denominator) by (nonlinear_arith)
        requires
            d == 2 * h,
            pow2(shift + 1) == pow2(shift) * 2,
            d * pow2(shift) == denominator,
    ;
    if shift + 1 >= 256 {
        if shift + 1 > 256 {
            vstd::arithmetic::power2::lemma_pow2_strictly_increases(256, shift + 1);
        }
        assert(h * pow2(shift + 1) >= pow2(shift + 1)) by (nonlinear_arith)
            requires
                h >= 1,
        ;
        assert(false);
    }
}

/// Shifting the two-word number right by `shift` bits, and keeping the low
/// 256 bits of the result.
proof fn lemma_shift_exact(exact: int, high: int, low: int, shift: nat, out: int)
    requires
        shift < 256,
        0 <= high < two_256(),
        0 <= low < two_256(),
        exact == high * two_256() + low,
        shift == 0 ==> out == low,
        shift > 0 ==> out == ((low / (pow2(shift) as int)) + ((high * pow2((256 - shift) as nat))
            % (two_256() as int))) % (two_256() as int),
    ensures
        out == (exact / (pow2(shift) as int)) % (two_256() as int),
{
    let m: int = two_256() as int;
    lemma_two_256_pos();
    vstd::arithmetic::power2::lemma2_to64();
    if shift == 0 {
        assert(pow2(0) == 1);
        lemma_fundamental_div_mod_converse(exact, m, high, low);
    } else {
        let s: int = pow2(shift) as int;
        let c: int = pow2((256 - shift) as nat) as int;
        vstd::arithmetic::power2::lemma_pow2_pos(shift);
        vstd::arithmetic::power2::lemma_pow2_adds(shift, (256 - shift) as nat);
        crate::num256::lemma_named_powers();
        assert(m == s * c);
        // exact == s * (high * c) + low, so exact / s == high * c + low / s
        lemma_fundamental_div_mod(low, s);
        let lq: int = low / s;
        let lr: int = low % s;
        assert(exact == s * (high * c + lq) + lr) by (nonlinear_arith)
            requires
                exact == high * m + low,
                m == s * c,
                low == s * lq + lr,
        ;
        lemma_mod_bound(low, s);
        lemma_fundamental_div_mod_converse(exact, s, high * c + lq, lr);
        assert(exact / s == high * c + lq);
        lemma_add_mod_noop(lq, high * c, m);
        lemma_add_mod_noop(lq, (high * c) % m, m);
        vstd::arithmetic::div_mod::lemma_mod_twice(high * c, m);
    }
}

/// The seed `(3 * d) xor 2` inverts an odd `d` modulo 16.
proof fn lemma_inverse_seed(d: U256, t: U256, inv: U256)
    requires
        d@ % 2 == 1,
        t@ == (3 * d@) % two_256(),
        inv.lo == t.lo ^ 2,
    ensures
        (d@ * inv@) % pow2(4) == 1,
{
    vstd::arithmetic::power2::lemma2_to64();
    lemma_two_256_pos();
    let dl: u128 = d.lo;
    let tl: u128 = t.lo;
    let il: u128 = inv.lo;
    let d16: u128 = dl % 16;
    let t16: u128 = tl % 16;
    let i16: u128 = il % 16;
    // the low four bits of each number are those of its low word
    assert(d@ % 16 == d16 as nat && d@ % 2 == (dl % 2) as nat) by (nonlinear_arith)
        requires
            d@ == d.hi as nat * two_128() + dl as nat,
            two_128() == 16 * 0x1000_0000_0000_0000_0000_0000_0000_0000,
            d16 == dl % 16,
    ;
    assert(inv@ % 16 == i16 as nat) by (nonlinear_arith)
        requires
            inv@ == inv.hi as nat * two_128() + il as nat,
            two_128() == 16 * 0x1000_0000_0000_0000_0000_0000_0000_0000,
            i16 == il % 16,
    ;
    assert(t@ % 16 == t16 as nat) by (nonlinear_arith)
        requires
            t@ == t.hi as nat * two_128() + tl as nat,
            two_128() == 16 * 0x1000_0000_0000_0000_0000_0000_0000_0000,
            t16 == tl % 16,
    ;
    // t is 3 * d modulo 16
    assert(two_256() == 16 * (0x1000_0000_0000_0000_0000_0000_0000_0000 * two_128()))
        by (nonlinear_arith)
        requires
            two_256() == two_128() * two_128(),
            two_128() == 16 * 0x1000_0000_0000_0000_0000_0000_0000_0000,
    ;
    vstd::arithmetic::div_mod::lemma_mod_mod(
        (3 * d@) as int,
        16,
        (0x1000_0000_0000_0000_0000_0000_0000_0000 * two_128()) as int,
    );
    assert(t@ % 16 == (3 * d@) % 16);
    lemma_mul_mod_noop_general(3, d@ as int, 16);
    assert(t16 == (3 * d16) % 16);
    assert(d16 % 2 == 1);
    assert(i16 == t16 ^ 2) by (bit_vector)
        requires
            il == tl ^ 2,
            i16 == il % 16,
            t16 == tl % 16,
    ;
    let t3: u128 = (3 * d16) as u128;
    let di: u128 = (d16 * i16) as u128;
    assert(i16 < 16) by (bit_vector)
        requires
            t16 < 16,
            i16 == t16 ^ 2,
    ;
    assert(d16 * i16 < 256) by (nonlinear_arith)
        requires
            d16 < 16,
            i16 < 16,
    ;
    assert(di % 16 == 1) by (bit_vector)
        requires
            d16 < 16,
            d16 % 2 == 1,
            t3 == 3 * d16,
            t16 == t3 % 16,
            i16 == t16 ^ 2,
            di == d16 * i16,
    ;
    lemma_mul_mod_noop_general(d@ as int, inv@ as int, 16);
}

/// Newton's iteration doubles the number of right bits of an inverse modulo
/// a power of two: if `d * x` is 1 modulo `p`, then `d * x * (2 - d * x)` is
/// 1 modulo `p * p`, also when the products are taken modulo 2^256.
proof fn lemma_newton(d: int, x: int, p: int, rest: int, t1: int, t2: int, x1: int)
    requires
        d >= 0,
        x >= 0,
        p > 1,
        rest >= 1,
        two_256() as int == p * p * rest,
        (d * x) % p == 1,
        t1 == (d * x) % (two_256() as int),
        t2 == (2 - t1) % (two_256() as int),
        x1 == (x * t2) % (two_256() as int),
    ensures
        (d * x1) % (p * p) == 1,
{
    let m: int = two_256() as int;
    lemma_two_256_pos();
    let dx: int = d * x;
    let j3: int = dx / m;
    let j2: int = (2 - t1) / m;
    let j1: int = (x * t2) / m;
    let e: int = dx / p;
    lemma_fundamental_div_mod(dx, m);
    lemma_fundamental_div_mod(2 - t1, m);
    lemma_fundamental_div_mod(x * t2, m);
    lemma_fundamental_div_mod(dx, p);
    let pp: int = p * p;
    assert(pp > 1) by (nonlinear_arith)
        requires
            p > 1,
            pp == p * p,
    ;
    // dx * dx == pp * (e * e) + 2 * p * e + 1
    assert(dx * dx == pp * (e * e) + 2 * (p * e) + 1) by (nonlinear_arith)
        requires
            dx == p * e + 1,
            pp == p * p,
    ;
    // dx * t2 == 1 - pp * e * e + m * (dx * (j3 - j2))
    assert(dx * t2 == 2 * dx - dx * dx + m * (dx * (j3 - j2))) by (nonlinear_arith)
        requires
            dx == m * j3 + t1,
            2 - t1 == m * j2 + t2,
    ;
    assert(dx * t2 == 1 - pp * (e * e) + m * (dx * (j3 - j2)));
    // d * x1 == dx * t2 - m * (d * j1)
    assert(d * x1 == dx * t2 - m * (d * j1)) by (nonlinear_arith)
        requires
            x * t2 == m * j1 + x1,
            dx == d * x,
    ;
    let k: int = rest * (dx * (j3 - j2) - d * j1) - e * e;
    assert(d * x1 == pp * k + 1) by (nonlinear_arith)
        requires
            d * x1 == 1 - pp * (e * e) + m * (dx * (j3 - j2)) - m * (d * j1),
            m == pp * rest,
            k == rest * (dx * (j3 - j2) - d * j1) - e * e,
    ;
    lemma_fundamental_div_mod_converse(d * x1, pp, k, 1);
}

/// With the remainder taken off and the factors of two shifted out, the
/// product is the quotient times the odd part of the denominator, so that
/// multiplying by the inverse of the odd part gives the quotient.
proof fn lemma_exact_division(
    product: int,
    denominator: int,
    rem: int,
    odd: int,
    twos: int,
    n: int,
    inv: int,
    result: int,
)
    requires
        product >= 0,
        denominator > 0,
        odd > 0,
        twos > 0,
        odd * twos == denominator,
        rem == product % denominator,
        product / denominator < two_256(),
        n == ((product - rem) / twos) % (two_256() as int),
        inv >= 0,
        (odd * inv) % (two_256() as int) == 1,
        result == (n * inv) % (two_256() as int),
    ensures
        result == product / denominator,
{
    let m: int = two_256() as int;
    lemma_two_256_pos();
    let q: int = product / denominator;
    lemma_fundamental_div_mod(product, denominator);
    assert(q >= 0) by (nonlinear_arith)
        requires
            product == denominator * q + rem,
            rem < denominator,
            product >= 0,
            denominator > 0,
    ;
    // (product - rem) / twos == q * odd
    assert(product - rem == (q * odd) * twos) by (nonlinear_arith)
        requires
            product == denominator * q + rem,
            odd * twos == denominator,
    ;
    vstd::arithmetic::div_mod::lemma_div_multiples_vanish(q * odd, twos);
    assert((product - rem) / twos == q * odd);
    // result == (q * odd * inv) % m == (q * ((odd * inv) % m)) % m == q % m
    lemma_mul_mod_noop_general(q * odd, inv, m);
    assert((q * odd) * inv == q * (odd * inv)) by (nonlinear_arith);
    lemma_mul_mod_noop_general(q, odd * inv, m);
    assert(q * 1 == q);
    lemma_small_mod(q as nat, m as nat);
}

/// One round of multiplication by doubling keeps `result + a * b` the same
/// modulo `m`.
proof fn lemma_mulmod_step(r0: int, a0: int, b0: int, m: int, r1: int, a1: int, b1: int)
    requires
        m > 0,
        r0 >= 0,
        a0 >= 0,
        b0 >= 0,
        b1 == b0 / 2,
        a1 == (a0 + a0) % m,
        r1 == (if b0 % 2 == 1 {
            (r0 + a0) % m
        } else {
            r0
        }),
    ensures
        (r1 + a1 * b1) % m == (r0 + a0 * b0) % m,
{
    let mi: int = m;
    let bit: int = b0 % 2;
    assert(b0 == 2 * b1 + bit);
    // r0 + a0 * b0 == (r0 + a0 * bit) + (a0 + a0) * b1
    assert(r0 + a0 * b0 == (r0 + a0 * bit) + (a0 + a0) * b1) by (nonlinear_arith)
        requires
            b0 == 2 * b1 + bit,
    ;
    let x: int = r0 + a0 * bit;
    let y: int = (a0 + a0) * b1;
    assert(x % mi == r1 % mi) by {
        if bit == 1 {
            assert(a0 * bit == a0) by (nonlinear_arith)
                requires
                    bit == 1,
            ;
            vstd::arithmetic::div_mod::lemma_mod_twice(r0 + a0, mi);
        } else {
            assert(a0 * bit == 0) by (nonlinear_arith)
                requires
                    bit == 0,
            ;
        }
    }
    assert(y % mi == (a1 * b1) % mi) by {
        lemma_mul_mod_noop_general(a0 + a0, b1, mi);
    }
    lemma_add_mod_noop(x, y, mi);
    lemma_add_mod_noop(r1, a1 * b1, mi);
}

} // verus!
