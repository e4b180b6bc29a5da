//! 256-bit unsigned integers held as two 128-bit words.
//!
//! A value is modelled by the natural number `hi * 2^128 + lo`. Addition,
//! subtraction, comparison and the bitwise operations are carried out on the
//! words directly; multiplication, division, remainder and shifts are done by
//! the `ethnum` crate behind small wrappers whose contracts state the result
//! over that model.

use vstd::prelude::*;
use vstd::arithmetic::power2::pow2;
use vstd::arithmetic::power2::lemma2_to64;
use vstd::arithmetic::power2::lemma_pow2_adds;

verus! {

/// 2^128 as a natural number.
pub open spec fn two_128() -> nat {
    0xffff_ffff_ffff_ffff_ffff_ffff_ffff_ffff + 1
}

/// 2^256 as a natural number.
pub open spec fn two_256() -> nat {
    two_128() * two_128()
}

/// 2^160 as a natural number.
pub open spec fn two_160() -> nat {
    two_128() * 0x1_0000_0000
}

/// 2^96 as a natural number.
pub open spec fn two_96() -> nat {
    0x1_0000_0000_0000_0000_0000_0000
}

/// The named powers of two agree with `pow2`.
pub proof fn lemma_named_powers()
    ensures
        pow2(32) == 0x1_0000_0000,
        pow2(64) == 0x1_0000_0000_0000_0000,
        pow2(96) == two_96(),
        pow2(128) == two_128(),
        pow2(160) == two_160(),
        pow2(256) == two_256(),
        two_128() * two_128() == two_256(),
{
    lemma2_to64();
    lemma_pow2_adds(64, 32);
    lemma_pow2_adds(64, 64);
    lemma_pow2_adds(128, 32);
    lemma_pow2_adds(128, 128);
}

/// 2^256 is positive, and is the square of 2^128.
pub proof fn lemma_two_256_pos()
    ensures
        two_256() > 0,
        two_256() == two_128() * two_128(),
        two_256() > two_128(),
        two_256() > two_160(),
{
    assert(two_128() * two_128() > two_128() * 0x1_0000_0000 > two_128()) by (nonlinear_arith);
}

/// A 256-bit unsigned integer.
#[derive(Clone, Copy, Debug, PartialEq, Eq, Structural)]
pub struct U256 {
    /// The most significant 128 bits.
    pub hi: u128,
    /// The least significant 128 bits.
    pub lo: u128,
}

impl View for U256 {
    type V = nat;

    open spec fn view(&self) -> nat {
        self.hi as nat * two_128() + self.lo as nat
    }
}

/// Two values with the same number are the same value.
pub proof fn lemma_view_injective(a: U256, b: U256)
    requires
        a@ == b@,
    ensures
        a == b,
{
    assert(a.hi == b.hi && a.lo == b.lo) by (nonlinear_arith)
        requires
            a.hi as nat * two_128() + a.lo as nat == b.hi as nat * two_128() + b.lo as nat,
            a.lo < two_128(),
            b.lo < two_128(),
    ;
}

/// Every value is below 2^256.
pub proof fn lemma_view_bound(a: U256)
    ensures
        a@ < two_256(),
{
    assert(a.hi as nat * two_128() + (a.lo as nat) < two_256()) by (nonlinear_arith)
        requires
            a.hi < two_128(),
            a.lo < two_128(),
            two_128() * two_128() == two_256(),
    ;
}

impl U256 {
    /// The value that stands for a number, taken modulo 2^256.
    pub open spec fn from_number(n: nat) -> U256 {
        U256 { hi: ((n / two_128()) % two_128()) as u128, lo: (n % two_128()) as u128 }
    }

    /// A value is the one that stands for its own number.
    pub proof fn lemma_from_number(x: U256)
        ensures
            U256::from_number(x@) == x,
            U256::from_number(x@)@ == x@,
    {
        let n: nat = x@;
        assert(n / two_128() == x.hi as nat && n % two_128() == x.lo as nat) by {
            vstd::arithmetic::div_mod::lemma_fundamental_div_mod_converse(
                n as int,
                two_128() as int,
                x.hi as int,
                x.lo as int,
            );
        }
        vstd::arithmetic::div_mod::lemma_small_mod(x.hi as nat, two_128());
    }

    /// The value 0.
    pub fn zero() -> (r: U256)
        ensures
            r@ == 0,
            r == (U256 { hi: 0, lo: 0 }),
    {
        U256 { hi: 0, lo: 0 }
    }

    /// The value 1.
    pub fn one() -> (r: U256)
        ensures
            r@ == 1,
            r == (U256 { hi: 0, lo: 1 }),
    {
        U256 { hi: 0, lo: 1 }
    }

    /// The largest value, 2^256 - 1.
    pub fn max_value() -> (r: U256)
        ensures
            r@ == two_256() - 1,
    {
        proof {
            assert(u128::MAX as nat * two_128() + u128::MAX as nat == two_128() * two_128() - 1)
                by (nonlinear_arith);
        }
        U256 { hi: u128::MAX, lo: u128::MAX }
    }

    /// Widens a 128-bit value.
    pub fn from_u128(x: u128) -> (r: U256)
        ensures
            r@ == x,
            r == (U256 { hi: 0, lo: x }),
    {
        U256 { hi: 0, lo: x }
    }

    /// Builds a value from its two words.
    pub fn from_words(hi: u128, lo: u128) -> (r: U256)
        ensures
            r@ == hi as nat * two_128() + lo as nat,
            r.hi == hi,
            r.lo == lo,
    {
        U256 { hi, lo }
    }

    /// The low 128 bits, that is the value modulo 2^128.
    pub fn low_u128(self) -> (r: u128)
        ensures
            r as nat == self@ % two_128(),
            r == self.lo,
    {
        proof {
            assert((self.hi as nat * two_128() + self.lo as nat) % two_128() == self.lo as nat)
                by (nonlinear_arith)
                requires
                    self.lo < two_128(),
            ;
        }
        self.lo
    }

    /// Whether the value is 0.
    pub fn is_zero(self) -> (r: bool)
        ensures
            r == (self@ == 0),
    {
        proof {
            assert((self.hi as nat * two_128() + (self.lo as nat) == 0) <==> (self.hi == 0 && self.lo
                == 0)) by (nonlinear_arith);
        }
        self.hi == 0 && self.lo == 0
    }

    /// Whether the lowest bit is set.
    pub fn is_odd(self) -> (r: bool)
        ensures
            r == (self@ % 2 == 1),
    {
        proof {
            let l: u128 = self.lo;
            assert((l & 1 == 1) == (l % 2 == 1)) by (bit_vector);
            assert((self.hi as nat * two_128() + self.lo as nat) % 2 == (self.lo as nat) % 2)
                by (nonlinear_arith)
                requires
                    two_128() == 2 * 0x8000_0000_0000_0000_0000_0000_0000_0000,
            ;
        }
        self.lo & 1 == 1
    }

    /// Whether the value fits in 128 bits.
    pub fn fits_u128(self) -> (r: bool)
        ensures
            r == (self@ < two_128()),
    {
        proof {
            assert((self.hi as nat * two_128() + (self.lo as nat) < two_128()) <==> self.hi == 0)
                by (nonlinear_arith)
                requires
                    self.lo < two_128(),
            ;
        }
        self.hi == 0
    }
}

impl U256 {
    /// `self < rhs`.
    pub fn is_lt(self, rhs: U256) -> (r: bool)
        ensures
            r == (self@ < rhs@),
    {
        proof {
            lemma_compare_words(self, rhs);
        }
        self.hi < rhs.hi || (self.hi == rhs.hi && self.lo < rhs.lo)
    }

    /// `self <= rhs`.
    pub fn is_le(self, rhs: U256) -> (r: bool)
        ensures
            r == (self@ <= rhs@),
    {
        !rhs.is_lt(self)
    }

    /// `self > rhs`.
    pub fn is_gt(self, rhs: U256) -> (r: bool)
        ensures
            r == (self@ > rhs@),
    {
        rhs.is_lt(self)
    }

    /// `self >= rhs`.
    pub fn is_ge(self, rhs: U256) -> (r: bool)
        ensures
            r == (self@ >= rhs@),
    {
        !self.is_lt(rhs)
    }

    /// Addition modulo 2^256.
    pub fn wrapping_add(self, rhs: U256) -> (r: U256)
        ensures
            r@ == (self@ + rhs@) % two_256(),
    {
        let lo: u128 = self.lo.wrapping_add(rhs.lo);
        let carry: u128 = if lo < self.lo {
            1
        } else {
            0
        };
        let hi: u128 = self.hi.wrapping_add(rhs.hi).wrapping_add(carry);
        let r = U256 { hi, lo };
        proof {
            let sum_lo: int = self.lo as int + rhs.lo as int;
            let sum_hi: int = self.hi as int + rhs.hi as int + carry as int;
            let wrap: int = if sum_hi >= two_128() {
                1
            } else {
                0
            };
            assert(lo as int == sum_lo - carry * two_128());
            assert(hi as int == sum_hi - wrap * two_128());
            lemma_view_bound(r);
            assert(r@ as int == (self@ + rhs@) as int - wrap * two_256()) by (nonlinear_arith)
                requires
                    r@ == hi as nat * two_128() + lo as nat,
                    self@ == self.hi as nat * two_128() + self.lo as nat,
                    rhs@ == rhs.hi as nat * two_128() + rhs.lo as nat,
                    lo as int == self.lo as int + rhs.lo as int - carry * two_128(),
                    hi as int == self.hi as int + rhs.hi as int + carry as int - wrap * two_128(),
                    two_256() == two_128() * two_128(),
            ;
            lemma_mod_of_shifted((self@ + rhs@) as int, r@ as int, wrap);
        }
        r
    }

    /// Subtraction modulo 2^256.
    pub fn wrapping_sub(self, rhs: U256) -> (r: U256)
        ensures
            r@ == (self@ - rhs@) % (two_256() as int),
    {
        let lo: u128 = self.lo.wrapping_sub(rhs.lo);
        let borrow: u128 = if self.lo < rhs.lo {
            1
        } else {
            0
        };
        let hi: u128 = self.hi.wrapping_sub(rhs.hi).wrapping_sub(borrow);
        let r = U256 { hi, lo };
        proof {
            let diff_hi: int = self.hi as int - rhs.hi as int - borrow as int;
            let wrap: int = if diff_hi < 0 {
                1
            } else {
                0
            };
            assert(lo as int == self.lo as int - rhs.lo as int + borrow * two_128());
            assert(hi as int == diff_hi + wrap * two_128());
            lemma_view_bound(r);
            assert(r@ as int == (self@ - rhs@) + wrap * two_256()) by (nonlinear_arith)
                requires
                    r@ == hi as nat * two_128() + lo as nat,
                    self@ == self.hi as nat * two_128() + self.lo as nat,
                    rhs@ == rhs.hi as nat * two_128() + rhs.lo as nat,
                    lo as int == self.lo as int - rhs.lo as int + borrow * two_128(),
                    hi as int == self.hi as int - rhs.hi as int - borrow as int + wrap * two_128(),
                    two_256() == two_128() * two_128(),
            ;
            lemma_mod_of_shifted(self@ - rhs@, r@ as int, -wrap);
        }
        r
    }

    /// The sum, or `None` where it does not fit in 256 bits.
    pub fn checked_add(self, rhs: U256) -> (r: Option<U256>)
        ensures
            self@ + rhs@ < two_256() ==> r.is_some() && r.unwrap()@ == self@ + rhs@,
            self@ + rhs@ >= two_256() ==> r.is_none(),
    {
        let s = self.wrapping_add(rhs);
        proof {
            lemma_view_bound(self);
            lemma_view_bound(rhs);
            lemma_view_bound(s);
            if self@ + rhs@ < two_256() {
                lemma_mod_of_shifted((self@ + rhs@) as int, (self@ + rhs@) as int, 0);
            } else {
                lemma_mod_of_shifted((self@ + rhs@) as int, (self@ + rhs@) - two_256(), 1);
            }
        }
        if s.is_lt(self) {
            None
        } else {
            Some(s)
        }
    }

    /// The difference, or `None` where `rhs` is the larger.
    pub fn checked_sub(self, rhs: U256) -> (r: Option<U256>)
        ensures
            self@ >= rhs@ ==> r.is_some() && r.unwrap()@ == self@ - rhs@,
            self@ < rhs@ ==> r.is_none(),
    {
        if self.is_lt(rhs) {
            None
        } else {
            let d = self.wrapping_sub(rhs);
            proof {
                lemma_view_bound(self);
                lemma_mod_of_shifted(self@ - rhs@, self@ - rhs@, 0);
            }
            Some(d)
        }
    }

    /// Bitwise and, word by word.
    pub fn bitand(self, rhs: U256) -> (r: U256)
        ensures
            r.hi == self.hi & rhs.hi,
            r.lo == self.lo & rhs.lo,
    {
        U256 { hi: self.hi & rhs.hi, lo: self.lo & rhs.lo }
    }

    /// Bitwise or, word by word.
    pub fn bitor(self, rhs: U256) -> (r: U256)
        ensures
            r.hi == self.hi | rhs.hi,
            r.lo == self.lo | rhs.lo,
    {
        U256 { hi: self.hi | rhs.hi, lo: self.lo | rhs.lo }
    }

    /// Bitwise exclusive or, word by word.
    pub fn bitxor(self, rhs: U256) -> (r: U256)
        ensures
            r.hi == self.hi ^ rhs.hi,
            r.lo == self.lo ^ rhs.lo,
    {
        U256 { hi: self.hi ^ rhs.hi, lo: self.lo ^ rhs.lo }
    }

    /// Bitwise complement, word by word.
    pub fn not(self) -> (r: U256)
        ensures
            r.hi == !self.hi,
            r.lo == !self.lo,
            r@ == two_256() - 1 - self@,
    {
        let r = U256 { hi: !self.hi, lo: !self.lo };
        proof {
            let h: u128 = self.hi;
            let l: u128 = self.lo;
            assert(!h == 0xffff_ffff_ffff_ffff_ffff_ffff_ffff_ffffu128 - h) by (bit_vector);
            assert(!l == 0xffff_ffff_ffff_ffff_ffff_ffff_ffff_ffffu128 - l) by (bit_vector);
            assert(r@ == two_256() - 1 - self@) by (nonlinear_arith)
                requires
                    r@ == r.hi as nat * two_128() + r.lo as nat,
                    self@ == self.hi as nat * two_128() + self.lo as nat,
                    r.hi == two_128() - 1 - self.hi,
                    r.lo == two_128() - 1 - self.lo,
                    two_256() == two_128() * two_128(),
            ;
        }
        r
    }
}

/// Calls `ethnum::U256::wrapping_mul`, which multiplies and keeps the low
/// 256 bits: the contract claims the product modulo 2^256.
#[verifier::external_body]
fn ethnum_wrapping_mul(a: U256, b: U256) -> (r: U256)
    ensures
        r@ == (a@ * b@) % two_256(),
{
    let x = ethnum::U256::from_words(a.hi, a.lo);
    let y = ethnum::U256::from_words(b.hi, b.lo);
    let (hi, lo) = x.wrapping_mul(y).into_words();
    U256 { hi, lo }
}

/// Calls `ethnum::U256::wrapping_div`, plain division of unsigned numbers,
/// which panics on a zero divisor: the contract leaves that divisor out and
/// claims the quotient rounded down.
#[verifier::external_body]
fn ethnum_wrapping_div(a: U256, b: U256) -> (r: U256)
    requires
        b@ != 0,
    ensures
        r@ == a@ / b@,
{
    let x = ethnum::U256::from_words(a.hi, a.lo);
    let y = ethnum::U256::from_words(b.hi, b.lo);
    let (hi, lo) = x.wrapping_div(y).into_words();
    U256 { hi, lo }
}

/// Calls `ethnum::U256::wrapping_rem`, the plain remainder of unsigned
/// numbers, which panics on a zero divisor: the contract leaves that divisor
/// out and claims the remainder of the division.
#[verifier::external_body]
fn ethnum_wrapping_rem(a: U256, b: U256) -> (r: U256)
    requires
        b@ != 0,
    ensures
        r@ == a@ % b@,
{
    let x = ethnum::U256::from_words(a.hi, a.lo);
    let y = ethnum::U256::from_words(b.hi, b.lo);
    let (hi, lo) = x.wrapping_rem(y).into_words();
    U256 { hi, lo }
}

/// Calls `ethnum::U256::wrapping_shl`, which shifts left by the amount taken
/// modulo 256 and drops the bits that leave the top: for an amount below 256
/// the contract claims the value times 2^n, modulo 2^256.
#[verifier::external_body]
fn ethnum_wrapping_shl(a: U256, n: u32) -> (r: U256)
    requires
        n < 256,
    ensures
        r@ == (a@ * pow2(n as nat)) % two_256(),
{
    let x = ethnum::U256::from_words(a.hi, a.lo);
    let (hi, lo) = x.wrapping_shl(n).into_words();
    U256 { hi, lo }
}

/// Calls `ethnum::U256::wrapping_shr`, which shifts right by the amount taken
/// modulo 256, filling with zeros: for an amount below 256 the contract claims
/// the value divided by 2^n, rounded down.
#[verifier::external_body]
fn ethnum_wrapping_shr(a: U256, n: u32) -> (r: U256)
    requires
        n < 256,
    ensures
        r@ == a@ / pow2(n as nat),
{
    let x = ethnum::U256::from_words(a.hi, a.lo);
    let (hi, lo) = x.wrapping_shr(n).into_words();
    U256 { hi, lo }
}

impl U256 {
    /// Multiplication modulo 2^256.
    pub fn wrapping_mul(self, rhs: U256) -> (r: U256)
        ensures
            r@ == (self@ * rhs@) % two_256(),
    {
        ethnum_wrapping_mul(self, rhs)
    }

    /// The quotient, rounded down.
    pub fn div(self, rhs: U256) -> (r: U256)
        requires
            rhs@ != 0,
        ensures
            r@ == self@ / rhs@,
    {
        ethnum_wrapping_div(self, rhs)
    }

    /// The remainder of the division.
    pub fn rem(self, rhs: U256) -> (r: U256)
        requires
            rhs@ != 0,
        ensures
            r@ == self@ % rhs@,
    {
        ethnum_wrapping_rem(self, rhs)
    }

    /// Left shift by `n` bits; bits that leave the top are dropped.
    pub fn shl(self, n: u32) -> (r: U256)
        requires
            n < 256,
        ensures
            r@ == (self@ * pow2(n as nat)) % two_256(),
    {
        ethnum_wrapping_shl(self, n)
    }

    /// Right shift by `n` bits.
    pub fn shr(self, n: u32) -> (r: U256)
        requires
            n < 256,
        ensures
            r@ == self@ / pow2(n as nat),
    {
        ethnum_wrapping_shr(self, n)
    }

    /// The product, or `None` where it does not fit in 256 bits.
    pub fn checked_mul(self, rhs: U256) -> (r: Option<U256>)
        ensures
            self@ * rhs@ < two_256() ==> r.is_some() && r.unwrap()@ == self@ * rhs@,
            self@ * rhs@ >= two_256() ==> r.is_none(),
    {
        if self.is_zero() {
            proof {
                assert(self@ * rhs@ == 0) by (nonlinear_arith)
                    requires
                        self@ == 0,
                ;
            }
            return Some(U256::zero());
        }
        let p = self.wrapping_mul(rhs);
        let q = p.div(self);
        proof {
            lemma_view_bound(p);
            lemma_view_bound(rhs);
            lemma_checked_mul(self@, rhs@, p@);
        }
        if q == rhs {
            Some(p)
        } else {
            None
        }
    }
}

/// `p = (a * b) mod 2^256` equals `a * b` exactly when `p / a == b`.
proof fn lemma_checked_mul(a: nat, b: nat, p: nat)
    requires
        a > 0,
        p == (a * b) % two_256(),
    ensures
        a * b < two_256() ==> p == a * b && p / a == b,
        a * b >= two_256() ==> p / a != b,
{
    let m: int = two_256() as int;
    let ab: int = (a * b) as int;
    lemma_two_256_pos();
    vstd::arithmetic::div_mod::lemma_fundamental_div_mod(ab, m);
    if ab < m {
        vstd::arithmetic::div_mod::lemma_small_mod(ab as nat, m as nat);
        vstd::arithmetic::div_mod::lemma_div_multiples_vanish(b as int, a as int);
        assert(a * b == b * a) by (nonlinear_arith);
    } else {
        let k: int = ab / m;
        assert(k >= 1) by (nonlinear_arith)
            requires
                ab >= m,
                m > 0,
                k == ab / m,
        ;
        assert(m * k >= m) by (nonlinear_arith)
            requires
                k >= 1,
                m > 0,
        ;
        assert(p < ab);
        if p / a == b {
            vstd::arithmetic::div_mod::lemma_fundamental_div_mod(p as int, a as int);
            assert(p as int >= a * (p / a));
            assert(a * (p / a) == a * b) by (nonlinear_arith)
                requires
                    p / a == b,
            ;
            assert(false);
        }
    }
}

/// Values compare as their words do, the high word first.
pub proof fn lemma_compare_words(a: U256, b: U256)
    ensures
        (a@ < b@) == (a.hi < b.hi || (a.hi == b.hi && a.lo < b.lo)),
{
    assert((a.hi as nat * two_128() + (a.lo as nat) < b.hi as nat * two_128() + (b.lo as nat)) == (
    a.hi < b.hi || (a.hi == b.hi && a.lo < b.lo))) by (nonlinear_arith)
        requires
            a.lo < two_128(),
            b.lo < two_128(),
    ;
}

/// If `r` lies in `[0, 2^256)` and differs from `x` by a multiple of 2^256,
/// then `r` is `x` modulo 2^256.
pub proof fn lemma_mod_of_shifted(x: int, r: int, k: int)
    requires
        0 <= r < two_256(),
        r == x - k * two_256(),
    ensures
        x % (two_256() as int) == r,
{
    lemma_two_256_pos();
    vstd::arithmetic::div_mod::lemma_fundamental_div_mod_converse(x, two_256() as int, k, r);
}

} // verus!
