//! Bit scans on 256-bit numbers.

use vstd::prelude::*;
use vstd::arithmetic::power2::pow2;
use vstd::arithmetic::power2::lemma_pow2_adds;
use vstd::arithmetic::power2::lemma_pow2_pos;
use vstd::arithmetic::power2::lemma2_to64;
use vstd::arithmetic::div_mod::lemma_fundamental_div_mod;
use vstd::arithmetic::div_mod::lemma_fundamental_div_mod_converse;
use vstd::arithmetic::div_mod::lemma_div_denominator;
use vstd::arithmetic::div_mod::lemma_small_mod;
use vstd::arithmetic::div_mod::lemma_mod_bound;
use crate::num256::U256;
use crate::num256::two_256;
use crate::num256::lemma_view_bound;
use crate::num256::lemma_named_powers;

verus! {

/// `r` is the index of the highest set bit of `x`.
pub open spec fn is_most_significant_bit(x: nat, r: nat) -> bool {
    pow2(r) <= x < pow2(r + 1)
}

/// `r` is the index of the lowest set bit of `x`.
pub open spec fn is_least_significant_bit(x: nat, r: nat) -> bool {
    x % pow2(r) == 0 && (x / pow2(r)) % 2 == 1
}

/// Whether bit `i` of `x` is set.
pub open spec fn bit_is_set(x: nat, i: nat) -> bool {
    (x / pow2(i)) % 2 == 1
}

/// The low `n` bits of a number are its bits below `n`; above them the low
/// part has no bit.
pub proof fn lemma_bits_of_low_part(x: nat, n: nat, i: nat)
    ensures
        i < n ==> bit_is_set(x % pow2(n), i) == bit_is_set(x, i),
        i >= n ==> !bit_is_set(x % pow2(n), i),
{
    lemma_pow2_pos(n);
    lemma_pow2_pos(i);
    let r: nat = x % pow2(n);
    let k: nat = x / pow2(n);
    lemma_fundamental_div_mod(x as int, pow2(n) as int);
    lemma_mod_bound(x as int, pow2(n) as int);
    if i < n {
        let d: nat = (n - i - 1) as nat;
        lemma_pow2_adds(i, (n - i) as nat);
        lemma_pow2_adds(d, 1);
        lemma2_to64();
        lemma_pow2_pos(d);
        // x == pow2(i) * (2 * pow2(d) * k) + r
        let h: int = 2 * ((pow2(d) * k) as int);
        assert(x == pow2(i) * h + r) by (nonlinear_arith)
            requires
                x == pow2(n) * k + r,
                pow2(n) == pow2(i) * pow2((n - i) as nat),
                pow2((n - i) as nat) == pow2(d) * 2,
                h == 2 * (pow2(d) * k),
        ;
        lemma_fundamental_div_mod(r as int, pow2(i) as int);
        lemma_mod_bound(r as int, pow2(i) as int);
        let rq: int = (r / pow2(i)) as int;
        let rr: int = (r % pow2(i)) as int;
        assert(x == (h + rq) * pow2(i) + rr) by (nonlinear_arith)
            requires
                x == pow2(i) * h + r,
                r == pow2(i) * rq + rr,
        ;
        lemma_fundamental_div_mod_converse(x as int, pow2(i) as int, h + rq, rr);
        assert((h + rq) % 2 == rq % 2) by {
            vstd::arithmetic::div_mod::lemma_mod_multiples_vanish((pow2(d) * k) as int, rq, 2);
            assert(2 * (pow2(d) * k) + rq == h + rq);
        }
    } else {
        if i > n {
            vstd::arithmetic::power2::lemma_pow2_strictly_increases(n, i);
        }
        vstd::arithmetic::div_mod::lemma_basic_div(r as int, pow2(i) as int);
    }
}

/// A number with its low `n` bits cleared keeps its bits from `n` up and has
/// none below.
pub proof fn lemma_bits_of_high_part(x: nat, n: nat, i: nat)
    ensures
        i >= n ==> bit_is_set((x / pow2(n)) * pow2(n), i) == bit_is_set(x, i),
        i < n ==> !bit_is_set((x / pow2(n)) * pow2(n), i),
{
    lemma_pow2_pos(n);
    lemma_pow2_pos(i);
    let h: nat = x / pow2(n);
    let y: nat = h * pow2(n);
    if i >= n {
        let d: nat = (i - n) as nat;
        lemma_pow2_adds(n, d);
        lemma_pow2_pos(d);
        lemma_div_denominator(x as int, pow2(n) as int, pow2(d) as int);
        lemma_div_denominator(y as int, pow2(n) as int, pow2(d) as int);
        vstd::arithmetic::div_mod::lemma_div_multiples_vanish(h as int, pow2(n) as int);
        assert(y == pow2(n) * h) by (nonlinear_arith)
            requires
                y == h * pow2(n),
        ;
        assert(y / pow2(n) == h);
        assert(x / pow2(i) == h / pow2(d));
        assert(y / pow2(i) == h / pow2(d));
    } else {
        let d: nat = (n - i - 1) as nat;
        lemma_pow2_adds(i, (n - i) as nat);
        lemma_pow2_adds(d, 1);
        lemma2_to64();
        let e: int = 2 * ((pow2(d) * h) as int);
        assert(y == e * pow2(i)) by (nonlinear_arith)
            requires
                y == h * pow2(n),
                pow2(n) == pow2(i) * pow2((n - i) as nat),
                pow2((n - i) as nat) == pow2(d) * 2,
                e == 2 * (pow2(d) * h),
        ;
        vstd::arithmetic::div_mod::lemma_div_multiples_vanish(e, pow2(i) as int);
        vstd::arithmetic::div_mod::lemma_mod_multiples_vanish((pow2(d) * h) as int, 0, 2);
        assert(2 * (pow2(d) * h) + 0 == e);
    }
}

/// The most significant bit is set, and no bit above it.
pub proof fn lemma_bits_above_most_significant(x: nat, r: nat, i: nat)
    requires
        is_most_significant_bit(x, r),
    ensures
        bit_is_set(x, r),
        i > r ==> !bit_is_set(x, i),
{
    lemma_pow2_pos(r);
    lemma_pow2_adds(r, 1);
    lemma2_to64();
    lemma_fundamental_div_mod(x as int, pow2(r) as int);
    lemma_mod_bound(x as int, pow2(r) as int);
    let q: int = (x / pow2(r)) as int;
    assert(q == 1) by (nonlinear_arith)
        requires
            x == pow2(r) * q + x % pow2(r),
            0 <= x % pow2(r) < pow2(r),
            pow2(r) <= x < pow2(r) * 2,
    ;
    if i > r {
        if i > r + 1 {
            vstd::arithmetic::power2::lemma_pow2_strictly_increases(r + 1, i);
        }
        vstd::arithmetic::div_mod::lemma_basic_div(x as int, pow2(i) as int);
    }
}

/// The least significant bit is set, and no bit below it.
pub proof fn lemma_bits_below_least_significant(x: nat, r: nat, i: nat)
    requires
        is_least_significant_bit(x, r),
    ensures
        bit_is_set(x, r),
        i < r ==> !bit_is_set(x, i),
{
    lemma_pow2_pos(r);
    if i < r {
        lemma_fundamental_div_mod(x as int, pow2(r) as int);
        assert((x / pow2(r)) * pow2(r) == x) by (nonlinear_arith)
            requires
                x == pow2(r) * (x / pow2(r)) + x % pow2(r),
                x % pow2(r) == 0,
        ;
        lemma_bits_of_high_part(x, r, i);
    }
}

/// Zero has no bit.
pub proof fn lemma_bits_of_zero(i: nat)
    ensures
        !bit_is_set(0, i),
{
    lemma_pow2_pos(i);
    vstd::arithmetic::div_mod::lemma_basic_div(0, pow2(i) as int);
}

/// Adding the power of two of a bit that is clear, or taking off that of a
/// bit that is set, flips that bit and leaves the others.
pub proof fn lemma_flip_bit(x: nat, b: nat, i: nat)
    ensures
        !bit_is_set(x, b) ==> bit_is_set(x + pow2(b), i) == (bit_is_set(x, i) != (i == b)),
        bit_is_set(x, b) ==> x >= pow2(b) && bit_is_set((x - pow2(b)) as nat, i) == (bit_is_set(
            x,
            i,
        ) != (i == b)),
{
    lemma_pow2_pos(b);
    lemma_pow2_pos(i);
    let p: nat = pow2(b);
    let h: nat = x / p;
    let l: nat = x % p;
    lemma_fundamental_div_mod(x as int, p as int);
    lemma_mod_bound(x as int, p as int);
    assert(bit_is_set(x, b) ==> x >= p) by (nonlinear_arith)
        requires
            x == p * h + l,
            bit_is_set(x, b) ==> h >= 1,
            p > 0,
    ;
    let y: nat = if bit_is_set(x, b) {
        (x - p) as nat
    } else {
        x + p
    };
    let hy: int = if bit_is_set(x, b) {
        h - 1
    } else {
        (h + 1) as int
    };
    assert(y == hy * p + l) by (nonlinear_arith)
        requires
            x == p * h + l,
            bit_is_set(x, b) ==> y == x - p && hy == h - 1,
            !bit_is_set(x, b) ==> y == x + p && hy == h + 1,
    ;
    lemma_fundamental_div_mod_converse(y as int, p as int, hy, l as int);
    assert(y / p == hy && y % p == l);
    if i < b {
        lemma_bits_of_low_part(x, b, i);
        lemma_bits_of_low_part(y, b, i);
    } else if i == b {
    } else {
        let d: nat = (i - b - 1) as nat;
        lemma_pow2_adds(b, 1);
        lemma_pow2_adds(b + 1, d);
        lemma_pow2_pos(d);
        lemma_pow2_pos(b + 1);
        lemma2_to64();
        lemma_div_denominator(x as int, p as int, 2);
        lemma_div_denominator(y as int, p as int, 2);
        assert(p * 2 == pow2(b + 1));
        assert(x / pow2(b + 1) == y / pow2(b + 1));
        lemma_div_denominator(x as int, pow2(b + 1) as int, pow2(d) as int);
        lemma_div_denominator(y as int, pow2(b + 1) as int, pow2(d) as int);
    }
}

/// Bit scans on 256-bit numbers.
pub struct BitMath {}

impl BitMath {
    /// The index of the most significant bit of a number that is not zero,
    /// counting the least significant bit as 0.
    pub fn most_significant_bit(x: U256) -> (r: u8)
        requires
            x@ > 0,
        ensures
            is_most_significant_bit(x@, r as nat),
    {
        proof {
            lemma_view_bound(x);
            lemma_named_powers();
            lemma2_to64();
        }
        let (v, r) = upper_half(x, 0, 128, Ghost(x@));
        let (v, r) = upper_half(v, r, 64, Ghost(x@));
        let (v, r) = upper_half(v, r, 32, Ghost(x@));
        let (v, r) = upper_half(v, r, 16, Ghost(x@));
        let (v, r) = upper_half(v, r, 8, Ghost(x@));
        let (v, r) = upper_half(v, r, 4, Ghost(x@));
        let (v, r) = upper_half(v, r, 2, Ghost(x@));
        let (v, r) = upper_half(v, r, 1, Ghost(x@));
        proof {
            assert(v@ == 1);
            lemma_pow2_pos(r as nat);
            lemma_pow2_adds(r as nat, 1);
            lemma_fundamental_div_mod(x@ as int, pow2(r as nat) as int);
            lemma_mod_bound(x@ as int, pow2(r as nat) as int);
        }
        r
    }

    /// The index of the least significant bit of a number that is not zero,
    /// counting the least significant bit as 0.
    pub fn least_significant_bit(x: U256) -> (r: u8)
        requires
            x@ > 0,
        ensures
            is_least_significant_bit(x@, r as nat),
    {
        proof {
            lemma_view_bound(x);
            lemma_named_powers();
            lemma2_to64();
            lemma_small_mod(x@, two_256());
            assert(x@ == x@ * 1);
        }
        let (v, r) = lower_half(x, 255, 128, Ghost(x@));
        let (v, r) = lower_half(v, r, 64, Ghost(x@));
        let (v, r) = lower_half(v, r, 32, Ghost(x@));
        let (v, r) = lower_half(v, r, 16, Ghost(x@));
        let (v, r) = lower_half(v, r, 8, Ghost(x@));
        let (v, r) = lower_half(v, r, 4, Ghost(x@));
        let (v, r) = lower_half(v, r, 2, Ghost(x@));
        let (v, r) = lower_half(v, r, 1, Ghost(x@));
        proof {
            // v is odd and x == v * 2^r
            lemma_pow2_pos(r as nat);
            assert(v@ * pow2(r as nat) == pow2(r as nat) * v@) by (nonlinear_arith);
            lemma_fundamental_div_mod_converse(x@ as int, pow2(r as nat) as int, v@ as int, 0);
        }
        r
    }
}

/// One step of the search for the highest set bit: where the number has a bit
/// at or above position `s`, shift it down by `s` and count `s`.
fn upper_half(v: U256, r: u8, s: u8, Ghost(x): Ghost<nat>) -> (out: (U256, u8))
    requires
        1 <= s <= 128,
        r as nat + 2 * s <= 256,
        1 <= v@ < pow2(2 * s as nat),
        v@ == x / pow2(r as nat),
    ensures
        out.1 as nat + s <= 256,
        1 <= out.0@ < pow2(s as nat),
        out.0@ == x / pow2(out.1 as nat),
{
    proof {
        lemma_pow2_pos(s as nat);
        lemma_pow2_pos(r as nat);
        lemma_pow2_adds(s as nat, s as nat);
        lemma_pow2_adds(r as nat, s as nat);
        lemma_named_powers();
        if s < 128 {
            vstd::arithmetic::power2::lemma_pow2_strictly_increases(s as nat, 128);
        }
        crate::num256::lemma_two_256_pos();
        lemma_small_mod(pow2(s as nat), two_256());
        assert(1 * pow2(s as nat) == pow2(s as nat));
    }
    let bound = if s == 128 {
        U256::from_words(1, 0)
    } else {
        U256::one().shl(s as u32)
    };
    if v.is_ge(bound) {
        let w = v.shr(s as u32);
        proof {
            let p: int = pow2(s as nat) as int;
            lemma_fundamental_div_mod(v@ as int, p);
            lemma_mod_bound(v@ as int, p);
            assert(1 <= v@ as int / p < p) by (nonlinear_arith)
                requires
                    v@ as int == p * (v@ as int / p) + (v@ as int) % p,
                    0 <= (v@ as int) % p < p,
                    p <= v@ < p * p,
            ;
            lemma_div_denominator(x as int, pow2(r as nat) as int, p);
        }
        (w, r + s)
    } else {
        (v, r)
    }
}

/// One step of the search for the lowest set bit: where the low `s` bits of
/// the number are all zero, shift it down by `s`; else the bit is among them
/// and the candidate index drops by `s`.
fn lower_half(v: U256, r: u8, s: u8, Ghost(x): Ghost<nat>) -> (out: (U256, u8))
    requires
        1 <= s <= 128,
        r as nat + 1 >= 2 * s,
        r <= 255,
        v@ % pow2(2 * s as nat) != 0,
        x == v@ * pow2((r as nat + 1 - 2 * s) as nat),
    ensures
        out.1 as nat + 1 >= s,
        out.1 <= 255,
        out.0@ % pow2(s as nat) != 0,
        x == out.0@ * pow2((out.1 as nat + 1 - s) as nat),
{
    proof {
        lemma_pow2_pos(s as nat);
        lemma_pow2_adds(s as nat, s as nat);
        lemma_pow2_adds((r as nat + 1 - 2 * s) as nat, s as nat);
        lemma_named_powers();
        if s < 128 {
            vstd::arithmetic::power2::lemma_pow2_strictly_increases(s as nat, 128);
        }
        crate::num256::lemma_two_256_pos();
        lemma_small_mod(pow2(s as nat), two_256());
        assert(1 * pow2(s as nat) == pow2(s as nat));
    }
    let modulus = if s == 128 {
        U256::from_words(1, 0)
    } else {
        U256::one().shl(s as u32)
    };
    if !v.rem(modulus).is_zero() {
        (v, r - s)
    } else {
        let w = v.shr(s as u32);
        proof {
            let p: int = pow2(s as nat) as int;
            let c: int = pow2((r as nat + 1 - 2 * s) as nat) as int;
            lemma_fundamental_div_mod(v@ as int, p);
            lemma_fundamental_div_mod(w@ as int, p);
            assert(v@ as int == p * w@);
            if w@ % pow2(s as nat) == 0 {
                let k: int = w@ as int / p;
                assert(v@ as int == (p * p) * k) by (nonlinear_arith)
                    requires
                        v@ as int == p * w@,
                        w@ as int == p * k,
                ;
                assert(p * p > 0) by (nonlinear_arith)
                    requires
                        p > 0,
                ;
                vstd::arithmetic::div_mod::lemma_mod_multiples_basic(k, p * p);
                assert(((p * p) * k) == k * (p * p)) by (nonlinear_arith);
                assert(false);
            }
            assert(x == w@ * (c * p)) by (nonlinear_arith)
                requires
                    x == v@ * c,
                    v@ as int == p * w@,
            ;
        }
        (w, r)
    }
}

} // verus!
