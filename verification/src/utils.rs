//! Helpers for writing prices and amounts.

use vstd::prelude::*;
use crate::num256::U256;
use crate::num256::two_96;
use crate::num256::two_128;
use crate::num256::two_160;
use crate::num256::two_256;
use crate::num256::lemma_two_256_pos;
use crate::num256::lemma_view_bound;
use crate::num256::lemma_named_powers;
use crate::num256::lemma_mod_of_shifted;
use crate::full_math::FullMath;
use crate::full_math::lemma_div_floor_compare;

verus! {

/// 2^192, the square of the fixed-point 1 of a square-root price.
pub open spec fn two_192() -> nat {
    two_96() * two_96()
}

/// The least square-root price that `encode_price_sqrt` considers.
pub open spec fn least_encoded() -> nat {
    4295128739
}

/// Whether the square of `m`, as a Q64.96 square-root price, is at most the
/// price `reserve1 / reserve0`.
pub open spec fn price_fits(reserve1: nat, reserve0: nat, m: nat) -> bool {
    m * (m * reserve0) <= reserve1 * two_192()
}

/// Whether `r` is the encoded square root of the price
/// `reserve1 / reserve0`: the greatest number between 4295128739 and 2^160
/// whose square is at most the price, or 0 where there is none.
pub open spec fn is_encoded_price(reserve1: nat, reserve0: nat, r: nat) -> bool {
    if r == 0 {
        forall|m: nat| least_encoded() <= m <= two_160() ==> !#[trigger] price_fits(
            reserve1,
            reserve0,
            m,
        )
    } else {
        &&& least_encoded() <= r <= two_160()
        &&& price_fits(reserve1, reserve0, r)
        &&& forall|m: nat| r < m <= two_160() ==> !#[trigger] price_fits(reserve1, reserve0, m)
    }
}

/// A greater number fits a price only where a lesser one does.
proof fn lemma_price_fits_is_monotone(reserve1: nat, reserve0: nat, m: nat, n: nat)
    requires
        m <= n,
        price_fits(reserve1, reserve0, n),
    ensures
        price_fits(reserve1, reserve0, m),
{
    assert(m * (m * reserve0) <= n * (n * reserve0)) by (nonlinear_arith)
        requires
            m <= n,
    ;
}

/// Whether `mid` fits the price.
fn fits(reserve1: U256, reserve0: U256, mid: U256) -> (r: bool)
    requires
        0 < reserve0@ < two_96(),
        0 < mid@ <= two_160(),
    ensures
        r == price_fits(reserve1@, reserve0@, mid@),
{
    proof {
        lemma_two_256_pos();
        lemma_named_powers();
        assert(mid@ * reserve0@ < two_256() && mid@ * reserve0@ > 0) by (nonlinear_arith)
            requires
                0 < reserve0@ < two_96(),
                0 < mid@ <= two_160(),
                two_160() == two_128() * 0x1_0000_0000,
                two_96() == 0x1_0000_0000_0000_0000_0000_0000,
                two_256() == two_128() * two_128(),
                two_128() == 0x1_0000_0000 * 0x1_0000_0000_0000_0000_0000_0000,
        ;
        vstd::arithmetic::div_mod::lemma_small_mod(mid@ * reserve0@, two_256());
        assert(0x1_0000_0000_0000_0000 * two_128() + 0 == two_192()) by (nonlinear_arith)
            requires
                two_192() == two_96() * two_96(),
                two_96() == 0x1_0000_0000_0000_0000_0000_0000,
                two_128() == 0x1_0000_0000 * 0x1_0000_0000_0000_0000_0000_0000,
        ;
    }
    let denominator = mid.wrapping_mul(reserve0);
    let scale = U256::from_words(0x1_0000_0000_0000_0000, 0);
    proof {
        let product: nat = reserve1@ * two_192();
        lemma_div_floor_compare(product, denominator@, mid@);
        lemma_div_floor_compare(product, denominator@, two_256());
        lemma_view_bound(mid);
        assert(mid@ * denominator@ <= two_256() * denominator@) by (nonlinear_arith)
            requires
                mid@ < two_256(),
        ;
    }
    match FullMath::checked_mul_div(reserve1, scale, denominator) {
        Some(x) => mid.is_le(x),
        None => true,
    }
}

/// The square root of the price `reserve1 / reserve0` as a Q64.96 number,
/// found by bisection between 4295128739 and 2^160. The second reserve must
/// not be zero and must fit in 96 bits.
pub fn encode_price_sqrt(reserve1: U256, reserve0: U256) -> (res: U256)
    requires
        0 < reserve0@ < two_96(),
    ensures
        is_encoded_price(reserve1@, reserve0@, res@),
{
    let mut l = U256::from_u128(4295128739);
    let mut r = U256::from_words(0x1_0000_0000, 0);
    let mut res = U256::zero();
    proof {
        lemma_two_256_pos();
    }
    while l.is_le(r)
        invariant
            0 < reserve0@ < two_96(),
            least_encoded() <= l@,
            r@ <= two_160(),
            l@ <= r@ + 1,
            (res@ == 0 && l@ == least_encoded()) || (least_encoded() <= res@ && res@ + 1 == l@
                && price_fits(
                reserve1@,
                reserve0@,
                res@,
            )),
            forall|m: nat| r@ < m <= two_160() ==> !#[trigger] price_fits(reserve1@, reserve0@, m),
        decreases r@ + 1 - l@,
    {
        let sum = l.wrapping_add(r);
        let mid = sum.shr(1);
        proof {
            lemma_two_256_pos();
            vstd::arithmetic::power2::lemma2_to64();
            assert(l@ + r@ < two_256()) by (nonlinear_arith)
                requires
                    l@ <= r@,
                    r@ <= two_128() * 0x1_0000_0000,
                    two_256() == two_128() * two_128(),
                    two_128() > 0x2_0000_0000,
            ;
            vstd::arithmetic::div_mod::lemma_small_mod(l@ + r@, two_256());
            assert(l@ <= mid@ <= r@);
        }
        if fits(reserve1, reserve0, mid) {
            res = mid;
            l = mid.wrapping_add(U256::one());
            proof {
                vstd::arithmetic::div_mod::lemma_small_mod(mid@ + 1, two_256());
            }
        } else {
            proof {
                assert forall|m: nat| mid@ <= m <= two_160() implies !#[trigger] price_fits(
                    reserve1@,
                    reserve0@,
                    m,
                ) by {
                    if price_fits(reserve1@, reserve0@, m) {
                        lemma_price_fits_is_monotone(reserve1@, reserve0@, mid@, m);
                    }
                }
                lemma_mod_of_shifted(mid@ - 1, mid@ - 1, 0);
            }
            r = mid.wrapping_sub(U256::one());
        }
    }
    res
}

/// The square root of the price `reserve1 / reserve0` as a Q64.96 number.
/// The second reserve must not be zero and must fit in 96 bits.
pub fn encode_price_sqrt_u128(reserve1: u128, reserve0: u128) -> (res: U256)
    requires
        0 < reserve0 < two_96(),
    ensures
        is_encoded_price(reserve1 as nat, reserve0 as nat, res@),
{
    encode_price_sqrt(U256::from_u128(reserve1), U256::from_u128(reserve0))
}

/// An amount of whole tokens in units of 10^-18 tokens.
pub fn expand_to_18_decimals(amount: u128) -> (r: U256)
    ensures
        r@ == amount * 1_000_000_000_000_000_000,
{
    proof {
        lemma_two_256_pos();
        assert(amount * 1_000_000_000_000_000_000 < two_256()) by (nonlinear_arith)
            requires
                amount < two_128(),
                two_256() == two_128() * two_128(),
                two_128() > 1_000_000_000_000_000_000,
        ;
        vstd::arithmetic::div_mod::lemma_small_mod(
            (amount * 1_000_000_000_000_000_000) as nat,
            two_256(),
        );
    }
    U256::from_u128(amount).wrapping_mul(U256::from_u128(1_000_000_000_000_000_000))
}

} // verus!
