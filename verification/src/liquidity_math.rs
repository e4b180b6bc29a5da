//! Liquidity amounts: applying a signed change, and deriving the liquidity
//! that given token amounts provide over a price range.

use vstd::prelude::*;
use crate::num256::U256;
use crate::num256::two_96;
use crate::num256::two_128;
use crate::num256::two_256;
use crate::num256::lemma_two_256_pos;
use crate::num256::lemma_view_bound;
use crate::num256::lemma_mod_of_shifted;
use crate::full_math::FullMath;
use crate::full_math::mul_div_floor;
use crate::fixed_point_96::get_q96;
use crate::sqrt_price_math::lesser;
use crate::sqrt_price_math::greater;

verus! {

/// The liquidity after a signed change, or `None` where the change would
/// take it below zero or above the 128-bit range.
pub fn checked_add_delta(x: u128, y: i128) -> (z: Option<u128>)
    ensures
        0 <= x + y <= u128::MAX ==> z == Some((x + y) as u128),
        !(0 <= x + y <= u128::MAX) ==> z.is_none(),
{
    if y < 0 {
        let size: u128 = if y == i128::MIN {
            0x8000_0000_0000_0000_0000_0000_0000_0000
        } else {
            (-y) as u128
        };
        if x < size {
            None
        } else {
            Some(x - size)
        }
    } else {
        let size: u128 = y as u128;
        if x > u128::MAX - size {
            None
        } else {
            Some(x + size)
        }
    }
}

/// The liquidity after the net liquidity of a tick is added, or taken off
/// when `negate` is set; `None` where the result would fall below zero or
/// leave the 128-bit range.
pub fn checked_apply_net(x: u128, net: i128, negate: bool) -> (z: Option<u128>)
    ensures
        !negate ==> (0 <= x + net <= u128::MAX ==> z == Some((x + net) as u128)) && (!(0 <= x
            + net <= u128::MAX) ==> z.is_none()),
        negate ==> (0 <= x - net <= u128::MAX ==> z == Some((x - net) as u128)) && (!(0 <= x
            - net <= u128::MAX) ==> z.is_none()),
{
    if !negate {
        checked_add_delta(x, net)
    } else if net == i128::MIN {
        x.checked_add(0x8000_0000_0000_0000_0000_0000_0000_0000)
    } else {
        checked_add_delta(x, -net)
    }
}

/// The liquidity after a signed change. The result must lie in the 128-bit
/// range.
pub fn add_delta(x: u128, y: i128) -> (z: u128)
    requires
        0 <= x + y <= u128::MAX,
    ensures
        z == x + y,
{
    if y < 0 {
        let size: u128 = if y == i128::MIN {
            0x8000_0000_0000_0000_0000_0000_0000_0000
        } else {
            (-y) as u128
        };
        x - size
    } else {
        x + (y as u128)
    }
}

/// The liquidity after a signed change; the same as `add_delta`.
pub fn add_liquidity(x: u128, y: i128) -> (z: u128)
    requires
        0 <= x + y <= u128::MAX,
    ensures
        z == x + y,
{
    add_delta(x, y)
}

/// The liquidity that `amount_0` of token0 provides between two prices:
/// `amount_0 * (lo * hi / 2^96) / (hi - lo)`, each division rounded down.
pub open spec fn liquidity_for_amount_0(a: nat, b: nat, amount_0: nat) -> nat {
    let lo = lesser(a, b);
    let hi = greater(a, b);
    mul_div_floor(amount_0, mul_div_floor(lo, hi, two_96()), (hi - lo) as nat)
}

/// The liquidity that `amount_1` of token1 provides between two prices:
/// `amount_1 * 2^96 / (hi - lo)`, rounded down.
pub open spec fn liquidity_for_amount_1(a: nat, b: nat, amount_1: nat) -> nat {
    let lo = lesser(a, b);
    let hi = greater(a, b);
    mul_div_floor(amount_1, two_96(), (hi - lo) as nat)
}

/// The liquidity that the two amounts provide over a price range at the
/// current price `p`: at or below the lower price only token0 counts, at or
/// above the upper price only token1, and between them the lesser of the
/// two.
pub open spec fn liquidity_for_amounts(p: nat, a: nat, b: nat, amount_0: nat, amount_1: nat)
    -> nat {
    let lo = lesser(a, b);
    let hi = greater(a, b);
    if p <= lo {
        liquidity_for_amount_0(lo, hi, amount_0)
    } else if p < hi {
        let liquidity_0 = liquidity_for_amount_0(p, hi, amount_0);
        let liquidity_1 = liquidity_for_amount_1(lo, p, amount_1);
        if liquidity_0 < liquidity_1 {
            liquidity_0
        } else {
            liquidity_1
        }
    } else {
        liquidity_for_amount_1(lo, hi, amount_1)
    }
}

/// Whether the liquidity for an amount of token0 can be computed: the prices
/// differ, their product over 2^96 fits in 256 bits, and the result fits in
/// 128 bits.
pub open spec fn amount_0_defined(a: nat, b: nat, amount_0: nat) -> bool {
    a != b && mul_div_floor(lesser(a, b), greater(a, b), two_96()) < two_256()
        && liquidity_for_amount_0(a, b, amount_0) <= u128::MAX
}

/// Whether the liquidity for an amount of token1 can be computed: the prices
/// differ and the result fits in 128 bits.
pub open spec fn amount_1_defined(a: nat, b: nat, amount_1: nat) -> bool {
    a != b && liquidity_for_amount_1(a, b, amount_1) <= u128::MAX
}

/// Whether the liquidity for both amounts can be computed at price `p`.
pub open spec fn amounts_defined(p: nat, a: nat, b: nat, amount_0: nat, amount_1: nat) -> bool {
    let lo = lesser(a, b);
    let hi = greater(a, b);
    if p <= lo {
        amount_0_defined(lo, hi, amount_0)
    } else if p < hi {
        amount_0_defined(p, hi, amount_0) && amount_1_defined(lo, p, amount_1)
    } else {
        amount_1_defined(lo, hi, amount_1)
    }
}

/// The liquidity that `amount_0` of token0 provides between two prices.
pub fn get_liquidity_for_amount_0(sqrt_price_a_x96: U256, sqrt_price_b_x96: U256, amount_0: u128)
    -> (r: u128)
    requires
        amount_0_defined(sqrt_price_a_x96@, sqrt_price_b_x96@, amount_0 as nat),
    ensures
        r == liquidity_for_amount_0(sqrt_price_a_x96@, sqrt_price_b_x96@, amount_0 as nat),
{
    let (lo, hi) = if sqrt_price_a_x96.is_gt(sqrt_price_b_x96) {
        (sqrt_price_b_x96, sqrt_price_a_x96)
    } else {
        (sqrt_price_a_x96, sqrt_price_b_x96)
    };
    proof {
        lemma_two_256_pos();
        lemma_view_bound(hi);
        lemma_mod_of_shifted(hi@ - lo@, hi@ - lo@, 0);
    }
    let intermediate = FullMath::mul_div(lo, hi, get_q96());
    let liquidity = FullMath::mul_div(U256::from_u128(amount_0), intermediate, hi.wrapping_sub(lo));
    proof {
        vstd::arithmetic::div_mod::lemma_small_mod(liquidity@, two_128());
    }
    liquidity.low_u128()
}

/// The liquidity that `amount_1` of token1 provides between two prices.
pub fn get_liquidity_for_amount_1(sqrt_price_a_x96: U256, sqrt_price_b_x96: U256, amount_1: u128)
    -> (r: u128)
    requires
        amount_1_defined(sqrt_price_a_x96@, sqrt_price_b_x96@, amount_1 as nat),
    ensures
        r == liquidity_for_amount_1(sqrt_price_a_x96@, sqrt_price_b_x96@, amount_1 as nat),
{
    let (lo, hi) = if sqrt_price_a_x96.is_gt(sqrt_price_b_x96) {
        (sqrt_price_b_x96, sqrt_price_a_x96)
    } else {
        (sqrt_price_a_x96, sqrt_price_b_x96)
    };
    proof {
        lemma_two_256_pos();
        lemma_view_bound(hi);
        lemma_mod_of_shifted(hi@ - lo@, hi@ - lo@, 0);
    }
    let liquidity = FullMath::mul_div(U256::from_u128(amount_1), get_q96(), hi.wrapping_sub(lo));
    proof {
        vstd::arithmetic::div_mod::lemma_small_mod(liquidity@, two_128());
    }
    liquidity.low_u128()
}

/// The liquidity that the two amounts provide over a price range at the
/// current price.
pub fn get_liquidity_for_amounts(
    sqrt_price_x96: U256,
    sqrt_price_a_x96: U256,
    sqrt_price_b_x96: U256,
    amount_0: u128,
    amount_1: u128,
) -> (r: u128)
    requires
        amounts_defined(
            sqrt_price_x96@,
            sqrt_price_a_x96@,
            sqrt_price_b_x96@,
            amount_0 as nat,
            amount_1 as nat,
        ),
    ensures
        r == liquidity_for_amounts(
            sqrt_price_x96@,
            sqrt_price_a_x96@,
            sqrt_price_b_x96@,
            amount_0 as nat,
            amount_1 as nat,
        ),
{
    let (lo, hi) = if sqrt_price_a_x96.is_gt(sqrt_price_b_x96) {
        (sqrt_price_b_x96, sqrt_price_a_x96)
    } else {
        (sqrt_price_a_x96, sqrt_price_b_x96)
    };
    if sqrt_price_x96.is_le(lo) {
        get_liquidity_for_amount_0(lo, hi, amount_0)
    } else if sqrt_price_x96.is_lt(hi) {
        let liquidity_0 = get_liquidity_for_amount_0(sqrt_price_x96, hi, amount_0);
        let liquidity_1 = get_liquidity_for_amount_1(lo, sqrt_price_x96, amount_1);
        if liquidity_0 < liquidity_1 {
            liquidity_0
        } else {
            liquidity_1
        }
    } else {
        get_liquidity_for_amount_1(lo, hi, amount_1)
    }
}

/// A liquidity of at most what `amount_0` of token0 provides between two
/// prices takes at most `amount_0` of token0 between them.
pub proof fn lemma_amount_0_covers_liquidity(x: nat, y: nat, amount_0: nat, liquidity: nat)
    requires
        0 < x < y,
        liquidity <= liquidity_for_amount_0(x, y, amount_0),
    ensures
        crate::sqrt_price_math::amount0_delta(x, y, liquidity, true) <= amount_0,
{
    let width: nat = (y - x) as nat;
    let scaled: nat = mul_div_floor(x, y, two_96());
    let most: nat = liquidity_for_amount_0(x, y, amount_0);
    let numerator1: nat = liquidity * two_96();
    crate::full_math::lemma_div_floor_bounds(x * y, two_96());
    crate::full_math::lemma_div_floor_bounds(amount_0 * scaled, width);
    assert(liquidity * width <= amount_0 * scaled) by (nonlinear_arith)
        requires
            most * width <= amount_0 * scaled,
            liquidity <= most,
    ;
    assert(numerator1 * width <= (amount_0 * x) * y) by (nonlinear_arith)
        requires
            liquidity * width <= amount_0 * scaled,
            scaled * two_96() <= x * y,
            numerator1 == liquidity * two_96(),
    ;
    crate::full_math::lemma_div_ceil_le(numerator1 * width, y, amount_0 * x);
    crate::full_math::lemma_div_ceil_le(
        crate::full_math::mul_div_ceil(numerator1, width, y),
        x,
        amount_0,
    );
}

/// A liquidity of at most what `amount_1` of token1 provides between two
/// prices takes at most `amount_1` of token1 between them.
pub proof fn lemma_amount_1_covers_liquidity(x: nat, y: nat, amount_1: nat, liquidity: nat)
    requires
        x < y,
        liquidity <= liquidity_for_amount_1(x, y, amount_1),
    ensures
        crate::sqrt_price_math::amount1_delta(x, y, liquidity, true) <= amount_1,
{
    let width: nat = (y - x) as nat;
    let most: nat = liquidity_for_amount_1(x, y, amount_1);
    crate::full_math::lemma_div_floor_bounds(amount_1 * two_96(), width);
    assert(liquidity * width <= amount_1 * two_96()) by (nonlinear_arith)
        requires
            most * width <= amount_1 * two_96(),
            liquidity <= most,
    ;
    crate::full_math::lemma_div_ceil_le(liquidity * width, two_96(), amount_1);
}

/// The liquidity that desired amounts provide over a price range takes no
/// more than the desired amounts: of token0 between the current price and
/// the upper price, and of token1 between the lower price and the current
/// price.
pub proof fn lemma_liquidity_within_amounts(p: nat, a: nat, b: nat, amount_0: nat, amount_1: nat)
    requires
        0 < a,
        0 < b,
        a != b,
    ensures
        ({
            let lo = lesser(a, b);
            let hi = greater(a, b);
            let liquidity = liquidity_for_amounts(p, a, b, amount_0, amount_1);
            &&& p <= lo ==> crate::sqrt_price_math::amount0_delta(lo, hi, liquidity, true)
                <= amount_0
            &&& lo < p < hi ==> crate::sqrt_price_math::amount0_delta(p, hi, liquidity, true)
                <= amount_0 && crate::sqrt_price_math::amount1_delta(lo, p, liquidity, true)
                <= amount_1
            &&& hi <= p ==> crate::sqrt_price_math::amount1_delta(lo, hi, liquidity, true)
                <= amount_1
        }),
{
    let lo = lesser(a, b);
    let hi = greater(a, b);
    let liquidity = liquidity_for_amounts(p, a, b, amount_0, amount_1);
    if p <= lo {
        lemma_amount_0_covers_liquidity(lo, hi, amount_0, liquidity);
    } else if p < hi {
        lemma_amount_0_covers_liquidity(p, hi, amount_0, liquidity);
        lemma_amount_1_covers_liquidity(lo, p, amount_1, liquidity);
    } else {
        lemma_amount_1_covers_liquidity(lo, hi, amount_1, liquidity);
    }
}

/// The liquidity that `amount_0` of token0 provides between two prices, or
/// `None` where it is not defined.
pub fn checked_get_liquidity_for_amount_0(
    sqrt_price_a_x96: U256,
    sqrt_price_b_x96: U256,
    amount_0: u128,
) -> (r: Option<u128>)
    ensures
        amount_0_defined(sqrt_price_a_x96@, sqrt_price_b_x96@, amount_0 as nat) ==> r == Some(
            liquidity_for_amount_0(sqrt_price_a_x96@, sqrt_price_b_x96@, amount_0 as nat) as u128,
        ),
        !amount_0_defined(sqrt_price_a_x96@, sqrt_price_b_x96@, amount_0 as nat) ==> r.is_none(),
{
    let (lo, hi) = if sqrt_price_a_x96.is_gt(sqrt_price_b_x96) {
        (sqrt_price_b_x96, sqrt_price_a_x96)
    } else {
        (sqrt_price_a_x96, sqrt_price_b_x96)
    };
    proof {
        lemma_two_256_pos();
        lemma_view_bound(hi);
        lemma_mod_of_shifted(hi@ - lo@, hi@ - lo@, 0);
        if lo@ == hi@ {
            crate::num256::lemma_view_injective(lo, hi);
        }
    }
    if lo == hi {
        return None;
    }
    let intermediate = match FullMath::checked_mul_div(lo, hi, get_q96()) {
        Some(intermediate) => intermediate,
        None => {
            return None;
        },
    };
    match FullMath::checked_mul_div(U256::from_u128(amount_0), intermediate, hi.wrapping_sub(lo)) {
        Some(liquidity) => {
            if liquidity.fits_u128() {
                proof {
                    vstd::arithmetic::div_mod::lemma_small_mod(liquidity@, two_128());
                }
                Some(liquidity.low_u128())
            } else {
                None
            }
        },
        None => None,
    }
}

/// The liquidity that `amount_1` of token1 provides between two prices, or
/// `None` where it is not defined.
pub fn checked_get_liquidity_for_amount_1(
    sqrt_price_a_x96: U256,
    sqrt_price_b_x96: U256,
    amount_1: u128,
) -> (r: Option<u128>)
    ensures
        amount_1_defined(sqrt_price_a_x96@, sqrt_price_b_x96@, amount_1 as nat) ==> r == Some(
            liquidity_for_amount_1(sqrt_price_a_x96@, sqrt_price_b_x96@, amount_1 as nat) as u128,
        ),
        !amount_1_defined(sqrt_price_a_x96@, sqrt_price_b_x96@, amount_1 as nat) ==> r.is_none(),
{
    let (lo, hi) = if sqrt_price_a_x96.is_gt(sqrt_price_b_x96) {
        (sqrt_price_b_x96, sqrt_price_a_x96)
    } else {
        (sqrt_price_a_x96, sqrt_price_b_x96)
    };
    proof {
        lemma_two_256_pos();
        lemma_view_bound(hi);
        lemma_mod_of_shifted(hi@ - lo@, hi@ - lo@, 0);
        if lo@ == hi@ {
            crate::num256::lemma_view_injective(lo, hi);
        }
    }
    if lo == hi {
        return None;
    }
    match FullMath::checked_mul_div(U256::from_u128(amount_1), get_q96(), hi.wrapping_sub(lo)) {
        Some(liquidity) => {
            if liquidity.fits_u128() {
                proof {
                    vstd::arithmetic::div_mod::lemma_small_mod(liquidity@, two_128());
                }
                Some(liquidity.low_u128())
            } else {
                None
            }
        },
        None => None,
    }
}

/// The liquidity that the two amounts provide over a price range at the
/// current price, or `None` where it is not defined.
pub fn checked_get_liquidity_for_amounts(
    sqrt_price_x96: U256,
    sqrt_price_a_x96: U256,
    sqrt_price_b_x96: U256,
    amount_0: u128,
    amount_1: u128,
) -> (r: Option<u128>)
    ensures
        amounts_defined(
            sqrt_price_x96@,
            sqrt_price_a_x96@,
            sqrt_price_b_x96@,
            amount_0 as nat,
            amount_1 as nat,
        ) ==> r == Some(
            liquidity_for_amounts(
                sqrt_price_x96@,
                sqrt_price_a_x96@,
                sqrt_price_b_x96@,
                amount_0 as nat,
                amount_1 as nat,
            ) as u128,
        ),
        !amounts_defined(
            sqrt_price_x96@,
            sqrt_price_a_x96@,
            sqrt_price_b_x96@,
            amount_0 as nat,
            amount_1 as nat,
        ) ==> r.is_none(),
{
    let (lo, hi) = if sqrt_price_a_x96.is_gt(sqrt_price_b_x96) {
        (sqrt_price_b_x96, sqrt_price_a_x96)
    } else {
        (sqrt_price_a_x96, sqrt_price_b_x96)
    };
    if sqrt_price_x96.is_le(lo) {
        checked_get_liquidity_for_amount_0(lo, hi, amount_0)
    } else if sqrt_price_x96.is_lt(hi) {
        let liquidity_0 = checked_get_liquidity_for_amount_0(sqrt_price_x96, hi, amount_0);
        let liquidity_1 = checked_get_liquidity_for_amount_1(lo, sqrt_price_x96, amount_1);
        match (liquidity_0, liquidity_1) {
            (Some(liquidity_0), Some(liquidity_1)) => Some(
                if liquidity_0 < liquidity_1 {
                    liquidity_0
                } else {
                    liquidity_1
                },
            ),
            _ => None,
        }
    } else {
        checked_get_liquidity_for_amount_1(lo, hi, amount_1)
    }
}

} // verus!
