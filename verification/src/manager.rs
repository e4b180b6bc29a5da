//! What the position manager and the factory compute around a pool: the fee
//! tiers, the liquidity that desired amounts provide, the amount of one
//! token that goes with an amount of the other, and the checks on the
//! amounts that a pool reports.

use vstd::prelude::*;
use crate::num256::two_128;
use crate::num160::U160;
use crate::tick_math::MIN_TICK;
use crate::tick_math::MAX_TICK;
use crate::tick_math::sqrt_ratio_at_tick;
use crate::tick_math::get_sqrt_ratio_at_tick;
use crate::liquidity_math::amounts_defined;
use crate::liquidity_math::amount_0_defined;
use crate::liquidity_math::amount_1_defined;
use crate::liquidity_math::liquidity_for_amounts;
use crate::liquidity_math::liquidity_for_amount_0;
use crate::liquidity_math::liquidity_for_amount_1;
use crate::liquidity_math::get_liquidity_for_amounts;
use crate::liquidity_math::get_liquidity_for_amount_0;
use crate::liquidity_math::get_liquidity_for_amount_1;
use crate::sqrt_price_math::amount0_delta;
use crate::sqrt_price_math::amount1_delta;
use crate::sqrt_price_math::get_amount0_delta;
use crate::sqrt_price_math::get_amount1_delta;
use crate::sqrt_price_math::lemma_amount1_bound;

verus! {

/// The tick spacing of a fee tier: 10 for a fee of 500 millionths, 60 for
/// 3000 and 200 for 10000. Other fees have no tier.
pub fn tick_spacing_for_fee(fee: u32) -> (r: Option<u32>)
    ensures
        fee == 500 ==> r == Some(10u32),
        fee == 3000 ==> r == Some(60u32),
        fee == 10000 ==> r == Some(200u32),
        fee != 500 && fee != 3000 && fee != 10000 ==> r.is_none(),
{
    if fee == 500 {
        Some(10)
    } else if fee == 3000 {
        Some(60)
    } else if fee == 10000 {
        Some(200)
    } else {
        None
    }
}

/// The liquidity that the two amounts provide over a tick range at a price.
/// The ticks must lie between the lowest and the highest tick, and the
/// liquidity must be defined for the prices at the ticks.
pub fn calculate_liquidity(
    sqrt_price_x96: U160,
    lower_tick: i32,
    upper_tick: i32,
    amount_0: u128,
    amount_1: u128,
) -> (r: u128)
    requires
        MIN_TICK <= lower_tick <= MAX_TICK,
        MIN_TICK <= upper_tick <= MAX_TICK,
        amounts_defined(
            sqrt_price_x96@,
            sqrt_ratio_at_tick(lower_tick as int),
            sqrt_ratio_at_tick(upper_tick as int),
            amount_0 as nat,
            amount_1 as nat,
        ),
    ensures
        r == liquidity_for_amounts(
            sqrt_price_x96@,
            sqrt_ratio_at_tick(lower_tick as int),
            sqrt_ratio_at_tick(upper_tick as int),
            amount_0 as nat,
            amount_1 as nat,
        ),
{
    get_liquidity_for_amounts(
        sqrt_price_x96,
        get_sqrt_ratio_at_tick(lower_tick),
        get_sqrt_ratio_at_tick(upper_tick),
        amount_0,
        amount_1,
    )
}

/// The amount of token1 that goes with `amount_0` of token0 in a position
/// over a range of prices at the price `price`: what the liquidity that
/// `amount_0` provides between `price` and `upper` takes of token1 between
/// `lower` and `price`; 0 where the price lies outside the range or at its
/// upper end, where a position holds no token0.
pub open spec fn amount_1_for_amount_0(amount_0: nat, price: nat, lower: nat, upper: nat) -> nat {
    if lower <= price < upper {
        amount1_delta(lower, price, liquidity_for_amount_0(price, upper, amount_0), true)
    } else {
        0
    }
}

/// The amount of token0 that goes with `amount_1` of token1 in a position
/// over a range of prices at the price `price`; 0 where the price lies
/// outside the range or at its lower end, where a position holds no token1.
pub open spec fn amount_0_for_amount_1(amount_1: nat, price: nat, lower: nat, upper: nat) -> nat {
    if lower < price <= upper {
        amount0_delta(price, upper, liquidity_for_amount_1(lower, price, amount_1), true)
    } else {
        0
    }
}

/// The amount of token1 that goes with `amount_0` of token0 in a position
/// over a tick range at a price. At a price in the range and below its upper
/// end the liquidity must be defined and fit in a signed 128-bit number, and
/// the amount must fit in 128 bits.
pub fn calculate_amount_1_with_amount_0(
    amount_0: u128,
    sqrt_price_x96: U160,
    lower_tick: i32,
    upper_tick: i32,
) -> (r: u128)
    requires
        MIN_TICK <= lower_tick <= MAX_TICK,
        MIN_TICK <= upper_tick <= MAX_TICK,
        sqrt_ratio_at_tick(lower_tick as int) <= sqrt_price_x96@ < sqrt_ratio_at_tick(
            upper_tick as int,
        ) ==> amount_0_defined(
            sqrt_price_x96@,
            sqrt_ratio_at_tick(upper_tick as int),
            amount_0 as nat,
        ) && liquidity_for_amount_0(
            sqrt_price_x96@,
            sqrt_ratio_at_tick(upper_tick as int),
            amount_0 as nat,
        ) <= i128::MAX && amount_1_for_amount_0(
            amount_0 as nat,
            sqrt_price_x96@,
            sqrt_ratio_at_tick(lower_tick as int),
            sqrt_ratio_at_tick(upper_tick as int),
        ) <= u128::MAX,
    ensures
        r == amount_1_for_amount_0(
            amount_0 as nat,
            sqrt_price_x96@,
            sqrt_ratio_at_tick(lower_tick as int),
            sqrt_ratio_at_tick(upper_tick as int),
        ),
{
    let lower = get_sqrt_ratio_at_tick(lower_tick);
    let upper = get_sqrt_ratio_at_tick(upper_tick);
    if sqrt_price_x96.is_lt(lower) || sqrt_price_x96.is_ge(upper) {
        return 0;
    }
    let liquidity = get_liquidity_for_amount_0(sqrt_price_x96, upper, amount_0);
    proof {
        crate::num256::lemma_two_256_pos();
    }
    let amount = get_amount1_delta(lower, sqrt_price_x96, liquidity, true);
    proof {
        vstd::arithmetic::div_mod::lemma_small_mod(amount@, two_128());
    }
    amount.low_u128()
}

/// The amount of token0 that goes with `amount_1` of token1 in a position
/// over a tick range at a price. At a price in the range and above its lower
/// end the liquidity must be defined and fit in a signed 128-bit number, and
/// the amount must fit in 128 bits.
pub fn calculate_amount_0_with_amount_1(
    amount_1: u128,
    sqrt_price_x96: U160,
    lower_tick: i32,
    upper_tick: i32,
) -> (r: u128)
    requires
        MIN_TICK <= lower_tick <= MAX_TICK,
        MIN_TICK <= upper_tick <= MAX_TICK,
        sqrt_ratio_at_tick(lower_tick as int) < sqrt_price_x96@ <= sqrt_ratio_at_tick(
            upper_tick as int,
        ) ==> amount_1_defined(
            sqrt_ratio_at_tick(lower_tick as int),
            sqrt_price_x96@,
            amount_1 as nat,
        ) && liquidity_for_amount_1(
            sqrt_ratio_at_tick(lower_tick as int),
            sqrt_price_x96@,
            amount_1 as nat,
        ) <= i128::MAX && amount_0_for_amount_1(
            amount_1 as nat,
            sqrt_price_x96@,
            sqrt_ratio_at_tick(lower_tick as int),
            sqrt_ratio_at_tick(upper_tick as int),
        ) <= u128::MAX,
    ensures
        r == amount_0_for_amount_1(
            amount_1 as nat,
            sqrt_price_x96@,
            sqrt_ratio_at_tick(lower_tick as int),
            sqrt_ratio_at_tick(upper_tick as int),
        ),
{
    let lower = get_sqrt_ratio_at_tick(lower_tick);
    let upper = get_sqrt_ratio_at_tick(upper_tick);
    if sqrt_price_x96.is_le(lower) || sqrt_price_x96.is_gt(upper) {
        return 0;
    }
    let liquidity = get_liquidity_for_amount_1(lower, sqrt_price_x96, amount_1);
    let amount = get_amount0_delta(sqrt_price_x96, upper, liquidity, true);
    proof {
        vstd::arithmetic::div_mod::lemma_small_mod(amount@, two_128());
    }
    amount.low_u128()
}

/// Whether `calculate_amount_1_with_amount_0` is defined: the ticks lie
/// between the lowest and the highest tick, and, at a price in the range and
/// below its upper end, the liquidity is defined and fits a signed 128-bit
/// number, and the amount fits in 128 bits.
pub open spec fn amount_1_is_defined(amount_0: nat, price: nat, lower_tick: int, upper_tick: int)
    -> bool {
    let lower = sqrt_ratio_at_tick(lower_tick);
    let upper = sqrt_ratio_at_tick(upper_tick);
    &&& MIN_TICK <= lower_tick <= MAX_TICK
    &&& MIN_TICK <= upper_tick <= MAX_TICK
    &&& lower <= price < upper ==> amount_0_defined(price, upper, amount_0)
        && liquidity_for_amount_0(price, upper, amount_0) <= i128::MAX && amount_1_for_amount_0(
        amount_0,
        price,
        lower,
        upper,
    ) <= u128::MAX
}

/// Whether `calculate_amount_0_with_amount_1` is defined.
pub open spec fn amount_0_is_defined(amount_1: nat, price: nat, lower_tick: int, upper_tick: int)
    -> bool {
    let lower = sqrt_ratio_at_tick(lower_tick);
    let upper = sqrt_ratio_at_tick(upper_tick);
    &&& MIN_TICK <= lower_tick <= MAX_TICK
    &&& MIN_TICK <= upper_tick <= MAX_TICK
    &&& lower < price <= upper ==> amount_1_defined(lower, price, amount_1)
        && liquidity_for_amount_1(lower, price, amount_1) <= i128::MAX && amount_0_for_amount_1(
        amount_1,
        price,
        lower,
        upper,
    ) <= u128::MAX
}

/// The amount of token1 that goes with `amount_0` of token0 in a position
/// over a tick range at a price, or `None` where it is not defined.
pub fn checked_calculate_amount_1_with_amount_0(
    amount_0: u128,
    sqrt_price_x96: U160,
    lower_tick: i32,
    upper_tick: i32,
) -> (r: Option<u128>)
    ensures
        amount_1_is_defined(
            amount_0 as nat,
            sqrt_price_x96@,
            lower_tick as int,
            upper_tick as int,
        ) ==> r == Some(
            amount_1_for_amount_0(
                amount_0 as nat,
                sqrt_price_x96@,
                sqrt_ratio_at_tick(lower_tick as int),
                sqrt_ratio_at_tick(upper_tick as int),
            ) as u128,
        ),
        !amount_1_is_defined(
            amount_0 as nat,
            sqrt_price_x96@,
            lower_tick as int,
            upper_tick as int,
        ) ==> r.is_none(),
{
    if lower_tick < MIN_TICK || lower_tick > MAX_TICK || upper_tick < MIN_TICK || upper_tick
        > MAX_TICK {
        return None;
    }
    let lower = get_sqrt_ratio_at_tick(lower_tick);
    let upper = get_sqrt_ratio_at_tick(upper_tick);
    if sqrt_price_x96.is_lt(lower) || sqrt_price_x96.is_ge(upper) {
        return Some(0);
    }
    let liquidity = match crate::liquidity_math::checked_get_liquidity_for_amount_0(
        sqrt_price_x96,
        upper,
        amount_0,
    ) {
        Some(liquidity) => liquidity,
        None => {
            return None;
        },
    };
    if liquidity > i128::MAX as u128 {
        return None;
    }
    proof {
        crate::tick_order::lemma_sqrt_ratio_in_range(upper_tick as int);
        lemma_amount1_bound(lower@, sqrt_price_x96@, liquidity as nat, true);
    }
    let amount = get_amount1_delta(lower, sqrt_price_x96, liquidity, true);
    if amount.fits_u128() {
        proof {
            vstd::arithmetic::div_mod::lemma_small_mod(amount@, two_128());
        }
        Some(amount.low_u128())
    } else {
        None
    }
}

/// The amount of token0 that goes with `amount_1` of token1 in a position
/// over a tick range at a price, or `None` where it is not defined.
pub fn checked_calculate_amount_0_with_amount_1(
    amount_1: u128,
    sqrt_price_x96: U160,
    lower_tick: i32,
    upper_tick: i32,
) -> (r: Option<u128>)
    ensures
        amount_0_is_defined(
            amount_1 as nat,
            sqrt_price_x96@,
            lower_tick as int,
            upper_tick as int,
        ) ==> r == Some(
            amount_0_for_amount_1(
                amount_1 as nat,
                sqrt_price_x96@,
                sqrt_ratio_at_tick(lower_tick as int),
                sqrt_ratio_at_tick(upper_tick as int),
            ) as u128,
        ),
        !amount_0_is_defined(
            amount_1 as nat,
            sqrt_price_x96@,
            lower_tick as int,
            upper_tick as int,
        ) ==> r.is_none(),
{
    if lower_tick < MIN_TICK || lower_tick > MAX_TICK || upper_tick < MIN_TICK || upper_tick
        > MAX_TICK {
        return None;
    }
    let lower = get_sqrt_ratio_at_tick(lower_tick);
    let upper = get_sqrt_ratio_at_tick(upper_tick);
    if sqrt_price_x96.is_le(lower) || sqrt_price_x96.is_gt(upper) {
        return Some(0);
    }
    let liquidity = match crate::liquidity_math::checked_get_liquidity_for_amount_1(
        lower,
        sqrt_price_x96,
        amount_1,
    ) {
        Some(liquidity) => liquidity,
        None => {
            return None;
        },
    };
    if liquidity > i128::MAX as u128 {
        return None;
    }
    let amount = get_amount0_delta(sqrt_price_x96, upper, liquidity, true);
    if amount.fits_u128() {
        proof {
            vstd::arithmetic::div_mod::lemma_small_mod(amount@, two_128());
        }
        Some(amount.low_u128())
    } else {
        None
    }
}

/// The liquidity that the two amounts provide over a tick range at a price,
/// or `None` where a tick lies outside the range of ticks or the liquidity
/// is not defined.
pub fn checked_calculate_liquidity(
    sqrt_price_x96: U160,
    lower_tick: i32,
    upper_tick: i32,
    amount_0: u128,
    amount_1: u128,
) -> (r: Option<u128>)
    ensures
        MIN_TICK <= lower_tick <= MAX_TICK && MIN_TICK <= upper_tick <= MAX_TICK
            && amounts_defined(
            sqrt_price_x96@,
            sqrt_ratio_at_tick(lower_tick as int),
            sqrt_ratio_at_tick(upper_tick as int),
            amount_0 as nat,
            amount_1 as nat,
        ) ==> r == Some(
            liquidity_for_amounts(
                sqrt_price_x96@,
                sqrt_ratio_at_tick(lower_tick as int),
                sqrt_ratio_at_tick(upper_tick as int),
                amount_0 as nat,
                amount_1 as nat,
            ) as u128,
        ),
        !(MIN_TICK <= lower_tick <= MAX_TICK && MIN_TICK <= upper_tick <= MAX_TICK
            && amounts_defined(
            sqrt_price_x96@,
            sqrt_ratio_at_tick(lower_tick as int),
            sqrt_ratio_at_tick(upper_tick as int),
            amount_0 as nat,
            amount_1 as nat,
        )) ==> r.is_none(),
{
    if lower_tick < MIN_TICK || lower_tick > MAX_TICK || upper_tick < MIN_TICK || upper_tick
        > MAX_TICK {
        return None;
    }
    crate::liquidity_math::checked_get_liquidity_for_amounts(
        sqrt_price_x96,
        get_sqrt_ratio_at_tick(lower_tick),
        get_sqrt_ratio_at_tick(upper_tick),
        amount_0,
        amount_1,
    )
}

/// The amount that a swap gave, from the signed amounts of the two tokens
/// that it took: the amount of token1 for a swap of token0 for token1, that
/// of token0 for the other direction. The amount given is negative among the
/// amounts taken.
pub fn calculate_amount_out(amounts: [i128; 2], zero_for_one: bool) -> (r: u128)
    requires
        zero_for_one ==> i128::MIN < amounts[1] <= 0,
        !zero_for_one ==> i128::MIN < amounts[0] <= 0,
    ensures
        zero_for_one ==> r == -amounts[1],
        !zero_for_one ==> r == -amounts[0],
{
    if zero_for_one {
        (-amounts[1]) as u128
    } else {
        (-amounts[0]) as u128
    }
}

/// Whether the amounts that a mint used meet the least amounts asked for.
pub fn amounts_meet_minimum(amount_0: u128, amount_1: u128, amount_0_min: u128, amount_1_min: u128)
    -> (r: bool)
    ensures
        r == (amount_0 >= amount_0_min && amount_1 >= amount_1_min),
{
    !(amount_0 < amount_0_min || amount_1 < amount_1_min)
}

/// Whether a spender may not collect `amount` of an owner's deposit: the
/// amount is not zero and the allowance exceeds the deposit or falls short
/// of the amount.
pub fn allowance_is_exceeded(amount: u128, approved_amount: u128, deposited_amount: u128) -> (r:
    bool)
    ensures
        r == (amount != 0 && (approved_amount > deposited_amount || approved_amount < amount)),
        !r ==> amount <= deposited_amount,
{
    amount != 0 && (approved_amount > deposited_amount || approved_amount < amount)
}

/// Whether the balances of the pool show that the amounts of a mint have
/// arrived: for each token of which the mint takes an amount, the balance
/// after is at least the balance before and the amount.
pub fn mint_is_funded(
    amount_0: u128,
    amount_1: u128,
    balance_0_before: u128,
    balance_1_before: u128,
    balance_0_after: u128,
    balance_1_after: u128,
) -> (r: bool)
    ensures
        r == ((amount_0 > 0 ==> balance_0_before + amount_0 <= balance_0_after) && (amount_1 > 0
            ==> balance_1_before + amount_1 <= balance_1_after)),
{
    let funded_0 = amount_0 == 0 || match balance_0_before.checked_add(amount_0) {
        Some(needed) => needed <= balance_0_after,
        None => false,
    };
    let funded_1 = amount_1 == 0 || match balance_1_before.checked_add(amount_1) {
        Some(needed) => needed <= balance_1_after,
        None => false,
    };
    funded_0 && funded_1
}

} // verus!
