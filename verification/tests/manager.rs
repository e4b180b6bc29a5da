use zswap::manager::allowance_is_exceeded;
use zswap::manager::amounts_meet_minimum;
use zswap::manager::calculate_amount_0_with_amount_1;
use zswap::manager::calculate_amount_1_with_amount_0;
use zswap::manager::calculate_amount_out;
use zswap::manager::calculate_liquidity;
use zswap::manager::checked_calculate_amount_0_with_amount_1;
use zswap::manager::checked_calculate_amount_1_with_amount_0;
use zswap::manager::mint_is_funded;
use zswap::manager::tick_spacing_for_fee;
use zswap::num256::U256;

#[test]
fn test_calculate_amount_0_and_amount_1() {
    let sqrt_price_x96 = U256::from_u128(10 * (2_u128).pow(96));
    let lower_tick = 42000;
    let upper_tick = 48000;
    let amount_0 = 505327;
    let amount_1 = 100_000_111;

    let calculated_amount_1 =
        calculate_amount_1_with_amount_0(amount_0, sqrt_price_x96, lower_tick, upper_tick);
    assert_eq!(calculated_amount_1, amount_1);

    let calculated_amount_0 =
        calculate_amount_0_with_amount_1(amount_1, sqrt_price_x96, lower_tick, upper_tick);
    assert_eq!(calculated_amount_0, amount_0);
}

#[test]
fn amounts_outside_the_range_are_zero() {
    let sqrt_price_x96 = U256::from_u128(10 * (2_u128).pow(96));
    assert_eq!(calculate_amount_1_with_amount_0(1000, sqrt_price_x96, 48000, 49000), 0);
    assert_eq!(calculate_amount_0_with_amount_1(1000, sqrt_price_x96, 40000, 42000), 0);
}

#[test]
fn liquidity_for_desired_amounts() {
    let sqrt_price_x96 = U256::from_u128(10 * (2_u128).pow(96));
    let liquidity = calculate_liquidity(sqrt_price_x96, 42000, 48000, 1_000, 100_000);
    assert_eq!(liquidity, 54505);
}

#[test]
fn fee_tiers() {
    assert_eq!(tick_spacing_for_fee(500), Some(10));
    assert_eq!(tick_spacing_for_fee(3000), Some(60));
    assert_eq!(tick_spacing_for_fee(10000), Some(200));
    assert_eq!(tick_spacing_for_fee(0), None);
    assert_eq!(tick_spacing_for_fee(3001), None);
}

#[test]
fn checks_on_reported_amounts() {
    assert!(amounts_meet_minimum(5, 7, 5, 7));
    assert!(!amounts_meet_minimum(4, 7, 5, 7));
    assert!(!amounts_meet_minimum(5, 6, 5, 7));
    assert!(mint_is_funded(10, 0, 100, 50, 110, 0));
    assert!(!mint_is_funded(10, 0, 100, 50, 109, 50));
    assert!(!mint_is_funded(10, 1, 100, 50, 110, 50));
    assert!(!mint_is_funded(1, 0, u128::MAX, 0, u128::MAX, 0));
    assert!(!allowance_is_exceeded(0, 5, 1));
    assert!(!allowance_is_exceeded(3, 5, 5));
    assert!(allowance_is_exceeded(3, 5, 4));
    assert!(allowance_is_exceeded(6, 5, 9));
    assert_eq!(calculate_amount_out([777, -7654], true), 7654);
    assert_eq!(calculate_amount_out([-12, 500], false), 12);
}

#[test]
fn paired_amounts_at_the_ends_of_the_range() {
    let lower = zswap::tick_math::get_sqrt_ratio_at_tick(42000);
    let upper = zswap::tick_math::get_sqrt_ratio_at_tick(48000);
    // at the upper price a position holds no token0
    assert_eq!(calculate_amount_1_with_amount_0(1000, upper, 42000, 48000), 0);
    assert_eq!(checked_calculate_amount_1_with_amount_0(1000, upper, 42000, 48000), Some(0));
    // at the lower price a position holds no token1
    assert_eq!(calculate_amount_0_with_amount_1(1000, lower, 42000, 48000), 0);
    assert_eq!(checked_calculate_amount_0_with_amount_1(1000, lower, 42000, 48000), Some(0));
    // at the other end each amount goes with none of the other token
    assert_eq!(checked_calculate_amount_1_with_amount_0(1000, lower, 42000, 48000), Some(0));
    assert_eq!(checked_calculate_amount_0_with_amount_1(1000, upper, 42000, 48000), Some(0));
    // ticks out of range
    assert_eq!(checked_calculate_amount_1_with_amount_0(1000, lower, -887273, 48000), None);
}
