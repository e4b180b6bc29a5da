use std::str::FromStr;
use zswap::liquidity_math::add_delta;
use zswap::liquidity_math::add_liquidity;
use zswap::liquidity_math::checked_add_delta;
use zswap::liquidity_math::checked_apply_net;
use zswap::liquidity_math::checked_get_liquidity_for_amounts;
use zswap::liquidity_math::get_liquidity_for_amount_0;
use zswap::liquidity_math::get_liquidity_for_amount_1;
use zswap::liquidity_math::get_liquidity_for_amounts;
use zswap::num256::U256;

fn dec(text: &str) -> U256 {
    let (hi, lo) = ethnum::U256::from_str(text).unwrap().into_words();
    U256::from_words(hi, lo)
}

#[test]
fn test_add_delta() {
    assert_eq!(add_delta(1, 0), 1);
    assert_eq!(add_delta(1, -1), 0);
    assert_eq!(add_delta(1, 1), 2);
    // 2**128-15 + 15 overflows
    assert_eq!(checked_add_delta(u128::MAX - 14, 15), None);
    // 0 + -1 underflows
    assert_eq!(checked_add_delta(0, -1), None);
    // 3 + -4 underflows
    assert_eq!(checked_add_delta(3, -4), None);
    assert_eq!(checked_add_delta(1, 0), Some(1));
    assert_eq!(checked_add_delta(1, -1), Some(0));
    assert_eq!(checked_add_delta(1, 1), Some(2));
    assert_eq!(checked_add_delta(u128::MAX - 15, 15), Some(u128::MAX));
}

#[test]
fn test_get_liquidity_for_amount_0() {
    // 1000 * (a * b / 2^96) / (b - a) for a = 2^96 and b = 2 * 2^96
    let a = U256::from_u128(1u128 << 96);
    let b = U256::from_u128(2u128 << 96);
    assert_eq!(get_liquidity_for_amount_0(a, b, 1000), 2000);
    assert_eq!(get_liquidity_for_amount_0(b, a, 1000), 2000);
}

#[test]
fn test_get_liquidity_for_amount_1() {
    // 1000 * 2^96 / (b - a) for a = 2^96 and b = 3 * 2^96
    let a = U256::from_u128(1u128 << 96);
    let b = U256::from_u128(3u128 << 96);
    assert_eq!(get_liquidity_for_amount_1(a, b, 1000), 500);
    assert_eq!(get_liquidity_for_amount_1(b, a, 1001), 500);
}

#[test]
fn test_get_liquidity_for_amounts() {
    let sqrt_price_x96 = dec("792281450588003167884250659085");
    let sqrt_price_a_x96 = dec("646922711029656030980122427077");
    let sqrt_price_b_x96 = dec("873241221460953509178849710283");
    let amount_0 = 1_000;
    let amount_1 = 100_000;
    let liquidity = get_liquidity_for_amounts(
        sqrt_price_x96,
        sqrt_price_a_x96,
        sqrt_price_b_x96,
        amount_0,
        amount_1,
    );
    assert_eq!(liquidity, 54505);
}

#[test]
fn liquidity_for_amounts_outside_the_range() {
    let a = U256::from_u128(1u128 << 96);
    let b = U256::from_u128(2u128 << 96);
    let below = U256::from_u128(1u128 << 95);
    let above = U256::from_u128(3u128 << 96);
    assert_eq!(get_liquidity_for_amounts(below, a, b, 1000, 7), 2000);
    assert_eq!(get_liquidity_for_amounts(above, a, b, 7, 1000), 1000);
}

#[test]
fn test_add_liquidity() {
    assert_eq!(add_liquidity(5, 3), 8);
    assert_eq!(add_liquidity(5, -3), 2);
    assert_eq!(add_liquidity(u128::MAX, i128::MIN), u128::MAX - (1u128 << 127));
}

#[test]
fn net_liquidity_is_added_or_taken_off() {
    assert_eq!(checked_apply_net(10, 4, false), Some(14));
    assert_eq!(checked_apply_net(10, 4, true), Some(6));
    assert_eq!(checked_apply_net(10, -4, true), Some(14));
    assert_eq!(checked_apply_net(10, 11, true), None);
    assert_eq!(checked_apply_net(0, i128::MIN, true), Some(1u128 << 127));
    assert_eq!(checked_apply_net(u128::MAX, i128::MIN, true), None);
}

#[test]
fn liquidity_for_amounts_at_the_ends_of_the_range() {
    let a = U256::from_u128(1u128 << 96);
    let b = U256::from_u128(2u128 << 96);
    // at the upper price only token1 counts
    assert_eq!(get_liquidity_for_amounts(b, a, b, 7, 1000), 1000);
    assert_eq!(checked_get_liquidity_for_amounts(b, a, b, 7, 1000), Some(1000));
    // at the lower price only token0 counts
    assert_eq!(get_liquidity_for_amounts(a, a, b, 1000, 7), 2000);
    assert_eq!(checked_get_liquidity_for_amounts(a, b, a, 1000, 7), Some(2000));
    // between equal prices there is no liquidity to speak of
    assert_eq!(checked_get_liquidity_for_amounts(a, a, a, 1000, 7), None);
}
