use zswap::num256::U256;
use zswap::position::PositionInfo;

fn n(value: u128) -> U256 {
    U256::from_u128(value)
}

#[test]
fn position_test_update() {
    let mut position = PositionInfo::default();
    assert!(!position.can_update(0));
    assert!(position.can_update(5));
    assert!(!position.can_update(-1));

    // the first liquidity earns nothing
    position.update(1000, n(7), n(9));
    assert_eq!(position.liquidity, 1000);
    assert_eq!(position.tokens_owed_0, 0);
    assert_eq!(position.tokens_owed_1, 0);
    assert_eq!(position.fee_growth_inside_0_last_x128, n(7));
    assert_eq!(position.fee_growth_inside_1_last_x128, n(9));

    // a growth of 2^128 per unit of liquidity gives one token per unit
    let one = U256::from_words(1, 0);
    position.update(-400, n(7).wrapping_add(one), n(9).wrapping_add(one.wrapping_add(one)));
    assert_eq!(position.liquidity, 600);
    assert_eq!(position.tokens_owed_0, 1000);
    assert_eq!(position.tokens_owed_1, 2000);
}

#[test]
fn collecting_fees_twice_adds_nothing() {
    let mut position = PositionInfo::default();
    position.update(1000, n(0), n(0));
    let growth_0 = U256::from_words(3, 5);
    let growth_1 = U256::from_words(4, 6);
    position.update(0, growth_0, growth_1);
    let once = position;
    assert_eq!(once.tokens_owed_0, 3000);
    assert_eq!(once.tokens_owed_1, 4000);
    position.update(0, growth_0, growth_1);
    assert_eq!(position.tokens_owed_0, once.tokens_owed_0);
    assert_eq!(position.tokens_owed_1, once.tokens_owed_1);
    assert_eq!(position.liquidity, once.liquidity);
}

#[test]
fn fee_growth_wraps_around() {
    let mut position = PositionInfo::default();
    position.update(10, U256::max_value(), n(0));
    // from 2^256 - 1 to 2^128 - 1 the growth is 2^128, modulo 2^256
    position.update(0, n(u128::MAX), n(0));
    assert_eq!(position.tokens_owed_0, 10);
    assert_eq!(position.tokens_owed_1, 0);
}
