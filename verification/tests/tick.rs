use zswap::num256::U256;
use zswap::tick::cross;
use zswap::tick::get_fee_growth_inside;
use zswap::tick::tick_spacing_to_max_liquidity_per_tick;
use zswap::tick::TickInfo;

fn n(value: u128) -> U256 {
    U256::from_u128(value)
}

fn outside(fee_growth_outside_0: U256, fee_growth_outside_1: U256) -> TickInfo {
    TickInfo {
        fee_growth_outside_0_x128: fee_growth_outside_0,
        fee_growth_outside_1_x128: fee_growth_outside_1,
        liquidity_gross: 0,
        liquidity_net: 0,
        seconds_per_liquidity_outside_x128: U256::zero(),
        tick_cumulative_outside: 0,
        seconds_outside: 0,
        initialized: true,
    }
}

#[test]
fn test_tick_spacing_to_max_liquidity_per_tick() {
    let expected_values: [(i32, u128); 5] = [
        (10, 1917569901783203986719870431555990),
        (60, 11505743598341114571880798222544994),
        (200, 38350317471085141830651933667504588),
        (887272, u128::MAX / 3),
        (2302, 441351967472034323558203122479595605),
    ];
    for (tick_spacing, expected) in expected_values.iter() {
        assert_eq!(tick_spacing_to_max_liquidity_per_tick(*tick_spacing), *expected);
    }
}

#[test]
fn test_fee_growth_inside_uninitialized_ticks_above() {
    {
        // returns all for two uninitialized ticks if tick is inside
        let [inside_0, inside_1] = get_fee_growth_inside(
            -2,
            2,
            &TickInfo::default(),
            &TickInfo::default(),
            0,
            n(15),
            n(15),
        );
        assert_eq!(inside_0, n(15));
        assert_eq!(inside_1, n(15));
    }
    {
        // returns 0 for two uninitialized ticks if tick is above
        let [inside_0, inside_1] = get_fee_growth_inside(
            -2,
            2,
            &TickInfo::default(),
            &TickInfo::default(),
            4,
            n(15),
            n(15),
        );
        assert_eq!(inside_0, U256::zero());
        assert_eq!(inside_1, U256::zero());
    }
    {
        // returns 0 for two uninitialized ticks if tick is below
        let [inside_0, inside_1] = get_fee_growth_inside(
            -2,
            2,
            &TickInfo::default(),
            &TickInfo::default(),
            -4,
            n(15),
            n(15),
        );
        assert_eq!(inside_0, U256::zero());
        assert_eq!(inside_1, U256::zero());
    }
    {
        // subtracts upper tick if below
        let lower = TickInfo::default();
        let upper = outside(n(2), n(3));
        let [inside_0, inside_1] = get_fee_growth_inside(-2, 2, &lower, &upper, 0, n(15), n(15));
        assert_eq!(inside_0, n(13));
        assert_eq!(inside_1, n(12));
    }
    {
        // subtracts lower tick if above
        let upper = TickInfo::default();
        let lower = outside(n(2), n(3));
        let [inside_0, inside_1] = get_fee_growth_inside(-2, 2, &lower, &upper, 0, n(15), n(15));
        assert_eq!(inside_0, n(13));
        assert_eq!(inside_1, n(12));
    }
    {
        // subtracts upper and lower tick if inside
        let lower = outside(n(2), n(3));
        let upper = outside(n(4), n(1));
        let [inside_0, inside_1] = get_fee_growth_inside(-2, 2, &lower, &upper, 0, n(15), n(15));
        assert_eq!(inside_0, n(9));
        assert_eq!(inside_1, n(11));
    }
    {
        // works correctly with overflow on inside tick
        let lower = outside(
            U256::max_value().wrapping_sub(n(3)),
            U256::max_value().wrapping_sub(n(2)),
        );
        let upper = outside(n(3), n(5));
        let [inside_0, inside_1] = get_fee_growth_inside(-2, 2, &lower, &upper, 0, n(15), n(15));
        assert_eq!(inside_0, n(16));
        assert_eq!(inside_1, n(13));
    }
}

#[test]
fn test_cross() {
    {
        // flips the growth variables
        let mut tick = TickInfo {
            fee_growth_outside_0_x128: n(1),
            fee_growth_outside_1_x128: n(2),
            liquidity_gross: 3,
            liquidity_net: 4,
            seconds_per_liquidity_outside_x128: n(5),
            tick_cumulative_outside: 6,
            seconds_outside: 7,
            initialized: true,
        };
        let net = cross(&mut tick, n(7), n(9), n(8), 15, 10);
        assert_eq!(net, 4);
        assert_eq!(tick.fee_growth_outside_0_x128, n(6));
        assert_eq!(tick.fee_growth_outside_1_x128, n(7));
        assert_eq!(tick.seconds_per_liquidity_outside_x128, n(3));
        assert_eq!(tick.tick_cumulative_outside, 9);
        assert_eq!(tick.seconds_outside, 3);
    }
    {
        // two flips are no op
        let mut tick = TickInfo {
            fee_growth_outside_0_x128: n(1),
            fee_growth_outside_1_x128: n(2),
            liquidity_gross: 3,
            liquidity_net: 4,
            seconds_per_liquidity_outside_x128: n(5),
            tick_cumulative_outside: 6,
            seconds_outside: 7,
            initialized: true,
        };
        cross(&mut tick, n(7), n(9), n(8), 15, 10);
        cross(&mut tick, n(7), n(9), n(8), 15, 10);
        assert_eq!(tick.fee_growth_outside_0_x128, n(1));
        assert_eq!(tick.fee_growth_outside_1_x128, n(2));
        assert_eq!(tick.seconds_per_liquidity_outside_x128, n(5));
        assert_eq!(tick.tick_cumulative_outside, 6);
        assert_eq!(tick.seconds_outside, 7);
    }
}

#[test]
fn tick_test_update() {
    let max = tick_spacing_to_max_liquidity_per_tick(60);
    // the first liquidity at a tick at or below the current tick
    let mut tick = TickInfo::default();
    assert!(tick.can_update(10, false, max));
    let flipped = tick.update(0, 0, 10, n(100), n(200), false, max);
    assert!(flipped);
    assert!(tick.initialized);
    assert_eq!(tick.liquidity_gross, 10);
    assert_eq!(tick.liquidity_net, 10);
    assert_eq!(tick.fee_growth_outside_0_x128, n(100));
    assert_eq!(tick.fee_growth_outside_1_x128, n(200));
    // more liquidity does not flip the tick and leaves the growth
    let flipped = tick.update(0, 0, 5, n(300), n(400), true, max);
    assert!(!flipped);
    assert_eq!(tick.liquidity_gross, 15);
    assert_eq!(tick.liquidity_net, 5);
    assert_eq!(tick.fee_growth_outside_0_x128, n(100));
    // the first liquidity at a tick above the current tick
    let mut above = TickInfo::default();
    let flipped = above.update(60, 0, 7, n(100), n(200), true, max);
    assert!(flipped);
    assert_eq!(above.liquidity_net, -7);
    assert_eq!(above.fee_growth_outside_0_x128, n(0));
    assert_eq!(above.fee_growth_outside_1_x128, n(0));
    // more than a tick may hold
    assert!(!TickInfo::default().can_update(i128::MAX, false, max));
    assert!(TickInfo::default().can_update(max as i128, false, max));
    assert!(!above.can_update(max as i128, false, max));
    // less than nothing
    assert!(!above.can_update(-8, true, max));
}

#[test]
fn test_clear() {
    let max = tick_spacing_to_max_liquidity_per_tick(10);
    let mut tick = TickInfo::default();
    tick.update(10, 0, 9, n(1), n(2), false, max);
    // taking all liquidity off flips the tick back
    let flipped = tick.update(10, 0, -9, n(3), n(4), false, max);
    assert!(flipped);
    assert_eq!(tick.liquidity_gross, 0);
    assert_eq!(tick.liquidity_net, 0);
    // and leaves nothing of it
    assert!(!tick.initialized);
    assert_eq!(tick.fee_growth_outside_0_x128, n(0));
    assert_eq!(tick.fee_growth_outside_1_x128, n(0));
    assert_eq!(tick.seconds_outside, 0);
    assert_eq!(tick.tick_cumulative_outside, 0);
    // a tick at or below the current one, with fee growth outside
    let mut below = TickInfo::default();
    below.update(-10, 0, 9, n(1), n(2), true, max);
    assert_eq!(below.fee_growth_outside_0_x128, n(1));
    assert_eq!(below.fee_growth_outside_1_x128, n(2));
    assert!(below.update(-10, 0, -9, n(3), n(4), true, max));
    assert!(!below.initialized);
    assert_eq!(below.fee_growth_outside_0_x128, n(0));
    assert_eq!(below.fee_growth_outside_1_x128, n(0));
    // liquidity that comes back starts anew
    assert!(below.update(-10, 0, 4, n(5), n(6), true, max));
    assert!(below.initialized);
    assert_eq!(below.liquidity_net, -4);
    assert_eq!(below.fee_growth_outside_0_x128, n(5));
    assert_eq!(below.fee_growth_outside_1_x128, n(6));
}
