use std::str::FromStr;
use zswap::num256::U256;
use zswap::tick_math::checked_get_sqrt_ratio_at_tick;
use zswap::tick_math::checked_get_tick_at_sqrt_ratio;
use zswap::tick_math::get_sqrt_ratio_at_tick;
use zswap::tick_math::get_tick_at_sqrt_ratio;
use zswap::tick_math::TickConstants;

fn dec(text: &str) -> U256 {
    let (hi, lo) = ethnum::U256::from_str(text).unwrap().into_words();
    U256::from_words(hi, lo)
}

#[test]
fn test_get_sqrt_ratio_at_tick() {
    // refused for too low
    assert_eq!(checked_get_sqrt_ratio_at_tick(TickConstants::MIN_TICK - 1), None);
    // refused for too high
    assert_eq!(checked_get_sqrt_ratio_at_tick(TickConstants::MAX_TICK + 1), None);
    assert_eq!(
        checked_get_sqrt_ratio_at_tick(TickConstants::MIN_TICK),
        Some(U256::from_u128(4295128739))
    );
    assert_eq!(get_sqrt_ratio_at_tick(TickConstants::MIN_TICK), U256::from_u128(4295128739));
    assert_eq!(get_sqrt_ratio_at_tick(TickConstants::MIN_TICK + 1), U256::from_u128(4295343490));
    assert_eq!(
        get_sqrt_ratio_at_tick(TickConstants::MAX_TICK - 1),
        dec("1461373636630004318706518188784493106690254656249")
    );
    assert_eq!(
        get_sqrt_ratio_at_tick(TickConstants::MAX_TICK),
        dec("1461446703485210103287273052203988822378723970342")
    );
    assert_eq!(get_sqrt_ratio_at_tick(TickConstants::MIN_TICK), TickConstants::min_sqrt_ratio());
    assert_eq!(get_sqrt_ratio_at_tick(TickConstants::MAX_TICK), TickConstants::max_sqrt_ratio());
}

#[test]
fn test_get_tick_at_sqrt_ratio() {
    // refused for too low
    assert_eq!(
        checked_get_tick_at_sqrt_ratio(
            TickConstants::min_sqrt_ratio().checked_sub(U256::one()).unwrap()
        ),
        None
    );
    // refused for too high
    assert_eq!(checked_get_tick_at_sqrt_ratio(TickConstants::max_sqrt_ratio()), None);
    assert_eq!(
        checked_get_tick_at_sqrt_ratio(TickConstants::min_sqrt_ratio()),
        Some(TickConstants::MIN_TICK)
    );
    assert_eq!(get_tick_at_sqrt_ratio(TickConstants::min_sqrt_ratio()), TickConstants::MIN_TICK);
    assert_eq!(get_tick_at_sqrt_ratio(dec("4295343490")), TickConstants::MIN_TICK + 1);
    assert_eq!(
        get_tick_at_sqrt_ratio(dec("1461373636630004318706518188784493106690254656249")),
        TickConstants::MAX_TICK - 1
    );
    assert_eq!(
        get_tick_at_sqrt_ratio(
            TickConstants::max_sqrt_ratio().checked_sub(U256::one()).unwrap()
        ),
        TickConstants::MAX_TICK - 1
    );
}

#[test]
fn test_tick_math() {
    let price = dec("5602223755577321903022134995689");
    assert_eq!(get_tick_at_sqrt_ratio(price), 85176);
    assert_eq!(get_sqrt_ratio_at_tick(85176), price);
    assert!(price.is_lt(get_sqrt_ratio_at_tick(85177)));
}

#[test]
fn sqrt_ratio_at_tick_zero_is_one() {
    assert_eq!(get_sqrt_ratio_at_tick(0), U256::from_words(0, 1u128 << 96));
}

#[test]
fn tick_round_trip_on_a_sample() {
    let mut tick: i32 = TickConstants::MIN_TICK;
    while tick < TickConstants::MAX_TICK {
        assert_eq!(get_tick_at_sqrt_ratio(get_sqrt_ratio_at_tick(tick)), tick);
        tick += 7919;
    }
}

#[test]
fn sqrt_ratio_increases_on_a_sample() {
    let mut tick: i32 = TickConstants::MIN_TICK;
    while tick < TickConstants::MAX_TICK {
        assert!(get_sqrt_ratio_at_tick(tick).is_lt(get_sqrt_ratio_at_tick(tick + 1)));
        tick += 4099;
    }
}
