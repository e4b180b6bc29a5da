use zswap::manager::calculate_liquidity;
use zswap::num256::U256;
use zswap::pool::Pool;
use zswap::pool::PoolError;
use zswap::pool::PositionKey;
use zswap::tick_math::get_sqrt_ratio_at_tick;
use zswap::tick_math::get_tick_at_sqrt_ratio;
use zswap::tick_math::TickConstants;

fn owner(id: u128) -> U256 {
    U256::from_u128(id)
}

fn price_of_100() -> U256 {
    U256::from_u128(10 * (2_u128).pow(96))
}

fn pool_at_100(tick_spacing: u32, fee: u32) -> Pool {
    let mut pool = Pool::new(tick_spacing, fee);
    assert_eq!(pool.initialize(price_of_100()), Ok(()));
    pool
}

#[test]
fn initialize_once() {
    let mut pool = Pool::new(60, 3000);
    assert_eq!(pool.get_slot_0().sqrt_price_x96, U256::zero());
    assert_eq!(pool.mint(owner(1), 42000, 48000, 10), Err(PoolError::NotInitialized));
    assert_eq!(pool.swap(true, 10, None), Err(PoolError::NotInitialized));
    assert_eq!(
        pool.initialize(U256::from_u128(4295128738)),
        Err(PoolError::SqrtRatioOutOfRange)
    );
    assert_eq!(
        pool.initialize(TickConstants::max_sqrt_ratio()),
        Err(PoolError::SqrtRatioOutOfRange)
    );
    assert_eq!(pool.initialize(price_of_100()), Ok(()));
    assert_eq!(pool.get_slot_0().sqrt_price_x96, price_of_100());
    assert_eq!(pool.get_slot_0().tick, 46054);
    assert_eq!(pool.get_slot_0().tick, get_tick_at_sqrt_ratio(price_of_100()));
    assert_eq!(pool.initialize(price_of_100()), Err(PoolError::AlreadyInitialized));
}

#[test]
fn mint_in_range_leaves_the_price() {
    let mut pool = pool_at_100(60, 3000);
    let amount_0_desired: u128 = 10_000_000;
    let amount_1_desired: u128 = 100_000_000;
    let liquidity =
        calculate_liquidity(price_of_100(), 42000, 48000, amount_0_desired, amount_1_desired);
    let before = pool.get_slot_0();
    let amounts = pool.mint(owner(1), 42000, 48000, liquidity).unwrap();
    assert!(amounts[0] <= amount_0_desired);
    assert!(amounts[1] <= amount_1_desired);
    assert!(amounts[0] > 0);
    assert!(amounts[1] > 0);
    // one of the two amounts is used up, but for the rounding
    assert!(amounts[0] + 1 >= amount_0_desired || amounts[1] + 1 >= amount_1_desired);
    assert_eq!(pool.get_slot_0(), before);
    assert_eq!(pool.liquidity, liquidity);
    let key = PositionKey { owner: owner(1), lower_tick: 42000, upper_tick: 48000 };
    assert_eq!(pool.get_position(key).liquidity, liquidity);
    assert_eq!(pool.get_tick(42000).liquidity_gross, liquidity);
    assert_eq!(pool.get_tick(42000).liquidity_net, liquidity as i128);
    assert_eq!(pool.get_tick(48000).liquidity_net, -(liquidity as i128));
}

#[test]
fn mint_takes_the_amounts_of_the_range() {
    // the amounts that go with each other over [42000, 48000] at a price of 100
    let mut pool = pool_at_100(60, 3000);
    let liquidity = calculate_liquidity(price_of_100(), 42000, 48000, 505327, 100_000_111);
    let amounts = pool.mint(owner(1), 42000, 48000, liquidity).unwrap();
    assert!(amounts[0] == 505327 || amounts[1] == 100_000_111);
    assert!(amounts[0] <= 505327 && amounts[1] <= 100_000_111);
    assert!(505327 - amounts[0] <= 1 && 100_000_111 - amounts[1] <= 200);
}

#[test]
fn mint_outside_the_range_takes_one_token() {
    let mut pool = pool_at_100(60, 3000);
    let above = pool.mint(owner(1), 48000, 54000, 1_000_000).unwrap();
    assert!(above[0] > 0);
    assert_eq!(above[1], 0);
    let below = pool.mint(owner(1), 36000, 42000, 1_000_000).unwrap();
    assert_eq!(below[0], 0);
    assert!(below[1] > 0);
    assert_eq!(pool.liquidity, 0);
}

#[test]
fn mint_is_refused() {
    let mut pool = pool_at_100(60, 3000);
    assert_eq!(pool.mint(owner(1), 48000, 42000, 10), Err(PoolError::InvalidTickRange));
    assert_eq!(pool.mint(owner(1), 42000, 42000, 10), Err(PoolError::InvalidTickRange));
    assert_eq!(pool.mint(owner(1), -887273, 42000, 10), Err(PoolError::InvalidTickRange));
    assert_eq!(pool.mint(owner(1), 42000, 887273, 10), Err(PoolError::InvalidTickRange));
    assert_eq!(pool.mint(owner(1), 42001, 48000, 10), Err(PoolError::InvalidTickRange));
    assert_eq!(pool.mint(owner(1), 42000, 48000, 0), Err(PoolError::ZeroLiquidity));
    assert_eq!(
        pool.mint(owner(1), 42000, 48000, u128::MAX),
        Err(PoolError::LiquidityOverflow)
    );
    assert_eq!(
        pool.mint(owner(1), 42000, 48000, pool.max_liquidity_per_tick + 1),
        Err(PoolError::LiquidityOverflow)
    );
    assert_eq!(pool.modify_position(owner(1), 42000, 48000, 0), Err(PoolError::NoPoke));
    // nothing was changed
    assert_eq!(pool.liquidity, 0);
    assert_eq!(pool.get_tick(42000).liquidity_gross, 0);
    assert_eq!(pool.positions.len(), 0);
}

#[test]
fn burn_and_collect() {
    let mut pool = pool_at_100(60, 3000);
    let minted = pool.mint(owner(1), 42000, 48000, 1_000_000).unwrap();
    assert_eq!(pool.burn(owner(2), 42000, 48000, 1), Err(PoolError::LiquidityOverflow));
    assert_eq!(pool.burn(owner(1), 42000, 48000, 0), Err(PoolError::ZeroLiquidity));
    assert_eq!(pool.burn(owner(1), 42000, 48000, 1_000_001), Err(PoolError::LiquidityOverflow));
    let burned = pool.burn(owner(1), 42000, 48000, 400_000).unwrap();
    assert!(burned[0] > 0 && burned[0] < minted[0]);
    assert!(burned[1] > 0 && burned[1] < minted[1]);
    assert_eq!(pool.liquidity, 600_000);
    let key = PositionKey { owner: owner(1), lower_tick: 42000, upper_tick: 48000 };
    assert_eq!(pool.get_position(key).tokens_owed_0, burned[0]);
    assert_eq!(pool.get_position(key).tokens_owed_1, burned[1]);

    assert_eq!(
        pool.collect(owner(2), 42000, 48000, 1, 1),
        Err(PoolError::PositionNotFound)
    );
    assert_eq!(
        pool.collect(owner(1), 48000, 42000, 1, 1),
        Err(PoolError::InvalidTickRange)
    );
    let part = pool.collect(owner(1), 42000, 48000, 10, u128::MAX).unwrap();
    assert_eq!(part, [10, burned[1]]);
    assert_eq!(pool.get_position(key).tokens_owed_0, burned[0] - 10);
    assert_eq!(pool.get_position(key).tokens_owed_1, 0);
    assert_eq!(pool.liquidity, 600_000);

    // the rest of the liquidity: the ticks are cleared
    let rest = pool.burn(owner(1), 42000, 48000, 600_000).unwrap();
    assert!(burned[0] + rest[0] <= minted[0]);
    assert!(burned[1] + rest[1] <= minted[1]);
    assert_eq!(pool.liquidity, 0);
    assert_eq!(pool.get_tick(42000).liquidity_gross, 0);
    assert_eq!(pool.get_tick(48000).liquidity_gross, 0);
    assert_eq!(pool.tick_bitmap.get_word(2).lo, 0);
    assert_eq!(pool.tick_bitmap.get_word(3).lo, 0);
}

#[test]
fn positions_are_kept_apart() {
    let mut pool = pool_at_100(60, 3000);
    pool.mint(owner(1), 42000, 48000, 1000).unwrap();
    pool.mint(owner(2), 42000, 48000, 500).unwrap();
    pool.mint(owner(1), 45000, 48000, 70).unwrap();
    let first = PositionKey { owner: owner(1), lower_tick: 42000, upper_tick: 48000 };
    let second = PositionKey { owner: owner(2), lower_tick: 42000, upper_tick: 48000 };
    let third = PositionKey { owner: owner(1), lower_tick: 45000, upper_tick: 48000 };
    assert_eq!(pool.get_position(first).liquidity, 1000);
    assert_eq!(pool.get_position(second).liquidity, 500);
    assert_eq!(pool.get_position(third).liquidity, 70);
    assert_eq!(pool.liquidity, 1570);
    assert_eq!(pool.get_tick(48000).liquidity_gross, 1570);
    assert_eq!(pool.get_tick(48000).liquidity_net, -1570);
    assert_eq!(pool.get_tick(42000).liquidity_gross, 1500);
    assert_eq!(pool.get_tick(45000).liquidity_gross, 70);
}

#[test]
fn swap_within_a_range() {
    let mut pool = pool_at_100(10, 500);
    let liquidity = calculate_liquidity(price_of_100(), 46000, 46200, 100_000, 500_000);
    pool.mint(owner(1), 46000, 46200, liquidity).unwrap();
    let before = pool.get_slot_0();
    let swapped = pool.swap(true, 777, None).unwrap();
    assert_eq!(swapped[0], 777);
    assert!(swapped[1] > 0);
    // at a price of 100, less the fee and the rounding
    assert!(swapped[1] < 77_700);
    assert!(swapped[1] > 77_000);
    let after = pool.get_slot_0();
    assert!(after.sqrt_price_x96.is_lt(before.sqrt_price_x96));
    assert_eq!(after.tick, get_tick_at_sqrt_ratio(after.sqrt_price_x96));
    assert!(!pool.fee_growth_global_0_x128.is_zero());
    assert!(pool.fee_growth_global_1_x128.is_zero());
    assert_eq!(pool.liquidity, liquidity);

    // the other way
    let back = pool.swap(false, 50_000, None).unwrap();
    assert_eq!(back[0], 50_000);
    assert!(back[1] > 490 && back[1] < 510);
    assert!(!pool.fee_growth_global_1_x128.is_zero());

    // the position has earned fees of both tokens
    pool.modify_position(owner(1), 46000, 46200, 0).unwrap();
    let key = PositionKey { owner: owner(1), lower_tick: 46000, upper_tick: 46200 };
    let position = pool.get_position(key);
    assert!(position.tokens_owed_0 <= 1);
    assert!(position.tokens_owed_1 > 0 && position.tokens_owed_1 <= 25);
}

#[test]
fn swap_to_a_price_limit() {
    let mut pool = pool_at_100(10, 500);
    pool.mint(owner(1), 46000, 46200, 10_000_000).unwrap();
    let limit = get_sqrt_ratio_at_tick(46020);
    let swapped = pool.swap(true, u128::MAX, Some(limit)).unwrap();
    assert!(swapped[0] < u128::MAX);
    assert!(swapped[0] > 0 && swapped[1] > 0);
    assert_eq!(pool.get_slot_0().sqrt_price_x96, limit);
    assert_eq!(pool.get_slot_0().tick, 46020);
    // a limit on the wrong side
    assert_eq!(
        pool.swap(true, 1, Some(get_sqrt_ratio_at_tick(46021))),
        Err(PoolError::InvalidPriceLimit)
    );
    assert_eq!(
        pool.swap(false, 1, Some(get_sqrt_ratio_at_tick(46019))),
        Err(PoolError::InvalidPriceLimit)
    );
    assert_eq!(
        pool.swap(true, 1, Some(U256::from_u128(1))),
        Err(PoolError::InvalidPriceLimit)
    );
    // nothing to swap
    assert_eq!(pool.swap(true, 0, None), Ok([0, 0]));
    assert_eq!(pool.get_slot_0().tick, 46020);
}

#[test]
fn swap_across_a_tick() {
    let mut pool = pool_at_100(10, 500);
    pool.mint(owner(1), 46000, 46200, 10_000_000).unwrap();
    pool.mint(owner(2), 45800, 46100, 5_000_000).unwrap();
    assert_eq!(pool.liquidity, 15_000_000);
    let limit = get_sqrt_ratio_at_tick(45900);
    let swapped = pool.swap(true, u128::MAX, Some(limit)).unwrap();
    assert!(swapped[0] > 0 && swapped[1] > 0);
    assert_eq!(pool.get_slot_0().sqrt_price_x96, limit);
    // below 46000 only the second position is in range
    assert_eq!(pool.liquidity, 5_000_000);
    assert!(!pool.get_tick(46000).fee_growth_outside_0_x128.is_zero());
    // and back up across 46000 and 46100
    let limit = get_sqrt_ratio_at_tick(46150);
    pool.swap(false, u128::MAX, Some(limit)).unwrap();
    assert_eq!(pool.get_slot_0().sqrt_price_x96, limit);
    assert_eq!(pool.get_slot_0().tick, 46150);
    assert_eq!(pool.liquidity, 10_000_000);
}

#[test]
fn swap_out_of_liquidity_changes_nothing() {
    let mut pool = pool_at_100(10, 500);
    pool.mint(owner(1), 46000, 46200, 10_000_000).unwrap();
    let before = pool.get_slot_0();
    // the liquidity ends at 46000
    assert_eq!(pool.swap(true, u128::MAX, None), Err(PoolError::NotEnoughLiquidity));
    assert_eq!(pool.get_slot_0(), before);
    assert_eq!(pool.liquidity, 10_000_000);
    assert!(pool.fee_growth_global_0_x128.is_zero());
    assert!(pool.get_tick(46000).fee_growth_outside_0_x128.is_zero()
        || pool.get_tick(46000).fee_growth_outside_0_x128 == pool.fee_growth_global_0_x128);
}

#[test]
fn swap_that_leaves_the_ticks_is_refused() {
    // just above the lowest usable tick, the word of the bitmap ends below
    // the lowest tick
    let mut pool = Pool::new(60, 3000);
    assert_eq!(pool.initialize(get_sqrt_ratio_at_tick(-887219)), Ok(()));
    let before = pool.get_slot_0();
    assert_eq!(before.tick, -887219);
    assert_eq!(pool.swap(true, 1, None), Err(PoolError::TickOutOfRange));
    assert_eq!(pool.get_slot_0(), before);
    // on a usable tick with nothing below it, the liquidity is missed first
    let mut pool = Pool::new(60, 3000);
    assert_eq!(pool.initialize(get_sqrt_ratio_at_tick(-887220)), Ok(()));
    let before = pool.get_slot_0();
    assert_eq!(pool.swap(true, 1, None), Err(PoolError::NotEnoughLiquidity));
    assert_eq!(pool.get_slot_0(), before);
}

#[test]
fn swap_down_to_a_tick_stays_on_the_tick() {
    let mut pool = Pool::new(1, 0);
    assert_eq!(pool.initialize(get_sqrt_ratio_at_tick(5)), Ok(()));
    assert_eq!(pool.get_slot_0().tick, 5);
    pool.mint(owner(1), -10, 10, 1).unwrap();
    let limit = get_sqrt_ratio_at_tick(0);
    let swapped = pool.swap(true, 1u128 << 112, Some(limit)).unwrap();
    assert_eq!(swapped, [1, 0]);
    assert_eq!(pool.get_slot_0().sqrt_price_x96, limit);
    assert_eq!(pool.get_slot_0().sqrt_price_x96, U256::from_words(0, 1u128 << 96));
    assert_eq!(pool.get_slot_0().tick, 0);
    assert_eq!(pool.get_slot_0().tick, get_tick_at_sqrt_ratio(pool.get_slot_0().sqrt_price_x96));
    assert_eq!(pool.liquidity, 1);
}

#[test]
fn swap_down_to_an_initialized_tick_crosses_it_later() {
    let mut pool = pool_at_100(10, 500);
    pool.mint(owner(1), 46000, 46200, 10_000_000).unwrap();
    pool.mint(owner(2), 45800, 46100, 5_000_000).unwrap();
    let at_tick = get_sqrt_ratio_at_tick(46000);
    let swapped = pool.swap(true, u128::MAX, Some(at_tick)).unwrap();
    assert!(swapped[0] > 0 && swapped[1] > 0);
    assert_eq!(pool.get_slot_0().sqrt_price_x96, at_tick);
    assert_eq!(pool.get_slot_0().tick, 46000);
    assert_eq!(pool.get_slot_0().tick, get_tick_at_sqrt_ratio(at_tick));
    // the price lies in the range of the first position still
    assert_eq!(pool.liquidity, 15_000_000);
    assert!(pool.get_tick(46000).fee_growth_outside_0_x128.is_zero());
    let growth = pool.fee_growth_global_0_x128;
    assert!(!growth.is_zero());

    // an amount too small to move the price goes to the fee, and the tick
    // is not crossed
    assert_eq!(pool.swap(true, 1, None), Ok([1, 0]));
    assert_eq!(pool.get_slot_0().sqrt_price_x96, at_tick);
    assert_eq!(pool.get_slot_0().tick, 46000);
    assert_eq!(pool.liquidity, 15_000_000);
    assert!(pool.get_tick(46000).fee_growth_outside_0_x128.is_zero());
    // 2^128 / 15_000_000, rounded down
    let earned = U256::from_u128(22685491128062564230891640495451);
    assert_eq!(pool.fee_growth_global_0_x128, growth.wrapping_add(earned));
    let growth = pool.fee_growth_global_0_x128;

    // upwards from the tick, nothing is crossed
    let up = pool.swap(false, 1_000, None).unwrap();
    assert_eq!(up[0], 1_000);
    assert_eq!(pool.liquidity, 15_000_000);
    assert_eq!(pool.get_slot_0().tick, get_tick_at_sqrt_ratio(pool.get_slot_0().sqrt_price_x96));
    assert!(pool.get_tick(46000).fee_growth_outside_0_x128.is_zero());

    // down to the tick again and on: the tick is crossed when the price
    // leaves it, with the fee growth of the way to it
    pool.swap(true, u128::MAX, Some(at_tick)).unwrap();
    assert_eq!(pool.get_slot_0().tick, 46000);
    let at_the_tick = pool.fee_growth_global_0_x128;
    assert!(growth.is_lt(at_the_tick));
    let limit = get_sqrt_ratio_at_tick(45900);
    pool.swap(true, u128::MAX, Some(limit)).unwrap();
    assert_eq!(pool.get_slot_0().sqrt_price_x96, limit);
    assert_eq!(pool.get_slot_0().tick, 45900);
    assert_eq!(pool.liquidity, 5_000_000);
    assert_eq!(pool.get_tick(46000).fee_growth_outside_0_x128, at_the_tick);
    assert!(at_the_tick.is_lt(pool.fee_growth_global_0_x128));

    // and up across it once
    let limit = get_sqrt_ratio_at_tick(46050);
    pool.swap(false, u128::MAX, Some(limit)).unwrap();
    assert_eq!(pool.get_slot_0().tick, 46050);
    assert_eq!(pool.liquidity, 15_000_000);
    assert_eq!(
        pool.get_tick(46000).fee_growth_outside_0_x128,
        pool.fee_growth_global_0_x128.wrapping_sub(at_the_tick)
    );
}

#[test]
fn swap_up_to_a_tick_crosses_it() {
    let mut pool = pool_at_100(10, 500);
    pool.mint(owner(1), 46000, 46200, 10_000_000).unwrap();
    pool.mint(owner(2), 45800, 46100, 5_000_000).unwrap();
    let at_tick = get_sqrt_ratio_at_tick(46100);
    pool.swap(false, u128::MAX, Some(at_tick)).unwrap();
    assert_eq!(pool.get_slot_0().sqrt_price_x96, at_tick);
    assert_eq!(pool.get_slot_0().tick, 46100);
    // the second position ends at the tick
    assert_eq!(pool.liquidity, 10_000_000);
    let outside = pool.get_tick(46100).fee_growth_outside_1_x128;
    assert_eq!(outside, pool.fee_growth_global_1_x128);
    assert!(!outside.is_zero());
    // downwards the tick is crossed back when the price leaves it
    let down = pool.swap(true, 1_000, None).unwrap();
    assert_eq!(down[0], 1_000);
    assert!(pool.get_slot_0().sqrt_price_x96.is_lt(at_tick));
    assert!(pool.get_slot_0().tick < 46100);
    assert_eq!(pool.get_slot_0().tick, get_tick_at_sqrt_ratio(pool.get_slot_0().sqrt_price_x96));
    assert_eq!(pool.liquidity, 15_000_000);
    assert!(pool.get_tick(46100).fee_growth_outside_1_x128.is_zero());
}

#[test]
fn swap_down_from_the_last_tick_with_liquidity_is_refused() {
    let mut pool = pool_at_100(10, 500);
    pool.mint(owner(1), 46000, 46200, 10_000_000).unwrap();
    let at_tick = get_sqrt_ratio_at_tick(46000);
    // down to the lower end of the position
    pool.swap(true, u128::MAX, Some(at_tick)).unwrap();
    assert_eq!(pool.get_slot_0().tick, 46000);
    assert_eq!(pool.liquidity, 10_000_000);
    // below it there is nothing
    let before = pool.get_slot_0();
    let growth = pool.fee_growth_global_0_x128;
    assert_eq!(pool.swap(true, 1, None), Err(PoolError::NotEnoughLiquidity));
    assert_eq!(pool.get_slot_0(), before);
    assert_eq!(pool.liquidity, 10_000_000);
    assert_eq!(pool.fee_growth_global_0_x128, growth);
    // a swap to the price at which the pool stands has nothing to do
    assert_eq!(pool.swap(true, 1, Some(at_tick)), Ok([0, 0]));
    // upwards the position is in range
    let up = pool.swap(false, 1_000, None).unwrap();
    assert_eq!(up[0], 1_000);
    assert_eq!(pool.liquidity, 10_000_000);
}

#[test]
fn amounts_beyond_128_bits_are_refused() {
    // at a very low price a little liquidity takes a huge amount of token0
    let mut pool = Pool::new(60, 3000);
    assert_eq!(pool.initialize(get_sqrt_ratio_at_tick(-800040)), Ok(()));
    assert_eq!(
        pool.mint(owner(1), -780000, -770040, 1u128 << 110),
        Err(PoolError::AmountOverflow)
    );
    assert_eq!(pool.get_tick(-780000).liquidity_gross, 0);
    assert_eq!(pool.positions.len(), 0);
}

#[test]
fn plans_change_nothing() {
    let mut pool = pool_at_100(60, 3000);
    let key = PositionKey { owner: owner(1), lower_tick: 42000, upper_tick: 48000 };
    let plan = pool.plan_position(key, 1_000_000).unwrap();
    assert_eq!(pool.liquidity, 0);
    assert_eq!(pool.positions.len(), 0);
    assert_eq!(pool.get_tick(42000).liquidity_gross, 0);
    assert!(plan.flipped_lower && plan.flipped_upper);
    assert_eq!(plan.liquidity, 1_000_000);
    let amounts = pool.modify_position(owner(1), 42000, 48000, 1_000_000).unwrap();
    assert_eq!(amounts, [plan.amount_0, plan.amount_1]);
    assert_eq!(pool.get_position(key).liquidity, plan.position.liquidity);
    // a second plan on the same ticks flips nothing
    let plan = pool.plan_position(key, 5).unwrap();
    assert!(!plan.flipped_lower && !plan.flipped_upper);
    assert_eq!(
        pool.plan_position(key, -1_000_001).err(),
        Some(PoolError::LiquidityOverflow)
    );
}

#[test]
fn the_words_of_the_errors() {
    assert_eq!(PoolError::AlreadyInitialized.message(), "Already initialized");
    assert_eq!(PoolError::InvalidPriceLimit.message(), "Invalid price limit");
    assert_eq!(PoolError::InvalidTickRange.message(), "Invalid tick range");
    assert_eq!(PoolError::NotEnoughLiquidity.message(), "Not enough liquidity");
    assert_eq!(PoolError::ZeroLiquidity.message(), "Zero liquidity");
    assert_eq!(PoolError::LiquidityOverflow.message(), "LO");
    assert_eq!(PoolError::NoPoke.message(), "NP");
}

#[test]
fn one_step_of_a_swap() {
    let mut pool = pool_at_100(10, 500);
    pool.mint(owner(1), 46000, 46200, 10_000_000).unwrap();
    let state = zswap::pool_swap::SwapState {
        amount_specified_remaining: 777,
        amount_calculated: 0,
        sqrt_price_x96: pool.get_slot_0().sqrt_price_x96,
        tick: pool.get_slot_0().tick,
        fee_growth_global_x128: pool.fee_growth_global_0_x128,
        liquidity: pool.liquidity,
    };
    let step = pool.plan_step(&state, true, TickConstants::min_sqrt_ratio()).unwrap();
    assert_eq!(step.next_tick, 46000);
    assert!(step.initialized);
    assert!(!step.on_tick);
    assert_eq!(step.liquidity, pool.liquidity);
    assert_eq!(step.sqrt_price_next_x96, get_sqrt_ratio_at_tick(46000));
    assert_eq!(step.amount_in + step.fee_amount, 777);
    assert_eq!(step.fee_amount, 1);
    assert!(step.sqrt_price_after_x96.is_lt(state.sqrt_price_x96));
    assert!(step.sqrt_price_next_x96.is_lt(step.sqrt_price_after_x96));
    let swapped = pool.swap(true, 777, None).unwrap();
    assert_eq!(swapped, [777, step.amount_out]);
    assert_eq!(pool.get_slot_0().sqrt_price_x96, step.sqrt_price_after_x96);
}

#[test]
fn one_step_from_a_tick() {
    let mut pool = pool_at_100(10, 500);
    pool.mint(owner(1), 46000, 46200, 10_000_000).unwrap();
    pool.mint(owner(2), 45800, 46100, 5_000_000).unwrap();
    let at_tick = get_sqrt_ratio_at_tick(46000);
    pool.swap(true, u128::MAX, Some(at_tick)).unwrap();
    let state = zswap::pool_swap::SwapState {
        amount_specified_remaining: 1_000,
        amount_calculated: 0,
        sqrt_price_x96: at_tick,
        tick: 46000,
        fee_growth_global_x128: pool.fee_growth_global_0_x128,
        liquidity: pool.liquidity,
    };
    // downwards the step runs below the tick
    let step = pool.plan_step(&state, true, TickConstants::min_sqrt_ratio()).unwrap();
    assert!(step.on_tick);
    assert_eq!(step.liquidity, 5_000_000);
    assert_eq!(step.next_tick, 45800);
    assert!(step.initialized);
    assert!(step.sqrt_price_after_x96.is_lt(at_tick));
    assert_eq!(step.amount_in + step.fee_amount, 1_000);
    // upwards it runs above
    let state = zswap::pool_swap::SwapState {
        fee_growth_global_x128: pool.fee_growth_global_1_x128,
        ..state
    };
    let step = pool.plan_step(&state, false, TickConstants::max_sqrt_ratio()).unwrap();
    assert!(!step.on_tick);
    assert_eq!(step.liquidity, 15_000_000);
    // the word of the bitmap ends at 46070
    assert_eq!(step.next_tick, 46070);
    assert!(!step.initialized);
    assert!(at_tick.is_lt(step.sqrt_price_after_x96));
}

#[test]
fn mint_test_mint_properly() {
    // a pool at a price of 100 token1 for one token0
    let mut pool = pool_at_100(60, 3000);
    let amount_0_desired: u128 = 10_000_000;
    let amount_1_desired: u128 = 100_000_000;
    let amount_0_min: u128 = 0;
    let amount_1_min: u128 = 0;
    let before_slot_0 = pool.get_slot_0();

    let liquidity =
        calculate_liquidity(price_of_100(), 42000, 48000, amount_0_desired, amount_1_desired);
    let added_amounts = pool.mint(owner(7), 42000, 48000, liquidity).unwrap();
    assert!(zswap::manager::amounts_meet_minimum(
        added_amounts[0],
        added_amounts[1],
        amount_0_min,
        amount_1_min
    ));
    assert!(added_amounts[0] <= amount_0_desired);
    assert!(added_amounts[1] <= amount_1_desired);
    // the amounts are those between the current price and the bounds
    assert_eq!(
        U256::from_u128(added_amounts[0]),
        zswap::sqrt_price_math::get_amount0_delta(
            price_of_100(),
            get_sqrt_ratio_at_tick(48000),
            liquidity,
            true
        )
    );
    assert_eq!(
        U256::from_u128(added_amounts[1]),
        zswap::sqrt_price_math::get_amount1_delta(
            get_sqrt_ratio_at_tick(42000),
            price_of_100(),
            liquidity,
            true
        )
    );

    let after_slot_0 = pool.get_slot_0();
    assert_eq!(before_slot_0.tick, after_slot_0.tick);
    assert_eq!(before_slot_0.sqrt_price_x96, after_slot_0.sqrt_price_x96);
}

#[test]
fn swap_test_mint_properly() {
    let mut pool = pool_at_100(10, 500);
    let token_0_amount: u128 = 100_000;
    let token_1_amount: u128 = 500_000;
    let liquidity =
        calculate_liquidity(price_of_100(), 46000, 46200, token_0_amount, token_1_amount);
    let minted = pool.mint(owner(7), 46000, 46200, liquidity).unwrap();
    let mut token_0_balance = token_0_amount - minted[0];
    let mut token_1_balance = token_1_amount - minted[1];
    let token_0_balance_before_swap = token_0_balance;
    let token_1_balance_before_swap = token_1_balance;

    let swapped = pool.swap(true, 777, None).unwrap();
    token_0_balance -= swapped[0];
    token_1_balance += swapped[1];

    assert!(token_0_balance_before_swap > token_0_balance);
    assert!(token_1_balance_before_swap < token_1_balance);
}
