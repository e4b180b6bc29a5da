//! Swaps: the walk of the price from tick to tick until the amount that goes
//! in is used up or the price limit is reached.
//!
//! A swap is a run of steps. Each step finds the next tick in the direction
//! of the swap, within one word of the tick bitmap, and moves the price
//! towards the price at that tick as far as the remaining amount allows.
//! Going up, a tick is crossed when the price arrives at it. Going down, a
//! tick is crossed when the price leaves it: a price that lies on a tick
//! belongs to the range above the tick. So the tick of the pool is the tick
//! of its price after every step, and each tick is crossed once in each
//! direction.

use vstd::prelude::*;
use crate::num256::U256;
use crate::num256::two_128;
use crate::num256::two_256;
use crate::num256::lemma_two_256_pos;
use crate::num256::lemma_view_injective;
use crate::int256::I256;
use crate::num160::U160;
use crate::full_math::FullMath;
use crate::full_math::mul_div_floor;
use crate::fixed_point_128::get_q128;
use crate::liquidity_math::checked_apply_net;
use crate::swap_math::compute_swap_step;
use crate::swap_math::swap_step_next_price;
use crate::swap_math::swap_step_amount_in;
use crate::swap_math::swap_step_amount_out;
use crate::swap_math::swap_step_fee_amount;
use crate::tick::TickInfo;
use crate::tick::cross;
use crate::tick_bitmap::compress;
use crate::tick_bitmap::next_in_word;
use crate::tick_bitmap::can_search;
use crate::tick_bitmap::next_initialized_tick_within_one_word;
use crate::tick_math::MIN_TICK;
use crate::tick_math::MAX_TICK;
use crate::tick_math::sqrt_ratio_at_tick;
use crate::tick_math::lowest_sqrt_ratio;
use crate::tick_math::highest_sqrt_ratio;
use crate::tick_math::tick_at_sqrt_ratio;
use crate::tick_math::get_sqrt_ratio_at_tick;
use crate::tick_math::tick_of_price;
use crate::tick_math::is_tick_of_price;
use crate::tick_math::lemma_sqrt_ratio_at_bounds;
use crate::tick_math::TickConstants;
use crate::pool::Pool;
use crate::pool::is_aligned;
use crate::pool::PoolError;
use crate::pool::Slot0;

verus! {

broadcast use vstd::std_specs::hash::group_hash_axioms;

/// The state of a swap between two steps.
#[derive(Clone, Copy, Debug)]
pub struct SwapState {
    /// What is left of the amount that goes in.
    pub amount_specified_remaining: u128,
    /// The amount that has come out so far.
    pub amount_calculated: u128,
    /// The current price.
    pub sqrt_price_x96: U160,
    /// The tick of the current price.
    pub tick: i32,
    /// The global fee growth of the token that goes in.
    pub fee_growth_global_x128: U256,
    /// The liquidity in range.
    pub liquidity: u128,
}

/// What one step of a swap computes before the state is changed.
#[derive(Clone, Copy, Debug)]
pub struct StepState {
    /// The price at which the step starts.
    pub sqrt_price_start_x96: U160,
    /// Whether the step starts, going down, on the price of a usable tick:
    /// the tick is crossed where the price moves.
    pub on_tick: bool,
    /// The liquidity in range while the price moves.
    pub liquidity: u128,
    /// The next tick in the direction of the swap.
    pub next_tick: i32,
    /// Whether the next tick is initialized.
    pub initialized: bool,
    /// The price at the next tick.
    pub sqrt_price_next_x96: U160,
    /// The price at which the step ends.
    pub sqrt_price_after_x96: U160,
    /// The amount that goes in during the step.
    pub amount_in: u128,
    /// The amount that comes out during the step.
    pub amount_out: u128,
    /// The fee taken during the step.
    pub fee_amount: u128,
}

/// The most steps that a swap can take: each step but the last arrives at a
/// tick or leaves one, and always in one direction.
pub open spec fn most_steps() -> nat {
    3_549_090
}

/// What a map of ticks holds for a tick: the empty state for a tick that is
/// not in it.
pub open spec fn info_in(ticks: Map<i32, TickInfo>, tick: i32) -> TickInfo {
    if ticks.contains_key(tick) {
        ticks[tick]
    } else {
        TickInfo::empty()
    }
}

/// A map of ticks with a list of crossed ticks written to it, in order.
pub open spec fn with_crossed(ticks: Map<i32, TickInfo>, crossed: Seq<(i32, TickInfo)>) -> Map<
    i32,
    TickInfo,
>
    decreases crossed.len(),
{
    if crossed.len() == 0 {
        ticks
    } else {
        with_crossed(ticks, crossed.drop_last()).insert(crossed.last().0, crossed.last().1)
    }
}

/// Whether a swap is over: the amount is used up or the price is at the
/// limit.
pub open spec fn swap_is_done(state: SwapState, limit: U160) -> bool {
    state.amount_specified_remaining == 0 || state.sqrt_price_x96@ == limit@
}

/// A bound on the number of steps that a swap has left. Going down, two for
/// each tick ahead, one more where the price lies above the price at its
/// tick, and one more; going up, one for each tick ahead, and one more.
pub open spec fn steps_left(state: SwapState, zero_for_one: bool) -> nat {
    if zero_for_one {
        (2 * (state.tick - MIN_TICK) + (if state.sqrt_price_x96@ > sqrt_ratio_at_tick(
            state.tick as int,
        ) {
            1int
        } else {
            0int
        }) + 1) as nat
    } else {
        (MAX_TICK - state.tick + 1) as nat
    }
}

impl Pool {
    /// Whether a state of a swap fits the pool and the limit: price and
    /// limit lie within the range of prices, the tick is the tick of the
    /// price, and the price has not passed the limit.
    pub open spec fn state_fits(&self, state: SwapState, zero_for_one: bool, limit: U160) -> bool {
        &&& lowest_sqrt_ratio() <= state.sqrt_price_x96@ <= highest_sqrt_ratio()
        &&& lowest_sqrt_ratio() <= limit@ <= highest_sqrt_ratio()
        &&& MIN_TICK <= state.tick <= MAX_TICK
        &&& is_tick_of_price(state.tick as int, state.sqrt_price_x96@)
        &&& zero_for_one ==> limit@ <= state.sqrt_price_x96@
        &&& !zero_for_one ==> state.sqrt_price_x96@ <= limit@
    }

    /// Whether a swap of token0 for token1 stands on a tick: the price is
    /// the price at the tick of the state, and the tick is usable. Such a
    /// tick is crossed when the price moves on.
    pub open spec fn stands_on_tick(&self, state: SwapState, zero_for_one: bool) -> bool {
        &&& zero_for_one
        &&& state.sqrt_price_x96@ == sqrt_ratio_at_tick(state.tick as int)
        &&& state.tick as int % (self.tick_spacing as int) == 0
    }

    /// The price that a step aims at: the price at the next tick, or the
    /// limit where that comes first.
    pub open spec fn step_target(next_price: nat, zero_for_one: bool, limit: nat) -> nat {
        if (zero_for_one && next_price < limit) || (!zero_for_one && next_price > limit) {
            limit
        } else {
            next_price
        }
    }

    /// What a step computes from a state, or why the swap is refused.
    ///
    /// A step that starts on a tick, going down, is computed below the tick:
    /// with the liquidity in range less the net liquidity of the tick, and
    /// towards the next tick below. It is refused where that liquidity
    /// leaves the 128-bit range or is zero. Any step is refused where the
    /// search leaves the range of ticks, or where the amount that comes out
    /// does not fit in 128 bits.
    #[verifier::opaque]
    pub open spec fn step_plan(&self, state: SwapState, zero_for_one: bool, limit: U160) -> Result<
        StepState,
        PoolError,
    > {
        let ts = self.tick_spacing as int;
        let on_tick = self.stands_on_tick(state, zero_for_one);
        let below = state.liquidity - self.tick_info(state.tick).liquidity_net;
        let from = if on_tick {
            state.tick - 1
        } else {
            state.tick as int
        };
        let compressed = compress(from, ts);
        let found = next_in_word(self.tick_bitmap, compressed, zero_for_one);
        let next_tick = found.0 * ts;
        let next_price = sqrt_ratio_at_tick(next_tick);
        let target = Pool::step_target(next_price, zero_for_one, limit@);
        let price = state.sqrt_price_x96@;
        let liquidity = if on_tick {
            below as nat
        } else {
            state.liquidity as nat
        };
        let remaining = state.amount_specified_remaining as int;
        let fee = self.fee as nat;
        let amount_out = swap_step_amount_out(price, target, liquidity, remaining, fee);
        if on_tick && !(0 <= below <= u128::MAX) {
            Err(PoolError::LiquidityOverflow)
        } else if on_tick && below == 0 {
            Err(PoolError::NotEnoughLiquidity)
        } else if from < MIN_TICK || (!zero_for_one && compressed + 1 > MAX_TICK) {
            Err(PoolError::TickOutOfRange)
        } else if !(MIN_TICK <= next_tick <= MAX_TICK) {
            Err(PoolError::TickOutOfRange)
        } else if amount_out > u128::MAX {
            Err(PoolError::AmountOverflow)
        } else {
            Ok(
                StepState {
                    sqrt_price_start_x96: state.sqrt_price_x96,
                    on_tick,
                    liquidity: liquidity as u128,
                    next_tick: next_tick as i32,
                    initialized: found.1,
                    sqrt_price_next_x96: U256::from_number(next_price),
                    sqrt_price_after_x96: U256::from_number(
                        swap_step_next_price(price, target, liquidity, remaining, fee),
                    ),
                    amount_in: swap_step_amount_in(price, target, liquidity, remaining, fee) as u128,
                    amount_out: amount_out as u128,
                    fee_amount: swap_step_fee_amount(
                        price,
                        target,
                        liquidity,
                        remaining,
                        fee,
                    ) as u128,
                },
            )
        }
    }

    /// The state and the ticks after a step has been carried out, or why the
    /// swap is refused: an amount or the liquidity leaves its range, or the
    /// liquidity falls to zero at a tick.
    ///
    /// The tick of the new state is the tick of the new price. Going up, the
    /// next tick is crossed where the price arrives at it. Going down, the
    /// tick on which the step started is crossed where the price has moved,
    /// with the fee growth as it was before the step; where the price has
    /// not moved, the fee goes to the liquidity above the tick.
    #[verifier::opaque]
    pub open spec fn step_applied(
        &self,
        ticks: Map<i32, TickInfo>,
        state: SwapState,
        step: StepState,
        zero_for_one: bool,
    ) -> Result<(SwapState, Map<i32, TickInfo>), PoolError> {
        let remaining = state.amount_specified_remaining - (step.amount_in + step.fee_amount);
        let calculated = state.amount_calculated + step.amount_out;
        let after = step.sqrt_price_after_x96;
        let moved = after@ != state.sqrt_price_x96@;
        let leaves = zero_for_one && step.on_tick && moved;
        let arrives = !zero_for_one && after@ == step.sqrt_price_next_x96@;
        let earning = if leaves {
            step.liquidity
        } else {
            state.liquidity
        };
        let growth = if earning > 0 {
            U256::from_number(
                (state.fee_growth_global_x128@ + mul_div_floor(
                    step.fee_amount as nat,
                    two_128(),
                    earning as nat,
                )) % two_256(),
            )
        } else {
            state.fee_growth_global_x128
        };
        let tick = if after@ == highest_sqrt_ratio() {
            MAX_TICK
        } else {
            tick_at_sqrt_ratio(after@) as i32
        };
        if calculated > u128::MAX {
            Err(PoolError::AmountOverflow)
        } else if arrives {
            let info = info_in(ticks, step.next_tick);
            let liquidity = state.liquidity + info.liquidity_net;
            if !(0 <= liquidity <= u128::MAX) {
                Err(PoolError::LiquidityOverflow)
            } else if liquidity == 0 {
                Err(PoolError::NotEnoughLiquidity)
            } else {
                Ok(
                    (
                        SwapState {
                            amount_specified_remaining: remaining as u128,
                            amount_calculated: calculated as u128,
                            sqrt_price_x96: after,
                            tick,
                            fee_growth_global_x128: growth,
                            liquidity: liquidity as u128,
                        },
                        ticks.insert(
                            step.next_tick,
                            info.crossed(
                                self.fee_growth_global_0_x128,
                                growth,
                                U256 { hi: 0, lo: 0 },
                                0,
                                0,
                            ),
                        ),
                    ),
                )
            }
        } else if leaves {
            Ok(
                (
                    SwapState {
                        amount_specified_remaining: remaining as u128,
                        amount_calculated: calculated as u128,
                        sqrt_price_x96: after,
                        tick,
                        fee_growth_global_x128: growth,
                        liquidity: step.liquidity,
                    },
                    ticks.insert(
                        state.tick,
                        info_in(ticks, state.tick).crossed(
                            state.fee_growth_global_x128,
                            self.fee_growth_global_1_x128,
                            U256 { hi: 0, lo: 0 },
                            0,
                            0,
                        ),
                    ),
                ),
            )
        } else {
            Ok(
                (
                    SwapState {
                        amount_specified_remaining: remaining as u128,
                        amount_calculated: calculated as u128,
                        sqrt_price_x96: after,
                        tick,
                        fee_growth_global_x128: growth,
                        liquidity: state.liquidity,
                    },
                    ticks,
                ),
            )
        }
    }

    /// One step of a swap: the state and the ticks after it, or why the swap
    /// is refused.
    #[verifier::opaque]
    pub open spec fn swap_step(
        &self,
        ticks: Map<i32, TickInfo>,
        state: SwapState,
        zero_for_one: bool,
        limit: U160,
    ) -> Result<(SwapState, Map<i32, TickInfo>), PoolError> {
        match self.step_plan(state, zero_for_one, limit) {
            Err(e) => Err(e),
            Ok(step) => self.step_applied(ticks, state, step, zero_for_one),
        }
    }

    /// A run of at most `steps` steps of a swap, which ends early where the
    /// swap is over or refused.
    pub open spec fn swap_run(
        &self,
        ticks: Map<i32, TickInfo>,
        state: SwapState,
        zero_for_one: bool,
        limit: U160,
        steps: nat,
    ) -> Result<(SwapState, Map<i32, TickInfo>), PoolError>
        decreases steps,
    {
        if steps == 0 || swap_is_done(state, limit) {
            Ok((state, ticks))
        } else {
            match self.swap_step(ticks, state, zero_for_one, limit) {
                Err(e) => Err(e),
                Ok((next, crossed)) => self.swap_run(
                    crossed,
                    next,
                    zero_for_one,
                    limit,
                    (steps - 1) as nat,
                ),
            }
        }
    }

    /// Whether a swap of token0 for token1 stands on a tick.
    fn is_on_tick(&self, state: &SwapState, zero_for_one: bool) -> (r: bool)
        requires
            self.wf(),
            MIN_TICK <= state.tick <= MAX_TICK,
        ensures
            r == self.stands_on_tick(*state, zero_for_one),
    {
        if !zero_for_one || !is_aligned(state.tick, self.tick_spacing) {
            return false;
        }
        let sqrt_price_at_tick = get_sqrt_ratio_at_tick(state.tick);
        proof {
            if state.sqrt_price_x96@ == sqrt_price_at_tick@ {
                lemma_view_injective(state.sqrt_price_x96, sqrt_price_at_tick);
            }
        }
        state.sqrt_price_x96 == sqrt_price_at_tick
    }

    /// Computes a step of a swap from a state, without changing anything.
    #[verifier::rlimit(100)]
    #[verifier::spinoff_prover]
    pub fn plan_step(&self, state: &SwapState, zero_for_one: bool, limit: U160) -> (r: Result<
        StepState,
        PoolError,
    >)
        requires
            self.wf(),
            self.state_fits(*state, zero_for_one, limit),
        ensures
            r == self.step_plan(*state, zero_for_one, limit),
            match r {
                Ok(step) => {
                    &&& step.amount_in + step.fee_amount <= state.amount_specified_remaining
                    &&& MIN_TICK <= step.next_tick <= MAX_TICK
                    &&& step.next_tick as int % (self.tick_spacing as int) == 0
                    &&& step.on_tick == self.stands_on_tick(*state, zero_for_one)
                    &&& step.on_tick ==> step.liquidity > 0 && step.next_tick < state.tick
                    &&& !step.on_tick ==> step.liquidity == state.liquidity
                    &&& zero_for_one ==> step.next_tick <= state.tick
                    &&& !zero_for_one ==> step.next_tick > state.tick
                    &&& step.sqrt_price_next_x96@ == sqrt_ratio_at_tick(step.next_tick as int)
                    &&& zero_for_one ==> limit@ <= step.sqrt_price_after_x96@
                        <= state.sqrt_price_x96@ && step.sqrt_price_next_x96@
                        <= step.sqrt_price_after_x96@
                    &&& !zero_for_one ==> state.sqrt_price_x96@ <= step.sqrt_price_after_x96@
                        <= limit@ && step.sqrt_price_after_x96@ <= step.sqrt_price_next_x96@
                    &&& step.sqrt_price_after_x96@ != step.sqrt_price_next_x96@
                        && step.sqrt_price_after_x96@ != limit@ ==> step.amount_in
                        + step.fee_amount == state.amount_specified_remaining
                },
                Err(_) => true,
            },
    {
        reveal(Pool::step_plan);
        let on_tick = self.is_on_tick(state, zero_for_one);
        let liquidity: u128 = if on_tick {
            let below = checked_apply_net(
                state.liquidity,
                self.get_tick(state.tick).liquidity_net,
                true,
            );
            match below {
                Some(liquidity) => {
                    if liquidity == 0 {
                        return Err(PoolError::NotEnoughLiquidity);
                    }
                    liquidity
                },
                None => {
                    return Err(PoolError::LiquidityOverflow);
                },
            }
        } else {
            state.liquidity
        };
        if on_tick && state.tick == MIN_TICK {
            return Err(PoolError::TickOutOfRange);
        }
        let from: i32 = if on_tick {
            state.tick - 1
        } else {
            state.tick
        };
        if !can_search(from, self.tick_spacing, zero_for_one) {
            return Err(PoolError::TickOutOfRange);
        }
        let (next_tick, initialized) = next_initialized_tick_within_one_word(
            &self.tick_bitmap,
            from,
            self.tick_spacing,
            zero_for_one,
        );
        if next_tick < MIN_TICK || next_tick > MAX_TICK {
            return Err(PoolError::TickOutOfRange);
        }
        let sqrt_price_next_x96 = get_sqrt_ratio_at_tick(next_tick);
        proof {
            // the price at the next tick lies ahead of the current price
            if zero_for_one {
                if next_tick < state.tick {
                    crate::tick_order::lemma_sqrt_ratio_increases(
                        next_tick as int,
                        state.tick as int,
                    );
                }
            } else {
                if state.tick + 1 < next_tick {
                    crate::tick_order::lemma_sqrt_ratio_increases(
                        state.tick + 1,
                        next_tick as int,
                    );
                }
            }
            lemma_sqrt_ratio_at_bounds();
            crate::tick_order::lemma_sqrt_ratio_in_range(next_tick as int);
            vstd::arithmetic::div_mod::lemma_mod_multiples_basic(
                next_in_word(
                    self.tick_bitmap,
                    compress(from as int, self.tick_spacing as int),
                    zero_for_one,
                ).0,
                self.tick_spacing as int,
            );
        }
        let target = if (zero_for_one && sqrt_price_next_x96.is_lt(limit)) || (!zero_for_one
            && sqrt_price_next_x96.is_gt(limit)) {
            limit
        } else {
            sqrt_price_next_x96
        };
        let (sqrt_price_after_x96, amount_in, amount_out, fee_amount) = compute_swap_step(
            state.sqrt_price_x96,
            target,
            liquidity,
            I256::from_u128(state.amount_specified_remaining),
            self.fee,
        );
        proof {
            U256::lemma_from_number(sqrt_price_next_x96);
            U256::lemma_from_number(sqrt_price_after_x96);
            vstd::arithmetic::div_mod::lemma_small_mod(amount_in@, two_128());
            vstd::arithmetic::div_mod::lemma_small_mod(fee_amount@, two_128());
        }
        if !amount_out.fits_u128() {
            return Err(PoolError::AmountOverflow);
        }
        proof {
            vstd::arithmetic::div_mod::lemma_small_mod(amount_out@, two_128());
        }
        Ok(
            StepState {
                sqrt_price_start_x96: state.sqrt_price_x96,
                on_tick,
                liquidity,
                next_tick,
                initialized,
                sqrt_price_next_x96,
                sqrt_price_after_x96,
                amount_in: amount_in.low_u128(),
                amount_out: amount_out.low_u128(),
                fee_amount: fee_amount.low_u128(),
            },
        )
    }

    /// The global fee growth of the token that goes in after a fee has been
    /// shared out over the liquidity that earns it.
    fn grown(fee_growth_global_x128: U256, fee_amount: u128, liquidity: u128) -> (r: U256)
        ensures
            r == (if liquidity > 0 {
                U256::from_number(
                    (fee_growth_global_x128@ + mul_div_floor(
                        fee_amount as nat,
                        two_128(),
                        liquidity as nat,
                    )) % two_256(),
                )
            } else {
                fee_growth_global_x128
            }),
    {
        if liquidity > 0 {
            proof {
                lemma_two_256_pos();
                assert(fee_amount as nat * two_128() < two_256() * (liquidity as nat))
                    by (nonlinear_arith)
                    requires
                        fee_amount < two_128(),
                        liquidity >= 1,
                        two_256() == two_128() * two_128(),
                ;
                crate::full_math::lemma_div_floor_compare(
                    fee_amount as nat * two_128(),
                    liquidity as nat,
                    two_256(),
                );
            }
            let added = FullMath::mul_div(
                U256::from_u128(fee_amount),
                get_q128(),
                U256::from_u128(liquidity),
            );
            let sum = fee_growth_global_x128.wrapping_add(added);
            proof {
                U256::lemma_from_number(sum);
            }
            sum
        } else {
            fee_growth_global_x128
        }
    }

    /// Carries a step out on a state of a swap: returns the next state and,
    /// where a tick was crossed, that tick as it is after the crossing.
    fn apply_step(
        &self,
        state: &SwapState,
        step: &StepState,
        zero_for_one: bool,
        Ghost(ticks): Ghost<Map<i32, TickInfo>>,
    ) -> (r: Result<(SwapState, Option<(i32, TickInfo)>), PoolError>)
        requires
            self.wf(),
            step.amount_in + step.fee_amount <= state.amount_specified_remaining,
            MIN_TICK <= step.next_tick <= MAX_TICK,
            step.sqrt_price_next_x96@ == sqrt_ratio_at_tick(step.next_tick as int),
            lowest_sqrt_ratio() <= step.sqrt_price_after_x96@ <= highest_sqrt_ratio(),
            zero_for_one ==> info_in(ticks, state.tick) == self.tick_info(state.tick),
            !zero_for_one ==> info_in(ticks, step.next_tick) == self.tick_info(step.next_tick),
        ensures
            match self.step_applied(ticks, *state, *step, zero_for_one) {
                Err(e) => r == Err::<(SwapState, Option<(i32, TickInfo)>), PoolError>(e),
                Ok((next, crossed)) => r.is_ok() && r.unwrap().0 == next && (match r.unwrap().1 {
                    Some((tick, info)) => crossed == ticks.insert(tick, info)
                        && info.liquidity_gross == self.tick_info(tick).liquidity_gross,
                    None => crossed == ticks,
                }),
            },
            match r {
                Ok((next, crossing)) => {
                    &&& next.sqrt_price_x96 == step.sqrt_price_after_x96
                    &&& next.amount_specified_remaining == state.amount_specified_remaining - (
                    step.amount_in + step.fee_amount)
                    &&& MIN_TICK <= next.tick <= MAX_TICK
                    &&& is_tick_of_price(next.tick as int, next.sqrt_price_x96@)
                    &&& match crossing {
                        Some((tick, _)) => if zero_for_one {
                            tick == state.tick && step.on_tick && step.sqrt_price_after_x96@
                                != state.sqrt_price_x96@
                        } else {
                            tick == step.next_tick && step.sqrt_price_after_x96@
                                == step.sqrt_price_next_x96@
                        },
                        None => true,
                    }
                },
                Err(_) => true,
            },
    {
        reveal(Pool::step_applied);
        let remaining: u128 = state.amount_specified_remaining - (step.amount_in
            + step.fee_amount);
        let calculated: u128 = match state.amount_calculated.checked_add(step.amount_out) {
            Some(calculated) => calculated,
            None => {
                return Err(PoolError::AmountOverflow);
            },
        };
        let moved = step.sqrt_price_after_x96 != state.sqrt_price_x96;
        proof {
            if step.sqrt_price_after_x96@ == state.sqrt_price_x96@ {
                lemma_view_injective(step.sqrt_price_after_x96, state.sqrt_price_x96);
            }
            if step.sqrt_price_after_x96@ == step.sqrt_price_next_x96@ {
                lemma_view_injective(step.sqrt_price_after_x96, step.sqrt_price_next_x96);
            }
        }
        let leaves = zero_for_one && step.on_tick && moved;
        let growth = Pool::grown(
            state.fee_growth_global_x128,
            step.fee_amount,
            if leaves {
                step.liquidity
            } else {
                state.liquidity
            },
        );
        let tick = tick_of_price(step.sqrt_price_after_x96);
        if !zero_for_one && step.sqrt_price_after_x96 == step.sqrt_price_next_x96 {
            let mut info = self.get_tick(step.next_tick);
            let liquidity_net = cross(
                &mut info,
                self.fee_growth_global_0_x128,
                growth,
                U256::zero(),
                0,
                0,
            );
            let liquidity = match checked_apply_net(state.liquidity, liquidity_net, false) {
                Some(liquidity) => liquidity,
                None => {
                    return Err(PoolError::LiquidityOverflow);
                },
            };
            if liquidity == 0 {
                return Err(PoolError::NotEnoughLiquidity);
            }
            Ok(
                (
                    SwapState {
                        amount_specified_remaining: remaining,
                        amount_calculated: calculated,
                        sqrt_price_x96: step.sqrt_price_after_x96,
                        tick,
                        fee_growth_global_x128: growth,
                        liquidity,
                    },
                    Some((step.next_tick, info)),
                ),
            )
        } else if leaves {
            let mut info = self.get_tick(state.tick);
            cross(
                &mut info,
                state.fee_growth_global_x128,
                self.fee_growth_global_1_x128,
                U256::zero(),
                0,
                0,
            );
            Ok(
                (
                    SwapState {
                        amount_specified_remaining: remaining,
                        amount_calculated: calculated,
                        sqrt_price_x96: step.sqrt_price_after_x96,
                        tick,
                        fee_growth_global_x128: growth,
                        liquidity: step.liquidity,
                    },
                    Some((state.tick, info)),
                ),
            )
        } else {
            Ok(
                (
                    SwapState {
                        amount_specified_remaining: remaining,
                        amount_calculated: calculated,
                        sqrt_price_x96: step.sqrt_price_after_x96,
                        tick,
                        fee_growth_global_x128: growth,
                        liquidity: state.liquidity,
                    },
                    None,
                ),
            )
        }
    }

    /// The state in which a swap starts, and its price limit: the limit
    /// given, or the price at the lowest or at the highest tick.
    pub open spec fn swap_start(&self, zero_for_one: bool, amount_specified: u128) -> SwapState {
        SwapState {
            amount_specified_remaining: amount_specified,
            amount_calculated: 0,
            sqrt_price_x96: self.slot_0.sqrt_price_x96,
            tick: self.slot_0.tick,
            fee_growth_global_x128: if zero_for_one {
                self.fee_growth_global_0_x128
            } else {
                self.fee_growth_global_1_x128
            },
            liquidity: self.liquidity,
        }
    }

    /// The price limit of a swap: the limit given, or the price at the
    /// lowest tick for a swap of token0 for token1 and the price at the
    /// highest tick for the other direction.
    pub open spec fn swap_limit(zero_for_one: bool, sqrt_price_limit_x96: Option<U160>) -> U160 {
        match sqrt_price_limit_x96 {
            Some(limit) => limit,
            None => if zero_for_one {
                U256::from_number(lowest_sqrt_ratio())
            } else {
                U256::from_number(highest_sqrt_ratio())
            },
        }
    }

    /// Whether a price limit is refused: it lies on the wrong side of the
    /// current price or outside the range of prices.
    pub open spec fn limit_is_invalid(&self, zero_for_one: bool, limit: U160) -> bool {
        ||| (zero_for_one && limit@ > self.slot_0.sqrt_price_x96@)
        ||| (!zero_for_one && limit@ < self.slot_0.sqrt_price_x96@)
        ||| limit@ < lowest_sqrt_ratio()
        ||| limit@ > highest_sqrt_ratio()
    }

    /// The state and the ticks at the end of a swap, or why it is refused.
    pub open spec fn swap_outcome(
        &self,
        zero_for_one: bool,
        amount_specified: u128,
        sqrt_price_limit_x96: Option<U160>,
    ) -> Result<(SwapState, Map<i32, TickInfo>), PoolError> {
        let limit = Pool::swap_limit(zero_for_one, sqrt_price_limit_x96);
        if !self.initialized() {
            Err(PoolError::NotInitialized)
        } else if self.limit_is_invalid(zero_for_one, limit) {
            Err(PoolError::InvalidPriceLimit)
        } else {
            self.swap_run(
                self.ticks@,
                self.swap_start(zero_for_one, amount_specified),
                zero_for_one,
                limit,
                most_steps(),
            )
        }
    }

    /// Swaps `amount_specified` of token0 for token1 (`zero_for_one`) or of
    /// token1 for token0, as far as the price limit allows, and returns the
    /// amount that went in and the amount that came out.
    ///
    /// The swap runs until the amount is used up or the price is at the
    /// limit. The price, the tick, the liquidity in range, the global fee
    /// growth of the token that goes in and the ticks that were crossed are
    /// as the run of steps leaves them, and the tick is the tick of the
    /// price. A swap that is refused changes nothing. The transfers of the
    /// tokens are left to the caller.
    pub fn swap(
        &mut self,
        zero_for_one: bool,
        amount_specified: u128,
        sqrt_price_limit_x96: Option<U160>,
    ) -> (r: Result<[u128; 2], PoolError>)
        requires
            old(self).wf(),
        ensures
            final(self).wf(),
            match old(self).swap_outcome(zero_for_one, amount_specified, sqrt_price_limit_x96) {
                Err(e) => r == Err::<[u128; 2], PoolError>(e) && *final(self) == *old(self),
                Ok((state, ticks)) => {
                    &&& r.is_ok()
                    &&& swap_is_done(
                        state,
                        Pool::swap_limit(zero_for_one, sqrt_price_limit_x96),
                    )
                    &&& r.unwrap()[0] == amount_specified - state.amount_specified_remaining
                    &&& r.unwrap()[1] == state.amount_calculated
                    &&& final(self).slot_0 == (Slot0 {
                        sqrt_price_x96: state.sqrt_price_x96,
                        tick: state.tick,
                    })
                    &&& final(self).liquidity == state.liquidity
                    &&& final(self).fee_growth_global_0_x128 == (if zero_for_one {
                        state.fee_growth_global_x128
                    } else {
                        old(self).fee_growth_global_0_x128
                    })
                    &&& final(self).fee_growth_global_1_x128 == (if zero_for_one {
                        old(self).fee_growth_global_1_x128
                    } else {
                        state.fee_growth_global_x128
                    })
                    &&& final(self).ticks@ == ticks
                    &&& final(self).tick_bitmap == old(self).tick_bitmap
                    &&& final(self).positions == old(self).positions
                    &&& final(self).tick_spacing == old(self).tick_spacing
                    &&& final(self).fee == old(self).fee
                    &&& final(self).max_liquidity_per_tick == old(self).max_liquidity_per_tick
                },
            },
            r.is_ok() ==> is_tick_of_price(
                final(self).slot_0.tick as int,
                final(self).slot_0.sqrt_price_x96@,
            ),
            r.is_ok() && final(self).slot_0.sqrt_price_x96@ < highest_sqrt_ratio() ==> final(self)
                .slot_0.tick == tick_at_sqrt_ratio(final(self).slot_0.sqrt_price_x96@),
    {
        if self.slot_0.sqrt_price_x96.is_zero() {
            return Err(PoolError::NotInitialized);
        }
        let limit = match sqrt_price_limit_x96 {
            Some(limit) => limit,
            None => if zero_for_one {
                TickConstants::min_sqrt_ratio()
            } else {
                TickConstants::max_sqrt_ratio()
            },
        };
        proof {
            U256::lemma_from_number(limit);
        }
        if (zero_for_one && limit.is_gt(self.slot_0.sqrt_price_x96)) || (!zero_for_one
            && limit.is_lt(self.slot_0.sqrt_price_x96)) || limit.is_lt(
            TickConstants::min_sqrt_ratio(),
        ) || limit.is_gt(TickConstants::max_sqrt_ratio()) {
            return Err(PoolError::InvalidPriceLimit);
        }
        let mut state = SwapState {
            amount_specified_remaining: amount_specified,
            amount_calculated: 0,
            sqrt_price_x96: self.slot_0.sqrt_price_x96,
            tick: self.slot_0.tick,
            fee_growth_global_x128: if zero_for_one {
                self.fee_growth_global_0_x128
            } else {
                self.fee_growth_global_1_x128
            },
            liquidity: self.liquidity,
        };
        let mut crossed: Vec<(i32, TickInfo)> = Vec::new();
        let ghost start = state;
        let ghost mut ticks: Map<i32, TickInfo> = self.ticks@;
        let ghost mut steps: nat = most_steps();
        loop
            invariant
                self.wf(),
                *self == *old(self),
                self.state_fits(state, zero_for_one, limit),
                state.amount_specified_remaining <= amount_specified,
                swap_is_done(state, limit) || steps >= steps_left(state, zero_for_one),
                self.swap_run(ticks, state, zero_for_one, limit, steps) == self.swap_run(
                    self.ticks@,
                    start,
                    zero_for_one,
                    limit,
                    most_steps(),
                ),
                ticks == with_crossed(self.ticks@, crossed@),
                self.is_ahead(ticks, state, zero_for_one),
                self.initialized(),
                !self.limit_is_invalid(zero_for_one, limit),
                limit == Pool::swap_limit(zero_for_one, sqrt_price_limit_x96),
                start == self.swap_start(zero_for_one, amount_specified),
            ensures
                swap_is_done(state, limit),
            decreases steps,
        {
            if state.amount_specified_remaining == 0 || state.sqrt_price_x96 == limit {
                break ;
            }
            proof {
                if state.sqrt_price_x96@ == limit@ {
                    lemma_view_injective(state.sqrt_price_x96, limit);
                }
            }
            let (next, crossing) = match self.take_step(&state, zero_for_one, limit, Ghost(ticks)) {
                Ok(taken) => taken,
                Err(e) => {
                    proof {
                        assert(steps > 0);
                        assert(self.swap_run(ticks, state, zero_for_one, limit, steps) == Err::<
                            (SwapState, Map<i32, TickInfo>),
                            PoolError,
                        >(e));
                    }
                    return Err(e);
                },
            };
            match crossing {
                Some(entry) => {
                    let ghost before = crossed@;
                    crossed.push(entry);
                    proof {
                        assert(crossed@.drop_last() =~= before);
                        ticks = ticks.insert(entry.0, entry.1);
                    }
                },
                None => {},
            }
            state = next;
            proof {
                steps = (steps - 1) as nat;
            }
        }
        self.commit_swap(&state, &crossed, zero_for_one, Ghost(ticks));
        Ok([amount_specified - state.amount_specified_remaining, state.amount_calculated])
    }

    /// Whether a map of ticks agrees with the registry of the pool on the
    /// ticks that a swap has not crossed yet, and on the gross liquidity of
    /// every tick.
    pub open spec fn is_ahead(
        &self,
        ticks: Map<i32, TickInfo>,
        state: SwapState,
        zero_for_one: bool,
    ) -> bool {
        &&& forall|tick: i32|
            (if zero_for_one {
                tick <= state.tick
            } else {
                tick > state.tick
            }) ==> #[trigger] info_in(ticks, tick) == self.tick_info(tick)
        &&& forall|tick: i32| #[trigger]
            info_in(ticks, tick).liquidity_gross == self.tick_info(tick).liquidity_gross
    }

    /// Takes one step of a swap that is not over: returns the next state
    /// and, where a tick was crossed, that tick as it is after the crossing.
    #[verifier::rlimit(100)]
    #[verifier::spinoff_prover]
    fn take_step(
        &self,
        state: &SwapState,
        zero_for_one: bool,
        limit: U160,
        Ghost(ticks): Ghost<Map<i32, TickInfo>>,
    ) -> (r: Result<(SwapState, Option<(i32, TickInfo)>), PoolError>)
        requires
            self.wf(),
            self.state_fits(*state, zero_for_one, limit),
            !swap_is_done(*state, limit),
            self.is_ahead(ticks, *state, zero_for_one),
        ensures
            match self.swap_step(ticks, *state, zero_for_one, limit) {
                Err(e) => r == Err::<(SwapState, Option<(i32, TickInfo)>), PoolError>(e),
                Ok((next, after)) => {
                    &&& r.is_ok()
                    &&& r.unwrap().0 == next
                    &&& after == (match r.unwrap().1 {
                        Some(entry) => ticks.insert(entry.0, entry.1),
                        None => ticks,
                    })
                    &&& self.state_fits(next, zero_for_one, limit)
                    &&& next.amount_specified_remaining <= state.amount_specified_remaining
                    &&& swap_is_done(next, limit) || steps_left(next, zero_for_one) < steps_left(
                        *state,
                        zero_for_one,
                    )
                    &&& self.is_ahead(after, next, zero_for_one)
                },
            },
    {
        reveal(Pool::swap_step);
        let step = match self.plan_step(state, zero_for_one, limit) {
            Ok(step) => step,
            Err(e) => {
                return Err(e);
            },
        };
        let taken = match self.apply_step(state, &step, zero_for_one, Ghost(ticks)) {
            Ok(taken) => taken,
            Err(e) => {
                return Err(e);
            },
        };
        proof {
            let next = taken.0;
            let after = match taken.1 {
                Some(entry) => ticks.insert(entry.0, entry.1),
                None => ticks,
            };
            self.lemma_step_advances(*state, step, next, zero_for_one, limit);
            if zero_for_one && taken.1.is_some() {
                assert(next.tick < state.tick);
            }
            assert forall|tick: i32|
                (if zero_for_one {
                    tick <= next.tick
                } else {
                    tick > next.tick
                }) implies #[trigger] info_in(after, tick) == self.tick_info(tick) by {
                assert(info_in(ticks, tick) == self.tick_info(tick));
            }
            assert forall|tick: i32| #[trigger]
                info_in(after, tick).liquidity_gross == self.tick_info(tick).liquidity_gross by {
                assert(info_in(ticks, tick).liquidity_gross == self.tick_info(
                    tick,
                ).liquidity_gross);
            }
        }
        Ok(taken)
    }

    /// A step moves the tick in the direction of the swap, and unless it
    /// ends the swap it arrives at a tick or leaves one.
    proof fn lemma_step_advances(
        &self,
        state: SwapState,
        step: StepState,
        next: SwapState,
        zero_for_one: bool,
        limit: U160,
    )
        requires
            self.wf(),
            self.state_fits(state, zero_for_one, limit),
            MIN_TICK <= step.next_tick <= MAX_TICK,
            step.next_tick as int % (self.tick_spacing as int) == 0,
            step.on_tick == self.stands_on_tick(state, zero_for_one),
            step.on_tick ==> step.next_tick < state.tick,
            zero_for_one ==> step.next_tick <= state.tick,
            !zero_for_one ==> step.next_tick > state.tick,
            step.sqrt_price_next_x96@ == sqrt_ratio_at_tick(step.next_tick as int),
            zero_for_one ==> limit@ <= step.sqrt_price_after_x96@ <= state.sqrt_price_x96@,
            !zero_for_one ==> state.sqrt_price_x96@ <= step.sqrt_price_after_x96@ <= limit@,
            step.sqrt_price_after_x96@ != step.sqrt_price_next_x96@ && step.sqrt_price_after_x96@
                != limit@ ==> next.amount_specified_remaining == 0,
            next.sqrt_price_x96 == step.sqrt_price_after_x96,
            MIN_TICK <= next.tick <= MAX_TICK,
            is_tick_of_price(next.tick as int, next.sqrt_price_x96@),
        ensures
            zero_for_one ==> next.tick <= state.tick,
            !zero_for_one ==> next.tick >= state.tick,
            zero_for_one && step.on_tick && next.sqrt_price_x96@ != state.sqrt_price_x96@
                ==> next.tick < state.tick,
            !zero_for_one && next.sqrt_price_x96@ == step.sqrt_price_next_x96@ ==> next.tick
                == step.next_tick,
            swap_is_done(next, limit) || steps_left(next, zero_for_one) < steps_left(
                state,
                zero_for_one,
            ),
    {
        lemma_sqrt_ratio_at_bounds();
        crate::tick_order::lemma_tick_of_its_price(step.next_tick as int);
        crate::tick_order::lemma_tick_of_its_price(state.tick as int);
        if zero_for_one {
            crate::tick_order::lemma_tick_of_price_is_monotone(
                next.sqrt_price_x96@,
                state.sqrt_price_x96@,
                next.tick as int,
                state.tick as int,
            );
        } else {
            crate::tick_order::lemma_tick_of_price_is_monotone(
                state.sqrt_price_x96@,
                next.sqrt_price_x96@,
                state.tick as int,
                next.tick as int,
            );
        }
    }

    /// Writes the result of a swap to the pool: the crossed ticks and the
    /// state in which the swap ended.
    fn commit_swap(
        &mut self,
        state: &SwapState,
        crossed: &Vec<(i32, TickInfo)>,
        zero_for_one: bool,
        Ghost(ticks): Ghost<Map<i32, TickInfo>>,
    )
        requires
            old(self).wf(),
            old(self).initialized(),
            ticks == with_crossed(old(self).ticks@, crossed@),
            lowest_sqrt_ratio() <= state.sqrt_price_x96@ <= highest_sqrt_ratio(),
            is_tick_of_price(state.tick as int, state.sqrt_price_x96@),
            forall|tick: i32| #[trigger]
                info_in(ticks, tick).liquidity_gross == old(self).tick_info(tick).liquidity_gross,
        ensures
            final(self).wf(),
            final(self).slot_0 == (Slot0 { sqrt_price_x96: state.sqrt_price_x96, tick: state.tick }),
            final(self).liquidity == state.liquidity,
            final(self).fee_growth_global_0_x128 == (if zero_for_one {
                state.fee_growth_global_x128
            } else {
                old(self).fee_growth_global_0_x128
            }),
            final(self).fee_growth_global_1_x128 == (if zero_for_one {
                old(self).fee_growth_global_1_x128
            } else {
                state.fee_growth_global_x128
            }),
            final(self).ticks@ == ticks,
            final(self).tick_bitmap == old(self).tick_bitmap,
            final(self).positions == old(self).positions,
            final(self).tick_spacing == old(self).tick_spacing,
            final(self).fee == old(self).fee,
            final(self).max_liquidity_per_tick == old(self).max_liquidity_per_tick,
    {
        let ghost before = *self;
        let mut i: usize = 0;
        while i < crossed.len()
            invariant
                i <= crossed@.len(),
                self.ticks@ == with_crossed(before.ticks@, crossed@.take(i as int)),
                self.tick_spacing == before.tick_spacing,
                self.fee == before.fee,
                self.max_liquidity_per_tick == before.max_liquidity_per_tick,
                self.fee_growth_global_0_x128 == before.fee_growth_global_0_x128,
                self.fee_growth_global_1_x128 == before.fee_growth_global_1_x128,
                self.slot_0 == before.slot_0,
                self.liquidity == before.liquidity,
                self.tick_bitmap == before.tick_bitmap,
                self.positions == before.positions,
            decreases crossed@.len() - i,
        {
            let entry = crossed[i];
            self.ticks.insert(entry.0, entry.1);
            proof {
                assert(crossed@.take(i + 1).drop_last() =~= crossed@.take(i as int));
            }
            i = i + 1;
        }
        proof {
            assert(crossed@.take(crossed@.len() as int) =~= crossed@);
        }
        self.slot_0 = Slot0 { sqrt_price_x96: state.sqrt_price_x96, tick: state.tick };
        self.liquidity = state.liquidity;
        if zero_for_one {
            self.fee_growth_global_0_x128 = state.fee_growth_global_x128;
        } else {
            self.fee_growth_global_1_x128 = state.fee_growth_global_x128;
        }
        proof {
            assert forall|tick: i32|
                MIN_TICK <= tick <= MAX_TICK && tick as int % (self.tick_spacing as int)
                    == 0 implies (self.tick_bitmap.is_initialized(
                compress(tick as int, self.tick_spacing as int),
            ) <==> (#[trigger] self.tick_info(tick)).liquidity_gross != 0) by {
                assert(self.tick_info(tick) == info_in(ticks, tick));
                assert(info_in(ticks, tick).liquidity_gross == before.tick_info(
                    tick,
                ).liquidity_gross);
            }
        }
    }
}

} // verus!
