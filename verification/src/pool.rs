//! The pool: current price, liquidity in range, fee growth, the tick
//! registry, the tick bitmap and the positions, with the operations that
//! change them.
//!
//! An operation that fails leaves the pool as it was: every check is made
//! before the first change.

use vstd::prelude::*;
use std::collections::HashMap;
use crate::num256::U256;
use crate::int256::I256;
use crate::num160::U160;
use crate::tick::TickInfo;
use crate::tick::get_fee_growth_inside;
use crate::tick::fee_growth_inside;
use crate::tick::max_liquidity_per_tick;
use crate::tick::tick_spacing_to_max_liquidity_per_tick;
use crate::tick_bitmap::TickBitmap;
use crate::tick_bitmap::flip_tick;
use crate::tick_bitmap::compress;
use crate::tick_math::MIN_TICK;
use crate::tick_math::MAX_TICK;
use crate::tick_math::sqrt_ratio_at_tick;
use crate::tick_math::lowest_sqrt_ratio;
use crate::tick_math::highest_sqrt_ratio;
use crate::tick_math::tick_at_sqrt_ratio;
use crate::tick_math::get_sqrt_ratio_at_tick;
use crate::tick_math::get_tick_at_sqrt_ratio;
use crate::tick_math::is_tick_of_price;
use crate::tick_math::TickConstants;
use crate::position::PositionInfo;
use crate::liquidity_math::checked_add_delta;
use crate::sqrt_price_math::amount0_delta_signed;
use crate::sqrt_price_math::amount1_delta_signed;
use crate::sqrt_price_math::get_amount0_delta_signed;
use crate::sqrt_price_math::get_amount1_delta_signed;
use crate::sqrt_price_math::magnitude;
use crate::sqrt_price_math::lemma_amount1_bound;

verus! {

broadcast use vstd::std_specs::hash::group_hash_axioms;

/// Why an operation on the pool was refused.
#[derive(Clone, Copy, Debug, PartialEq, Eq, Structural)]
pub enum PoolError {
    /// The pool has a price already.
    AlreadyInitialized,
    /// The pool has no price yet.
    NotInitialized,
    /// The price is below the price at the lowest tick or not below the
    /// price at the highest.
    SqrtRatioOutOfRange,
    /// The ticks are not in order, not between the lowest and the highest
    /// tick, or not multiples of the tick spacing.
    InvalidTickRange,
    /// The amount of liquidity is zero.
    ZeroLiquidity,
    /// The price limit lies on the wrong side of the current price, or
    /// outside the range of prices.
    InvalidPriceLimit,
    /// The liquidity in range would fall to zero while the swap goes on.
    NotEnoughLiquidity,
    /// A liquidity would leave its range: below zero, above the most that a
    /// tick may hold, or beyond 128 bits.
    LiquidityOverflow,
    /// A position without liquidity cannot be poked.
    NoPoke,
    /// The owner has no position over the range.
    PositionNotFound,
    /// An amount of tokens does not fit in 128 bits.
    AmountOverflow,
    /// The swap would leave the range of ticks.
    TickOutOfRange,
}

impl PoolError {
    /// The words that go with the error.
    pub fn message(&self) -> (r: &'static str)
        ensures
            r@ == self.words(),
    {
        match self {
            PoolError::AlreadyInitialized => "Already initialized",
            PoolError::NotInitialized => "Not initialized",
            PoolError::SqrtRatioOutOfRange => "Sqrt ratio out of range",
            PoolError::InvalidTickRange => "Invalid tick range",
            PoolError::ZeroLiquidity => "Zero liquidity",
            PoolError::InvalidPriceLimit => "Invalid price limit",
            PoolError::NotEnoughLiquidity => "Not enough liquidity",
            PoolError::LiquidityOverflow => "LO",
            PoolError::NoPoke => "NP",
            PoolError::PositionNotFound => "Position not found",
            PoolError::AmountOverflow => "Amount overflow",
            PoolError::TickOutOfRange => "Tick out of range",
        }
    }

    /// The words that go with the error, as a sequence of characters.
    pub open spec fn words(&self) -> Seq<char> {
        match self {
            PoolError::AlreadyInitialized => "Already initialized"@,
            PoolError::NotInitialized => "Not initialized"@,
            PoolError::SqrtRatioOutOfRange => "Sqrt ratio out of range"@,
            PoolError::InvalidTickRange => "Invalid tick range"@,
            PoolError::ZeroLiquidity => "Zero liquidity"@,
            PoolError::InvalidPriceLimit => "Invalid price limit"@,
            PoolError::NotEnoughLiquidity => "Not enough liquidity"@,
            PoolError::LiquidityOverflow => "LO"@,
            PoolError::NoPoke => "NP"@,
            PoolError::PositionNotFound => "Position not found"@,
            PoolError::AmountOverflow => "Amount overflow"@,
            PoolError::TickOutOfRange => "Tick out of range"@,
        }
    }
}

/// The current price and tick of the pool. A price of zero stands for a pool
/// that has not been initialized.
#[derive(Clone, Copy, Debug, PartialEq, Eq, Structural)]
pub struct Slot0 {
    /// The current square-root price.
    pub sqrt_price_x96: U160,
    /// The current tick.
    pub tick: i32,
}

/// The owner and the tick range of a position.
#[derive(Clone, Copy, Debug, PartialEq, Eq, Structural)]
pub struct PositionKey {
    /// The owner, as a 256-bit identifier.
    pub owner: U256,
    /// The lower tick of the range.
    pub lower_tick: i32,
    /// The upper tick of the range.
    pub upper_tick: i32,
}

/// A position with its key.
#[derive(Clone, Copy, Debug)]
pub struct PositionEntry {
    /// Whose position it is, and over which range.
    pub key: PositionKey,
    /// What is kept for the position.
    pub info: PositionInfo,
}

/// What a change of a position's liquidity comes to: the new state of the
/// two ticks, of the position and of the liquidity in range, and the amounts
/// of the two tokens that the change takes (positive) or gives (negative).
#[derive(Clone, Copy, Debug)]
pub struct PositionPlan {
    /// The lower tick after the change.
    pub lower: TickInfo,
    /// The upper tick after the change.
    pub upper: TickInfo,
    /// Whether the lower tick goes from initialized to uninitialized or back.
    pub flipped_lower: bool,
    /// Whether the upper tick goes from initialized to uninitialized or back.
    pub flipped_upper: bool,
    /// The position after the change.
    pub position: PositionInfo,
    /// The amount of token0.
    pub amount_0: i128,
    /// The amount of token1.
    pub amount_1: i128,
    /// The liquidity in range after the change.
    pub liquidity: u128,
}

/// The plan of a removal with the amounts that the removal gives added to
/// what the position is owed, or an error where what is owed would leave the
/// 128-bit range.
pub open spec fn credited(plan: PositionPlan) -> Result<PositionPlan, PoolError> {
    let owed_0 = plan.position.tokens_owed_0 - plan.amount_0;
    let owed_1 = plan.position.tokens_owed_1 - plan.amount_1;
    if owed_0 > u128::MAX || owed_1 > u128::MAX {
        Err(PoolError::AmountOverflow)
    } else {
        Ok(
            PositionPlan {
                position: PositionInfo {
                    tokens_owed_0: owed_0 as u128,
                    tokens_owed_1: owed_1 as u128,
                    ..plan.position
                },
                ..plan
            },
        )
    }
}

/// The amount that a removal gives, from the signed amount that it takes.
fn given(amount: i128) -> (r: u128)
    requires
        amount <= 0,
    ensures
        r == -amount,
{
    if amount == i128::MIN {
        0x8000_0000_0000_0000_0000_0000_0000_0000
    } else {
        (-amount) as u128
    }
}

/// Adds the amounts that a removal gives to what the position is owed.
fn credit(plan: PositionPlan) -> (r: Result<PositionPlan, PoolError>)
    requires
        plan.amount_0 <= 0,
        plan.amount_1 <= 0,
    ensures
        r == credited(plan),
{
    let amount_0: u128 = given(plan.amount_0);
    let amount_1: u128 = given(plan.amount_1);
    let owed_0 = plan.position.tokens_owed_0.checked_add(amount_0);
    let owed_1 = plan.position.tokens_owed_1.checked_add(amount_1);
    match (owed_0, owed_1) {
        (Some(owed_0), Some(owed_1)) => {
            let mut position = plan.position;
            position.tokens_owed_0 = owed_0;
            position.tokens_owed_1 = owed_1;
            let mut credited = plan;
            credited.position = position;
            Ok(credited)
        },
        _ => Err(PoolError::AmountOverflow),
    }
}

/// A pool of two tokens at one fee.
pub struct Pool {
    /// The gap between usable ticks.
    pub tick_spacing: i32,
    /// The fee, in millionths of the amount that goes in.
    pub fee: u32,
    /// The most liquidity that one tick may hold.
    pub max_liquidity_per_tick: u128,
    /// The fees of token0 collected per unit of liquidity, over all time.
    pub fee_growth_global_0_x128: U256,
    /// The fees of token1 collected per unit of liquidity, over all time.
    pub fee_growth_global_1_x128: U256,
    /// The current price and tick.
    pub slot_0: Slot0,
    /// The liquidity in range at the current price.
    pub liquidity: u128,
    /// The initialized ticks.
    pub ticks: HashMap<i32, TickInfo>,
    /// One bit for each usable tick, set while the tick is initialized.
    pub tick_bitmap: TickBitmap,
    /// The positions.
    pub positions: Vec<PositionEntry>,
}

/// Whether `tick` is a multiple of `tick_spacing`.
pub(crate) fn is_aligned(tick: i32, tick_spacing: i32) -> (r: bool)
    requires
        MIN_TICK <= tick <= MAX_TICK,
        tick_spacing > 0,
    ensures
        r == (tick as int % (tick_spacing as int) == 0),
{
    let size: i32 = if tick < 0 {
        -tick
    } else {
        tick
    };
    proof {
        let ts: int = tick_spacing as int;
        vstd::arithmetic::div_mod::lemma_fundamental_div_mod(size as int, ts);
        vstd::arithmetic::div_mod::lemma_fundamental_div_mod(tick as int, ts);
        vstd::arithmetic::div_mod::lemma_mod_bound(size as int, ts);
        vstd::arithmetic::div_mod::lemma_mod_bound(tick as int, ts);
        if tick < 0 {
            let q: int = size as int / ts;
            let r: int = size as int % ts;
            if r == 0 {
                assert(tick == (-q) * ts + 0) by (nonlinear_arith)
                    requires
                        size == ts * q,
                        tick == -size,
                ;
                vstd::arithmetic::div_mod::lemma_fundamental_div_mod_converse(
                    tick as int,
                    ts,
                    -q,
                    0,
                );
            } else {
                assert(tick == (-q - 1) * ts + (ts - r)) by (nonlinear_arith)
                    requires
                        size == ts * q + r,
                        tick == -size,
                ;
                vstd::arithmetic::div_mod::lemma_fundamental_div_mod_converse(
                    tick as int,
                    ts,
                    -q - 1,
                    ts - r,
                );
            }
        }
    }
    size % tick_spacing == 0
}

impl Pool {
    /// What the registry holds for a tick: the empty state for a tick that
    /// was never written.
    pub open spec fn tick_info(&self, tick: i32) -> TickInfo {
        crate::pool_swap::info_in(self.ticks@, tick)
    }

    /// Whether there is a position with the key.
    pub open spec fn has_position(&self, key: PositionKey) -> bool {
        exists|i: int| 0 <= i < self.positions@.len() && (#[trigger] self.positions@[i]).key == key
    }

    /// What is kept for the position with the key: the empty position where
    /// there is none.
    pub open spec fn position_info(&self, key: PositionKey) -> PositionInfo {
        if self.has_position(key) {
            let i = choose|i: int|
                0 <= i < self.positions@.len() && (#[trigger] self.positions@[i]).key == key;
            self.positions@[i].info
        } else {
            PositionInfo::empty()
        }
    }

    /// Whether the pool has a price.
    pub open spec fn initialized(&self) -> bool {
        self.slot_0.sqrt_price_x96@ != 0
    }

    /// Whether the bits of the tick bitmap are those of the ticks with
    /// liquidity: a usable tick has its bit set exactly where its gross
    /// liquidity is not zero.
    pub open spec fn bitmap_matches_ticks(&self) -> bool {
        forall|tick: i32|
            MIN_TICK <= tick <= MAX_TICK && tick as int % (self.tick_spacing as int) == 0 ==> (
            self.tick_bitmap.is_initialized(compress(tick as int, self.tick_spacing as int)) <==> (
            #[trigger] self.tick_info(tick)).liquidity_gross != 0)
    }

    /// The invariant of the pool: sound parameters, a price within the range
    /// of prices whose tick is the tick of the pool, a bitmap that matches
    /// the ticks, and no two positions with one key.
    pub open spec fn wf(&self) -> bool {
        &&& 0 < self.tick_spacing <= MAX_TICK
        &&& self.fee < 1_000_000
        &&& self.max_liquidity_per_tick == max_liquidity_per_tick(self.tick_spacing as int)
        &&& self.initialized() ==> {
            &&& lowest_sqrt_ratio() <= self.slot_0.sqrt_price_x96@ <= highest_sqrt_ratio()
            &&& is_tick_of_price(self.slot_0.tick as int, self.slot_0.sqrt_price_x96@)
        }
        &&& self.bitmap_matches_ticks()
        &&& forall|i: int, j: int|
            0 <= i < j < self.positions@.len() ==> (#[trigger] self.positions@[i]).key != (
            #[trigger] self.positions@[j]).key
    }

    /// Whether two ticks bound a range of the pool: in order, between the
    /// lowest and the highest tick, and multiples of the tick spacing.
    pub open spec fn valid_range(&self, lower_tick: i32, upper_tick: i32) -> bool {
        &&& lower_tick < upper_tick
        &&& MIN_TICK <= lower_tick
        &&& upper_tick <= MAX_TICK
        &&& lower_tick as int % (self.tick_spacing as int) == 0
        &&& upper_tick as int % (self.tick_spacing as int) == 0
    }

    /// A pool without a price, ticks or positions. The tick spacing must be
    /// positive and at most the highest tick, the fee below one million.
    pub fn new(tick_spacing: u32, fee: u32) -> (r: Pool)
        requires
            0 < tick_spacing <= MAX_TICK,
            fee < 1_000_000,
        ensures
            r.wf(),
            !r.initialized(),
            r.tick_spacing == tick_spacing,
            r.fee == fee,
            r.liquidity == 0,
            r.fee_growth_global_0_x128@ == 0,
            r.fee_growth_global_1_x128@ == 0,
            r.ticks@ == Map::<i32, TickInfo>::empty(),
            r.positions@.len() == 0,
            forall|compressed: int| !r.tick_bitmap.is_initialized(compressed),
    {
        Pool {
            tick_spacing: tick_spacing as i32,
            fee,
            max_liquidity_per_tick: tick_spacing_to_max_liquidity_per_tick(tick_spacing as i32),
            fee_growth_global_0_x128: U256::zero(),
            fee_growth_global_1_x128: U256::zero(),
            slot_0: Slot0 { sqrt_price_x96: U256::zero(), tick: 0 },
            liquidity: 0,
            ticks: HashMap::new(),
            tick_bitmap: TickBitmap::new(),
            positions: Vec::new(),
        }
    }

    /// Gives the pool its first price, and the tick of that price. Refused
    /// on a pool that has a price, and for a price outside the range of
    /// prices.
    pub fn initialize(&mut self, sqrt_price_x96: U160) -> (r: Result<(), PoolError>)
        requires
            old(self).wf(),
        ensures
            final(self).wf(),
            old(self).initialized() ==> r == Err::<(), PoolError>(PoolError::AlreadyInitialized),
            !old(self).initialized() && !(lowest_sqrt_ratio() <= sqrt_price_x96@
                < highest_sqrt_ratio()) ==> r == Err::<(), PoolError>(
                PoolError::SqrtRatioOutOfRange,
            ),
            !old(self).initialized() && lowest_sqrt_ratio() <= sqrt_price_x96@
                < highest_sqrt_ratio() ==> r == Ok::<(), PoolError>(()),
            r.is_err() ==> *final(self) == *old(self),
            r.is_ok() ==> *final(self) == (Pool {
                slot_0: Slot0 {
                    sqrt_price_x96: sqrt_price_x96,
                    tick: tick_at_sqrt_ratio(sqrt_price_x96@) as i32,
                },
                ..*old(self)
            }),
    {
        if !self.slot_0.sqrt_price_x96.is_zero() {
            return Err(PoolError::AlreadyInitialized);
        }
        if sqrt_price_x96.is_lt(TickConstants::min_sqrt_ratio()) || sqrt_price_x96.is_ge(
            TickConstants::max_sqrt_ratio(),
        ) {
            return Err(PoolError::SqrtRatioOutOfRange);
        }
        let tick = get_tick_at_sqrt_ratio(sqrt_price_x96);
        self.slot_0 = Slot0 { sqrt_price_x96, tick };
        proof {
            assert(self.bitmap_matches_ticks()) by {
                assert forall|t: i32|
                    MIN_TICK <= t <= MAX_TICK && t as int % (self.tick_spacing as int)
                        == 0 implies (self.tick_bitmap.is_initialized(
                    compress(t as int, self.tick_spacing as int),
                ) <==> (#[trigger] self.tick_info(t)).liquidity_gross != 0) by {
                    assert(self.tick_info(t) == old(self).tick_info(t));
                }
            }
        }
        Ok(())
    }

    /// The current price and tick.
    pub fn get_slot_0(&self) -> (r: Slot0)
        ensures
            r == self.slot_0,
    {
        self.slot_0
    }

    /// What the registry holds for a tick.
    pub fn get_tick(&self, tick: i32) -> (r: TickInfo)
        ensures
            r == self.tick_info(tick),
    {
        match self.ticks.get(&tick) {
            Some(info) => *info,
            None => TickInfo::default(),
        }
    }

    /// The place of the position with the key, if there is one.
    fn find_position(&self, key: PositionKey) -> (r: Option<usize>)
        requires
            self.wf(),
        ensures
            r.is_some() == self.has_position(key),
            match r {
                Some(i) => i < self.positions@.len() && self.positions@[i as int].key == key
                    && self.positions@[i as int].info == self.position_info(key),
                None => true,
            },
    {
        let mut i: usize = 0;
        while i < self.positions.len()
            invariant
                self.wf(),
                i <= self.positions@.len(),
                forall|j: int| 0 <= j < i ==> (#[trigger] self.positions@[j]).key != key,
            decreases self.positions@.len() - i,
        {
            if self.positions[i].key == key {
                proof {
                    assert(self.positions@[i as int].key == key);
                    assert(self.has_position(key));
                    let j = choose|j: int|
                        0 <= j < self.positions@.len() && (#[trigger] self.positions@[j]).key
                            == key;
                    if j != i as int {
                        if j < i as int {
                            assert(self.positions@[j].key != self.positions@[i as int].key);
                        } else {
                            assert(self.positions@[i as int].key != self.positions@[j].key);
                        }
                    }
                }
                return Some(i);
            }
            i = i + 1;
        }
        None
    }

    /// What is kept for the position with the key.
    pub fn get_position(&self, key: PositionKey) -> (r: PositionInfo)
        requires
            self.wf(),
        ensures
            r == self.position_info(key),
    {
        match self.find_position(key) {
            Some(i) => self.positions[i].info,
            None => PositionInfo::default(),
        }
    }

    /// The signed amounts of the two tokens that a change of liquidity over
    /// a range comes to at the current price: below the range only token0,
    /// above it only token1, inside it both.
    pub open spec fn position_amounts(&self, key: PositionKey, liquidity_delta: int) -> (int, int) {
        let price = self.slot_0.sqrt_price_x96@;
        let lower_price = sqrt_ratio_at_tick(key.lower_tick as int);
        let upper_price = sqrt_ratio_at_tick(key.upper_tick as int);
        if self.slot_0.tick < key.lower_tick {
            (amount0_delta_signed(lower_price, upper_price, liquidity_delta), 0int)
        } else if self.slot_0.tick < key.upper_tick {
            (
                amount0_delta_signed(price, upper_price, liquidity_delta),
                amount1_delta_signed(lower_price, price, liquidity_delta),
            )
        } else {
            (0int, amount1_delta_signed(lower_price, upper_price, liquidity_delta))
        }
    }

    /// Whether the current tick lies in the range of the key.
    pub open spec fn in_range(&self, key: PositionKey) -> bool {
        key.lower_tick <= self.slot_0.tick < key.upper_tick
    }

    /// What a change of liquidity of a position comes to, or why it is
    /// refused.
    pub open spec fn position_plan(&self, key: PositionKey, liquidity_delta: int) -> Result<
        PositionPlan,
        PoolError,
    > {
        let lower_before = self.tick_info(key.lower_tick);
        let upper_before = self.tick_info(key.upper_tick);
        let position_before = self.position_info(key);
        let max_liquidity = self.max_liquidity_per_tick as nat;
        let amounts = self.position_amounts(key, liquidity_delta);
        if !self.initialized() {
            Err(PoolError::NotInitialized)
        } else if !self.valid_range(key.lower_tick, key.upper_tick) {
            Err(PoolError::InvalidTickRange)
        } else if !lower_before.accepts(liquidity_delta, false, max_liquidity)
            || !upper_before.accepts(liquidity_delta, true, max_liquidity) {
            Err(PoolError::LiquidityOverflow)
        } else if liquidity_delta == 0 && position_before.liquidity == 0 {
            Err(PoolError::NoPoke)
        } else if !position_before.accepts(liquidity_delta) {
            Err(PoolError::LiquidityOverflow)
        } else if !(i128::MIN <= amounts.0 <= i128::MAX && i128::MIN <= amounts.1 <= i128::MAX) {
            Err(PoolError::AmountOverflow)
        } else if self.in_range(key) && !(0 <= self.liquidity + liquidity_delta <= u128::MAX) {
            Err(PoolError::LiquidityOverflow)
        } else {
            let lower = lower_before.updated(
                key.lower_tick as int,
                self.slot_0.tick as int,
                liquidity_delta,
                self.fee_growth_global_0_x128,
                self.fee_growth_global_1_x128,
                false,
            );
            let upper = upper_before.updated(
                key.upper_tick as int,
                self.slot_0.tick as int,
                liquidity_delta,
                self.fee_growth_global_0_x128,
                self.fee_growth_global_1_x128,
                true,
            );
            Ok(
                PositionPlan {
                    lower,
                    upper,
                    flipped_lower: (lower.liquidity_gross == 0) != (lower_before.liquidity_gross
                        == 0),
                    flipped_upper: (upper.liquidity_gross == 0) != (upper_before.liquidity_gross
                        == 0),
                    position: position_before.updated(
                        liquidity_delta,
                        U256::from_number(
                            fee_growth_inside(
                                key.lower_tick as int,
                                key.upper_tick as int,
                                lower.fee_growth_outside_0_x128@,
                                upper.fee_growth_outside_0_x128@,
                                self.slot_0.tick as int,
                                self.fee_growth_global_0_x128@,
                            ),
                        ),
                        U256::from_number(
                            fee_growth_inside(
                                key.lower_tick as int,
                                key.upper_tick as int,
                                lower.fee_growth_outside_1_x128@,
                                upper.fee_growth_outside_1_x128@,
                                self.slot_0.tick as int,
                                self.fee_growth_global_1_x128@,
                            ),
                        ),
                    ),
                    amount_0: amounts.0 as i128,
                    amount_1: amounts.1 as i128,
                    liquidity: if self.in_range(key) {
                        (self.liquidity + liquidity_delta) as u128
                    } else {
                        self.liquidity
                    },
                },
            )
        }
    }

    /// Works out what a change of liquidity of a position comes to, without
    /// changing the pool.
    pub fn plan_position(&self, key: PositionKey, liquidity_delta: i128) -> (r: Result<
        PositionPlan,
        PoolError,
    >)
        requires
            self.wf(),
        ensures
            r == self.position_plan(key, liquidity_delta as int),
    {
        if self.slot_0.sqrt_price_x96.is_zero() {
            return Err(PoolError::NotInitialized);
        }
        if key.lower_tick >= key.upper_tick || key.lower_tick < MIN_TICK || key.upper_tick
            > MAX_TICK {
            return Err(PoolError::InvalidTickRange);
        }
        if !is_aligned(key.lower_tick, self.tick_spacing) || !is_aligned(
            key.upper_tick,
            self.tick_spacing,
        ) {
            return Err(PoolError::InvalidTickRange);
        }
        let current_tick = self.slot_0.tick;
        let price = self.slot_0.sqrt_price_x96;
        let mut lower = self.get_tick(key.lower_tick);
        let mut upper = self.get_tick(key.upper_tick);
        if !lower.can_update(liquidity_delta, false, self.max_liquidity_per_tick)
            || !upper.can_update(liquidity_delta, true, self.max_liquidity_per_tick) {
            return Err(PoolError::LiquidityOverflow);
        }
        let mut position = self.get_position(key);
        if liquidity_delta == 0 && position.liquidity == 0 {
            return Err(PoolError::NoPoke);
        }
        if !position.can_update(liquidity_delta) {
            return Err(PoolError::LiquidityOverflow);
        }
        let flipped_lower = lower.update(
            key.lower_tick,
            current_tick,
            liquidity_delta,
            self.fee_growth_global_0_x128,
            self.fee_growth_global_1_x128,
            false,
            self.max_liquidity_per_tick,
        );
        let flipped_upper = upper.update(
            key.upper_tick,
            current_tick,
            liquidity_delta,
            self.fee_growth_global_0_x128,
            self.fee_growth_global_1_x128,
            true,
            self.max_liquidity_per_tick,
        );
        let inside = get_fee_growth_inside(
            key.lower_tick,
            key.upper_tick,
            &lower,
            &upper,
            current_tick,
            self.fee_growth_global_0_x128,
            self.fee_growth_global_1_x128,
        );
        proof {
            U256::lemma_from_number(inside[0]);
            U256::lemma_from_number(inside[1]);
        }
        position.update(liquidity_delta, inside[0], inside[1]);

        let lower_price = get_sqrt_ratio_at_tick(key.lower_tick);
        let upper_price = get_sqrt_ratio_at_tick(key.upper_tick);
        proof {
            let size: nat = magnitude(liquidity_delta as int);
            crate::tick_order::lemma_sqrt_ratio_in_range(key.lower_tick as int);
            lemma_amount1_bound(lower_price@, upper_price@, size, liquidity_delta >= 0);
            lemma_amount1_bound(lower_price@, price@, size, liquidity_delta >= 0);
        }
        let amount_0: I256;
        let amount_1: I256;
        if current_tick < key.lower_tick {
            amount_0 = get_amount0_delta_signed(lower_price, upper_price, liquidity_delta);
            amount_1 = I256::zero();
        } else if current_tick < key.upper_tick {
            amount_0 = get_amount0_delta_signed(price, upper_price, liquidity_delta);
            amount_1 = get_amount1_delta_signed(lower_price, price, liquidity_delta);
        } else {
            amount_0 = I256::zero();
            amount_1 = get_amount1_delta_signed(lower_price, upper_price, liquidity_delta);
        }
        let (amount_0, amount_1) = match (amount_0.checked_as_i128(), amount_1.checked_as_i128()) {
            (Some(amount_0), Some(amount_1)) => (amount_0, amount_1),
            _ => {
                return Err(PoolError::AmountOverflow);
            },
        };
        let liquidity = if key.lower_tick <= current_tick && current_tick < key.upper_tick {
            match checked_add_delta(self.liquidity, liquidity_delta) {
                Some(liquidity) => liquidity,
                None => {
                    return Err(PoolError::LiquidityOverflow);
                },
            }
        } else {
            self.liquidity
        };
        Ok(
            PositionPlan {
                lower,
                upper,
                flipped_lower,
                flipped_upper,
                position,
                amount_0,
                amount_1,
                liquidity,
            },
        )
    }

    /// Whether `after` is `before` with a plan for the position `key`
    /// carried out: the two ticks and the position replaced, the bits of the
    /// flipped ticks flipped, the liquidity in range as planned, and nothing
    /// else changed.
    pub open spec fn is_applied(before: Pool, key: PositionKey, plan: PositionPlan, after: Pool)
        -> bool {
        &&& after.tick_spacing == before.tick_spacing
        &&& after.fee == before.fee
        &&& after.max_liquidity_per_tick == before.max_liquidity_per_tick
        &&& after.fee_growth_global_0_x128 == before.fee_growth_global_0_x128
        &&& after.fee_growth_global_1_x128 == before.fee_growth_global_1_x128
        &&& after.slot_0 == before.slot_0
        &&& after.liquidity == plan.liquidity
        &&& after.ticks@ == before.ticks@.insert(key.lower_tick, plan.lower).insert(
            key.upper_tick,
            plan.upper,
        )
        &&& after.has_position(key)
        &&& after.position_info(key) == plan.position
        &&& forall|other: PositionKey|
            other != key ==> #[trigger] after.has_position(other) == before.has_position(other)
                && after.position_info(other) == before.position_info(other)
        &&& forall|compressed: int| #[trigger]
            after.tick_bitmap.is_initialized(compressed) == (before.tick_bitmap.is_initialized(
                compressed,
            ) != ((plan.flipped_lower && compressed == compress(
                key.lower_tick as int,
                before.tick_spacing as int,
            )) || (plan.flipped_upper && compressed == compress(
                key.upper_tick as int,
                before.tick_spacing as int,
            ))))
    }

    /// Carries out a plan for a position.
    fn apply_plan(&mut self, key: PositionKey, plan: PositionPlan)
        requires
            old(self).wf(),
            old(self).valid_range(key.lower_tick, key.upper_tick),
            plan.flipped_lower == ((plan.lower.liquidity_gross == 0) != (old(self).tick_info(
                key.lower_tick,
            ).liquidity_gross == 0)),
            plan.flipped_upper == ((plan.upper.liquidity_gross == 0) != (old(self).tick_info(
                key.upper_tick,
            ).liquidity_gross == 0)),
        ensures
            final(self).wf(),
            Pool::is_applied(*old(self), key, plan, *final(self)),
    {
        let ghost before = *self;
        let ghost ts: int = self.tick_spacing as int;
        let place = self.find_position(key);
        self.ticks.insert(key.lower_tick, plan.lower);
        self.ticks.insert(key.upper_tick, plan.upper);
        if plan.flipped_lower {
            flip_tick(&mut self.tick_bitmap, key.lower_tick, self.tick_spacing);
        }
        if plan.flipped_upper {
            flip_tick(&mut self.tick_bitmap, key.upper_tick, self.tick_spacing);
        }
        let entry = PositionEntry { key, info: plan.position };
        match place {
            Some(i) => {
                self.positions.set(i, entry);
            },
            None => {
                self.positions.push(entry);
            },
        }
        self.liquidity = plan.liquidity;
        proof {
            let lower_c: int = compress(key.lower_tick as int, ts);
            let upper_c: int = compress(key.upper_tick as int, ts);
            vstd::arithmetic::div_mod::lemma_fundamental_div_mod(key.lower_tick as int, ts);
            vstd::arithmetic::div_mod::lemma_fundamental_div_mod(key.upper_tick as int, ts);
            assert(lower_c != upper_c);
            // the positions
            let index: int = match place {
                Some(i) => i as int,
                None => before.positions@.len() as int,
            };
            assert(self.positions@[index].key == key);
            assert forall|i: int, j: int| 0 <= i < j < self.positions@.len() implies (
            #[trigger] self.positions@[i]).key != (#[trigger] self.positions@[j]).key by {
                if i != index && j != index {
                    assert(self.positions@[i] == before.positions@[i]);
                    assert(self.positions@[j] == before.positions@[j]);
                } else if i == index {
                    if place.is_some() {
                        assert(self.positions@[j] == before.positions@[j]);
                        assert(before.positions@[i].key != before.positions@[j].key);
                    }
                } else {
                    assert(self.positions@[i] == before.positions@[i]);
                    if place.is_some() {
                        assert(before.positions@[i].key != before.positions@[j].key);
                    } else {
                        assert(!before.has_position(key));
                    }
                }
            }
            assert(self.has_position(key));
            assert(self.position_info(key) == plan.position) by {
                let j = choose|j: int|
                    0 <= j < self.positions@.len() && (#[trigger] self.positions@[j]).key == key;
                if j < index {
                    assert(self.positions@[j].key != self.positions@[index].key);
                }
                if index < j {
                    assert(self.positions@[index].key != self.positions@[j].key);
                }
            }
            assert forall|other: PositionKey| other != key implies #[trigger] self.has_position(
                other,
            ) == before.has_position(other) && self.position_info(other) == before.position_info(
                other,
            ) by {
                if before.has_position(other) {
                    let j = choose|j: int|
                        0 <= j < before.positions@.len() && (#[trigger] before.positions@[j]).key
                            == other;
                    assert(self.positions@[j] == before.positions@[j]);
                    assert(self.has_position(other));
                    let k = choose|k: int|
                        0 <= k < self.positions@.len() && (#[trigger] self.positions@[k]).key
                            == other;
                    if k < j {
                        assert(self.positions@[k].key != self.positions@[j].key);
                    }
                    if j < k {
                        assert(self.positions@[j].key != self.positions@[k].key);
                    }
                }
                if self.has_position(other) {
                    let k = choose|k: int|
                        0 <= k < self.positions@.len() && (#[trigger] self.positions@[k]).key
                            == other;
                    assert(k != index);
                    assert(self.positions@[k] == before.positions@[k]);
                    assert(before.has_position(other));
                }
            }
            // the bitmap and the ticks
            assert forall|tick: i32|
                MIN_TICK <= tick <= MAX_TICK && tick as int % ts == 0 implies (
            self.tick_bitmap.is_initialized(compress(tick as int, ts)) <==> (
            #[trigger] self.tick_info(tick)).liquidity_gross != 0) by {
                vstd::arithmetic::div_mod::lemma_fundamental_div_mod(tick as int, ts);
                let c: int = compress(tick as int, ts);
                assert((c == lower_c) == (tick == key.lower_tick));
                assert((c == upper_c) == (tick == key.upper_tick));
                assert(before.tick_bitmap.is_initialized(c) <==> before.tick_info(
                    tick,
                ).liquidity_gross != 0);
                if tick != key.lower_tick && tick != key.upper_tick {
                    assert(self.tick_info(tick) == before.tick_info(tick));
                }
            }
        }
    }

    /// Changes the liquidity of the position of `owner` over a tick range by
    /// `liquidity_delta`: updates the two ticks, flips their bits where they
    /// go from initialized to uninitialized or back, credits the fees earned
    /// to the position, and returns the amounts of token0 and of token1 that
    /// the change takes (positive) or gives (negative).
    pub fn modify_position(
        &mut self,
        owner: U256,
        lower_tick: i32,
        upper_tick: i32,
        liquidity_delta: i128,
    ) -> (r: Result<[i128; 2], PoolError>)
        requires
            old(self).wf(),
        ensures
            final(self).wf(),
            match old(self).position_plan(
                PositionKey { owner, lower_tick, upper_tick },
                liquidity_delta as int,
            ) {
                Err(e) => r == Err::<[i128; 2], PoolError>(e) && *final(self) == *old(self),
                Ok(plan) => r.is_ok() && r.unwrap()[0] == plan.amount_0 && r.unwrap()[1]
                    == plan.amount_1 && Pool::is_applied(
                    *old(self),
                    PositionKey { owner, lower_tick, upper_tick },
                    plan,
                    *final(self),
                ),
            },
    {
        let key = PositionKey { owner, lower_tick, upper_tick };
        match self.plan_position(key, liquidity_delta) {
            Err(e) => Err(e),
            Ok(plan) => {
                self.apply_plan(key, plan);
                Ok([plan.amount_0, plan.amount_1])
            },
        }
    }

    /// What minting `amount` of liquidity comes to, or why it is refused.
    pub open spec fn mint_plan(&self, key: PositionKey, amount: u128) -> Result<
        PositionPlan,
        PoolError,
    > {
        if key.lower_tick >= key.upper_tick || key.lower_tick < MIN_TICK || key.upper_tick
            > MAX_TICK {
            Err(PoolError::InvalidTickRange)
        } else if amount == 0 {
            Err(PoolError::ZeroLiquidity)
        } else if amount > i128::MAX {
            Err(PoolError::LiquidityOverflow)
        } else {
            self.position_plan(key, amount as int)
        }
    }

    /// Adds `amount` of liquidity to the position of `owner` over a tick
    /// range, and returns the amounts of token0 and of token1 that this
    /// takes. Collecting the tokens is left to the caller.
    pub fn mint(&mut self, owner: U256, lower_tick: i32, upper_tick: i32, amount: u128) -> (r:
        Result<[u128; 2], PoolError>)
        requires
            old(self).wf(),
        ensures
            final(self).wf(),
            match old(self).mint_plan(PositionKey { owner, lower_tick, upper_tick }, amount) {
                Err(e) => r == Err::<[u128; 2], PoolError>(e) && *final(self) == *old(self),
                Ok(plan) => r.is_ok() && r.unwrap()[0] == plan.amount_0 && r.unwrap()[1]
                    == plan.amount_1 && Pool::is_applied(
                    *old(self),
                    PositionKey { owner, lower_tick, upper_tick },
                    plan,
                    *final(self),
                ),
            },
    {
        let key = PositionKey { owner, lower_tick, upper_tick };
        if lower_tick >= upper_tick || lower_tick < MIN_TICK || upper_tick > MAX_TICK {
            return Err(PoolError::InvalidTickRange);
        }
        if amount == 0 {
            return Err(PoolError::ZeroLiquidity);
        }
        if amount > i128::MAX as u128 {
            return Err(PoolError::LiquidityOverflow);
        }
        match self.plan_position(key, amount as i128) {
            Err(e) => Err(e),
            Ok(plan) => {
                self.apply_plan(key, plan);
                Ok([plan.amount_0 as u128, plan.amount_1 as u128])
            },
        }
    }

    /// What burning `amount` of liquidity comes to, or why it is refused:
    /// the plan for the removal, with the amounts that the removal gives
    /// added to what the position is owed.
    pub open spec fn burn_plan(&self, key: PositionKey, amount: u128) -> Result<
        PositionPlan,
        PoolError,
    > {
        if key.lower_tick >= key.upper_tick || key.lower_tick < MIN_TICK || key.upper_tick
            > MAX_TICK {
            Err(PoolError::InvalidTickRange)
        } else if amount == 0 {
            Err(PoolError::ZeroLiquidity)
        } else if amount > i128::MAX {
            Err(PoolError::LiquidityOverflow)
        } else {
            match self.position_plan(key, -(amount as int)) {
                Err(e) => Err(e),
                Ok(plan) => credited(plan),
            }
        }
    }

    /// Removes `amount` of liquidity from the position of `owner` over a
    /// tick range, and returns the amounts of token0 and of token1 that this
    /// gives. The amounts are added to what the position is owed; `collect`
    /// pays them out.
    pub fn burn(&mut self, owner: U256, lower_tick: i32, upper_tick: i32, amount: u128) -> (r:
        Result<[u128; 2], PoolError>)
        requires
            old(self).wf(),
        ensures
            final(self).wf(),
            match old(self).burn_plan(PositionKey { owner, lower_tick, upper_tick }, amount) {
                Err(e) => r == Err::<[u128; 2], PoolError>(e) && *final(self) == *old(self),
                Ok(plan) => r.is_ok() && r.unwrap()[0] == -plan.amount_0 && r.unwrap()[1]
                    == -plan.amount_1 && Pool::is_applied(
                    *old(self),
                    PositionKey { owner, lower_tick, upper_tick },
                    plan,
                    *final(self),
                ),
            },
    {
        let key = PositionKey { owner, lower_tick, upper_tick };
        if lower_tick >= upper_tick || lower_tick < MIN_TICK || upper_tick > MAX_TICK {
            return Err(PoolError::InvalidTickRange);
        }
        if amount == 0 {
            return Err(PoolError::ZeroLiquidity);
        }
        if amount > i128::MAX as u128 {
            return Err(PoolError::LiquidityOverflow);
        }
        let plan = match self.plan_position(key, -(amount as i128)) {
            Err(e) => {
                return Err(e);
            },
            Ok(plan) => plan,
        };
        proof {
            self.lemma_removal_amounts(key, -(amount as int));
        }
        match credit(plan) {
            Err(e) => Err(e),
            Ok(credited) => {
                self.apply_plan(key, credited);
                Ok([given(plan.amount_0), given(plan.amount_1)])
            },
        }
    }

    /// The amounts of a removal of liquidity are not positive, and those of
    /// an addition not negative.
    pub proof fn lemma_removal_amounts(&self, key: PositionKey, liquidity_delta: int)
        ensures
            liquidity_delta < 0 ==> self.position_amounts(key, liquidity_delta).0 <= 0
                && self.position_amounts(key, liquidity_delta).1 <= 0,
            liquidity_delta >= 0 ==> self.position_amounts(key, liquidity_delta).0 >= 0
                && self.position_amounts(key, liquidity_delta).1 >= 0,
    {
    }

    /// A mint of the liquidity that desired amounts provide over a tick range
    /// at the current price takes no more than the desired amounts of either
    /// token.
    pub proof fn lemma_mint_within_desired(&self, key: PositionKey, amount_0: nat, amount_1: nat)
        requires
            self.wf(),
            self.initialized(),
            self.valid_range(key.lower_tick, key.upper_tick),
        ensures
            ({
                let liquidity = crate::liquidity_math::liquidity_for_amounts(
                    self.slot_0.sqrt_price_x96@,
                    sqrt_ratio_at_tick(key.lower_tick as int),
                    sqrt_ratio_at_tick(key.upper_tick as int),
                    amount_0,
                    amount_1,
                );
                &&& 0 <= self.position_amounts(key, liquidity as int).0 <= amount_0
                &&& 0 <= self.position_amounts(key, liquidity as int).1 <= amount_1
            }),
    {
        let price: nat = self.slot_0.sqrt_price_x96@;
        let tick: int = self.slot_0.tick as int;
        let lower: nat = sqrt_ratio_at_tick(key.lower_tick as int);
        let upper: nat = sqrt_ratio_at_tick(key.upper_tick as int);
        let liquidity: nat = crate::liquidity_math::liquidity_for_amounts(
            price,
            lower,
            upper,
            amount_0,
            amount_1,
        );
        crate::tick_math::lemma_sqrt_ratio_at_bounds();
        crate::tick_order::lemma_sqrt_ratio_in_range(key.lower_tick as int);
        crate::tick_order::lemma_sqrt_ratio_in_range(key.upper_tick as int);
        crate::tick_order::lemma_sqrt_ratio_increases(
            key.lower_tick as int,
            key.upper_tick as int,
        );
        crate::liquidity_math::lemma_liquidity_within_amounts(
            price,
            lower,
            upper,
            amount_0,
            amount_1,
        );
        // where the current tick lies says where the current price lies
        if tick < key.lower_tick {
            if tick + 1 < key.lower_tick {
                crate::tick_order::lemma_sqrt_ratio_increases(tick + 1, key.lower_tick as int);
            }
            assert(price <= lower);
        } else {
            if key.lower_tick < tick {
                crate::tick_order::lemma_sqrt_ratio_increases(key.lower_tick as int, tick);
            }
            assert(lower <= price);
            if tick < key.upper_tick {
                if tick + 1 < key.upper_tick {
                    crate::tick_order::lemma_sqrt_ratio_increases(
                        tick + 1,
                        key.upper_tick as int,
                    );
                }
                assert(price <= upper);
            } else {
                if key.upper_tick < tick {
                    crate::tick_order::lemma_sqrt_ratio_increases(key.upper_tick as int, tick);
                }
                assert(upper <= price);
            }
        }
        // no token moves between a price and itself
        assert(liquidity * crate::num256::two_96() * 0 == 0);
        assert(liquidity * 0 == 0);
        crate::full_math::lemma_div_ceil_bounds(0, upper);
        crate::full_math::lemma_div_ceil_bounds(0, lower);
        crate::full_math::lemma_div_ceil_bounds(0, crate::num256::two_96());
    }

    /// Pays out what the position of `owner` over a tick range is owed, up
    /// to the amounts requested, and returns the amounts of token0 and of
    /// token1 paid. The transfer of the tokens is left to the caller.
    pub fn collect(
        &mut self,
        owner: U256,
        lower_tick: i32,
        upper_tick: i32,
        amount_0_requested: u128,
        amount_1_requested: u128,
    ) -> (r: Result<[u128; 2], PoolError>)
        requires
            old(self).wf(),
        ensures
            final(self).wf(),
            (lower_tick >= upper_tick || lower_tick < MIN_TICK || upper_tick > MAX_TICK) ==> r
                == Err::<[u128; 2], PoolError>(PoolError::InvalidTickRange),
            !(lower_tick >= upper_tick || lower_tick < MIN_TICK || upper_tick > MAX_TICK) && !old(
                self,
            ).has_position(PositionKey { owner, lower_tick, upper_tick }) ==> r == Err::<
                [u128; 2],
                PoolError,
            >(PoolError::PositionNotFound),
            r.is_err() ==> *final(self) == *old(self),
            !(lower_tick >= upper_tick || lower_tick < MIN_TICK || upper_tick > MAX_TICK) && old(
                self,
            ).has_position(PositionKey { owner, lower_tick, upper_tick }) ==> {
                let key = PositionKey { owner, lower_tick, upper_tick };
                let before = old(self).position_info(key);
                let paid_0 = if before.tokens_owed_0 < amount_0_requested {
                    before.tokens_owed_0
                } else {
                    amount_0_requested
                };
                let paid_1 = if before.tokens_owed_1 < amount_1_requested {
                    before.tokens_owed_1
                } else {
                    amount_1_requested
                };
                &&& r.is_ok()
                &&& r.unwrap()[0] == paid_0
                &&& r.unwrap()[1] == paid_1
                &&& final(self).has_position(key)
                &&& final(self).position_info(key) == (PositionInfo {
                    tokens_owed_0: (before.tokens_owed_0 - paid_0) as u128,
                    tokens_owed_1: (before.tokens_owed_1 - paid_1) as u128,
                    ..before
                })
                &&& forall|other: PositionKey|
                    other != key ==> #[trigger] final(self).has_position(other) == old(
                        self,
                    ).has_position(other) && final(self).position_info(other) == old(
                        self,
                    ).position_info(other)
                &&& final(self).tick_spacing == old(self).tick_spacing
                &&& final(self).fee == old(self).fee
                &&& final(self).max_liquidity_per_tick == old(self).max_liquidity_per_tick
                &&& final(self).fee_growth_global_0_x128 == old(self).fee_growth_global_0_x128
                &&& final(self).fee_growth_global_1_x128 == old(self).fee_growth_global_1_x128
                &&& final(self).slot_0 == old(self).slot_0
                &&& final(self).liquidity == old(self).liquidity
                &&& final(self).ticks == old(self).ticks
                &&& final(self).tick_bitmap == old(self).tick_bitmap
            },
    {
        if lower_tick >= upper_tick || lower_tick < MIN_TICK || upper_tick > MAX_TICK {
            return Err(PoolError::InvalidTickRange);
        }
        let key = PositionKey { owner, lower_tick, upper_tick };
        let place = match self.find_position(key) {
            Some(place) => place,
            None => {
                return Err(PoolError::PositionNotFound);
            },
        };
        let ghost before = *self;
        let mut position = self.positions[place].info;
        let amount_0: u128 = if position.tokens_owed_0 < amount_0_requested {
            position.tokens_owed_0
        } else {
            amount_0_requested
        };
        let amount_1: u128 = if position.tokens_owed_1 < amount_1_requested {
            position.tokens_owed_1
        } else {
            amount_1_requested
        };
        position.tokens_owed_0 = position.tokens_owed_0 - amount_0;
        position.tokens_owed_1 = position.tokens_owed_1 - amount_1;
        self.positions.set(place, PositionEntry { key, info: position });
        proof {
            let index: int = place as int;
            assert forall|i: int, j: int| 0 <= i < j < self.positions@.len() implies (
            #[trigger] self.positions@[i]).key != (#[trigger] self.positions@[j]).key by {
                assert(self.positions@[i].key == before.positions@[i].key);
                assert(self.positions@[j].key == before.positions@[j].key);
            }
            assert(self.positions@[index].key == key);
            assert(self.has_position(key));
            assert(self.position_info(key) == position) by {
                let j = choose|j: int|
                    0 <= j < self.positions@.len() && (#[trigger] self.positions@[j]).key == key;
                if j < index {
                    assert(self.positions@[j].key != self.positions@[index].key);
                }
                if index < j {
                    assert(self.positions@[index].key != self.positions@[j].key);
                }
            }
            assert forall|other: PositionKey| other != key implies #[trigger] self.has_position(
                other,
            ) == before.has_position(other) && self.position_info(other) == before.position_info(
                other,
            ) by {
                if before.has_position(other) {
                    let j = choose|j: int|
                        0 <= j < before.positions@.len() && (#[trigger] before.positions@[j]).key
                            == other;
                    assert(self.positions@[j] == before.positions@[j]);
                    assert(self.has_position(other));
                    let k = choose|k: int|
                        0 <= k < self.positions@.len() && (#[trigger] self.positions@[k]).key
                            == other;
                    if k < j {
                        assert(self.positions@[k].key != self.positions@[j].key);
                    }
                    if j < k {
                        assert(self.positions@[j].key != self.positions@[k].key);
                    }
                }
                if self.has_position(other) {
                    let k = choose|k: int|
                        0 <= k < self.positions@.len() && (#[trigger] self.positions@[k]).key
                            == other;
                    assert(k != index);
                    assert(self.positions@[k] == before.positions@[k]);
                    assert(before.has_position(other));
                }
            }
            assert forall|tick: i32|
                MIN_TICK <= tick <= MAX_TICK && tick as int % (self.tick_spacing as int)
                    == 0 implies (self.tick_bitmap.is_initialized(
                compress(tick as int, self.tick_spacing as int),
            ) <==> (#[trigger] self.tick_info(tick)).liquidity_gross != 0) by {
                assert(self.tick_info(tick) == before.tick_info(tick));
            }
        }
        Ok([amount_0, amount_1])
    }
}

} // verus!
