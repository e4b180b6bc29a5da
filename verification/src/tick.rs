//! The tick registry: what the pool keeps for each initialized tick.

use vstd::prelude::*;
use crate::num256::U256;
use crate::num256::two_256;
use crate::num160::U160;
use crate::num24::I24;
use crate::num56::I56;
use crate::liquidity_math::add_delta;
use crate::tick_math::MAX_TICK;

verus! {

/// What is kept for each initialized tick.
#[derive(Clone, Copy, Debug)]
pub struct TickInfo {
    /// The total liquidity of the positions that have this tick as a bound.
    pub liquidity_gross: u128,
    /// The liquidity added when the price crosses this tick from left to
    /// right, and removed when it crosses from right to left.
    pub liquidity_net: i128,
    /// The fee growth of token0 per unit of liquidity on the other side of
    /// this tick, seen from the current tick.
    pub fee_growth_outside_0_x128: U256,
    /// The fee growth of token1 per unit of liquidity on the other side of
    /// this tick, seen from the current tick.
    pub fee_growth_outside_1_x128: U256,
    /// The accumulated tick value on the other side of this tick.
    pub tick_cumulative_outside: I56,
    /// The seconds per unit of liquidity on the other side of this tick.
    pub seconds_per_liquidity_outside_x128: U160,
    /// The seconds spent on the other side of this tick.
    pub seconds_outside: u32,
    /// Whether the tick is initialized, that is whether its gross liquidity
    /// is not zero.
    pub initialized: bool,
}

impl Default for TickInfo {
    fn default() -> (r: TickInfo)
        ensures
            r == TickInfo::empty(),
            r.liquidity_gross == 0,
            r.liquidity_net == 0,
            r.fee_growth_outside_0_x128@ == 0,
            r.fee_growth_outside_1_x128@ == 0,
            r.tick_cumulative_outside == 0,
            r.seconds_per_liquidity_outside_x128@ == 0,
            r.seconds_outside == 0,
            !r.initialized,
    {
        TickInfo {
            liquidity_gross: 0,
            liquidity_net: 0,
            fee_growth_outside_0_x128: U256::zero(),
            fee_growth_outside_1_x128: U256::zero(),
            tick_cumulative_outside: 0,
            seconds_per_liquidity_outside_x128: U256::zero(),
            seconds_outside: 0,
            initialized: false,
        }
    }
}

/// `a - b` modulo 2^256.
pub open spec fn wrapping_difference(a: nat, b: nat) -> nat {
    ((a - b) % (two_256() as int)) as nat
}

impl TickInfo {
    /// The state of a tick that no position has as a bound.
    pub open spec fn empty() -> TickInfo {
        TickInfo {
            liquidity_gross: 0,
            liquidity_net: 0,
            fee_growth_outside_0_x128: U256 { hi: 0, lo: 0 },
            fee_growth_outside_1_x128: U256 { hi: 0, lo: 0 },
            tick_cumulative_outside: 0,
            seconds_per_liquidity_outside_x128: U256 { hi: 0, lo: 0 },
            seconds_outside: 0,
            initialized: false,
        }
    }

    /// The net liquidity after a change: an upper tick takes the change off,
    /// a lower tick adds it.
    pub open spec fn net_after(self, liquidity_delta: int, upper: bool) -> int {
        if upper {
            self.liquidity_net - liquidity_delta
        } else {
            self.liquidity_net + liquidity_delta
        }
    }

    /// Whether `update` accepts a change: the gross liquidity stays between
    /// zero and the most that a tick may hold, and the net liquidity stays in
    /// the 128-bit signed range.
    pub open spec fn accepts(self, liquidity_delta: int, upper: bool, max_liquidity: nat) -> bool {
        0 <= self.liquidity_gross + liquidity_delta <= max_liquidity && max_liquidity <= u128::MAX
            && i128::MIN <= self.net_after(liquidity_delta, upper) <= i128::MAX
    }

    /// Whether `update` accepts a change.
    pub fn can_update(&self, liquidity_delta: i128, upper: bool, max_liquidity: u128) -> (r: bool)
        ensures
            r == self.accepts(liquidity_delta as int, upper, max_liquidity as nat),
    {
        let gross_fits = match crate::liquidity_math::checked_add_delta(
            self.liquidity_gross,
            liquidity_delta,
        ) {
            Some(gross) => gross <= max_liquidity,
            None => false,
        };
        let net = if upper {
            self.liquidity_net.checked_sub(liquidity_delta)
        } else {
            self.liquidity_net.checked_add(liquidity_delta)
        };
        gross_fits && net.is_some()
    }

    /// The tick after an update.
    ///
    /// A tick whose gross liquidity returns to zero is cleared: it is no
    /// longer initialized, and its outside values are zero. On the first
    /// liquidity at a tick, all growth so far is taken to have happened
    /// below it: a tick at or below the current one starts with the global
    /// fee growth as its outside values, a tick above with zero.
    pub open spec fn updated(
        self,
        tick: int,
        current_tick: int,
        liquidity_delta: int,
        fee_growth_global_0_x128: U256,
        fee_growth_global_1_x128: U256,
        upper: bool,
    ) -> TickInfo {
        let first = self.liquidity_gross == 0;
        let cleared = self.liquidity_gross + liquidity_delta == 0;
        let zero = U256 { hi: 0, lo: 0 };
        TickInfo {
            liquidity_gross: (self.liquidity_gross + liquidity_delta) as u128,
            liquidity_net: self.net_after(liquidity_delta, upper) as i128,
            fee_growth_outside_0_x128: if cleared {
                zero
            } else if first {
                if tick <= current_tick {
                    fee_growth_global_0_x128
                } else {
                    zero
                }
            } else {
                self.fee_growth_outside_0_x128
            },
            fee_growth_outside_1_x128: if cleared {
                zero
            } else if first {
                if tick <= current_tick {
                    fee_growth_global_1_x128
                } else {
                    zero
                }
            } else {
                self.fee_growth_outside_1_x128
            },
            tick_cumulative_outside: if cleared || first {
                0
            } else {
                self.tick_cumulative_outside
            },
            seconds_per_liquidity_outside_x128: if cleared || first {
                zero
            } else {
                self.seconds_per_liquidity_outside_x128
            },
            seconds_outside: if cleared || first {
                0
            } else {
                self.seconds_outside
            },
            initialized: !cleared,
        }
    }

    /// Applies a change of liquidity to a tick that bounds a position, and
    /// says whether the tick went from initialized to uninitialized or back.
    ///
    /// The first liquidity at a tick initializes it; a tick whose gross
    /// liquidity returns to zero is cleared.
    pub fn update(
        &mut self,
        tick: I24,
        current_tick: I24,
        liquidity_delta: i128,
        fee_growth_global_0_x128: U256,
        fee_growth_global_1_x128: U256,
        upper: bool,
        max_liquidity: u128,
    ) -> (flipped: bool)
        requires
            old(self).accepts(liquidity_delta as int, upper, max_liquidity as nat),
        ensures
            *final(self) == old(self).updated(
                tick as int,
                current_tick as int,
                liquidity_delta as int,
                fee_growth_global_0_x128,
                fee_growth_global_1_x128,
                upper,
            ),
            flipped == ((old(self).liquidity_gross + liquidity_delta == 0) != (old(
                self,
            ).liquidity_gross == 0)),
            final(self).initialized == (final(self).liquidity_gross != 0),
    {
        let liquidity_gross_before = self.liquidity_gross;
        let liquidity_gross_after = add_delta(liquidity_gross_before, liquidity_delta);
        let flipped = (liquidity_gross_after == 0) != (liquidity_gross_before == 0);
        if liquidity_gross_after == 0 || liquidity_gross_before == 0 {
            // a tick that is cleared or newly initialized starts from zero
            self.fee_growth_outside_0_x128 = U256::zero();
            self.fee_growth_outside_1_x128 = U256::zero();
            self.tick_cumulative_outside = 0;
            self.seconds_per_liquidity_outside_x128 = U256::zero();
            self.seconds_outside = 0;
        }
        if liquidity_gross_after != 0 && liquidity_gross_before == 0 && tick <= current_tick {
            // all growth before a tick was initialized is taken to have
            // happened below the tick
            self.fee_growth_outside_0_x128 = fee_growth_global_0_x128;
            self.fee_growth_outside_1_x128 = fee_growth_global_1_x128;
        }
        self.initialized = liquidity_gross_after != 0;
        self.liquidity_gross = liquidity_gross_after;
        self.liquidity_net = if upper {
            self.liquidity_net - liquidity_delta
        } else {
            self.liquidity_net + liquidity_delta
        };
        flipped
    }

    /// The tick after the price has crossed it.
    pub open spec fn crossed(
        self,
        fee_growth_global_0_x128: U256,
        fee_growth_global_1_x128: U256,
        seconds_per_liquidity_cumulative_x128: U160,
        tick_cumulative: I56,
        time: u32,
    ) -> TickInfo {
        TickInfo {
            liquidity_gross: self.liquidity_gross,
            liquidity_net: self.liquidity_net,
            fee_growth_outside_0_x128: U256::from_number(
                wrapping_difference(fee_growth_global_0_x128@, self.fee_growth_outside_0_x128@),
            ),
            fee_growth_outside_1_x128: U256::from_number(
                wrapping_difference(fee_growth_global_1_x128@, self.fee_growth_outside_1_x128@),
            ),
            tick_cumulative_outside: vstd::wrapping::i128_specs::wrapping_sub(
                tick_cumulative,
                self.tick_cumulative_outside,
            ),
            seconds_per_liquidity_outside_x128: U256::from_number(
                wrapping_difference(
                    seconds_per_liquidity_cumulative_x128@,
                    self.seconds_per_liquidity_outside_x128@,
                ),
            ),
            seconds_outside: vstd::wrapping::u32_specs::wrapping_sub(
                time,
                self.seconds_outside,
            ),
            initialized: self.initialized,
        }
    }
}

/// The most liquidity that one tick may hold, for a tick spacing: the 128-bit
/// range shared out over the usable ticks, which are the multiples of the
/// spacing between the lowest and the highest tick.
pub open spec fn max_liquidity_per_tick(tick_spacing: int) -> nat {
    let max_tick = (887272int / tick_spacing) * tick_spacing;
    let min_tick = -max_tick;
    let num_ticks = (max_tick - min_tick) / tick_spacing + 1;
    (u128::MAX as nat) / (num_ticks as nat)
}

/// The most liquidity that one tick may hold, for a tick spacing, which must
/// be positive.
pub fn tick_spacing_to_max_liquidity_per_tick(tick_spacing: I24) -> (r: u128)
    requires
        tick_spacing > 0,
    ensures
        r == max_liquidity_per_tick(tick_spacing as int),
{
    let per_side: i32 = MAX_TICK / tick_spacing;
    proof {
        vstd::arithmetic::div_mod::lemma_div_pos_is_pos(887272, tick_spacing as int);
        vstd::arithmetic::div_mod::lemma_fundamental_div_mod(887272, tick_spacing as int);
        vstd::arithmetic::div_mod::lemma_mod_bound(887272, tick_spacing as int);
        assert(0 <= per_side * tick_spacing <= 887272) by (nonlinear_arith)
            requires
                887272 == tick_spacing * per_side + 887272int % (tick_spacing as int),
                0 <= 887272int % (tick_spacing as int),
                per_side >= 0,
                tick_spacing > 0,
        ;
    }
    let max_tick: i32 = per_side * tick_spacing;
    let min_tick: i32 = -max_tick;
    let num_ticks: i32 = (max_tick - min_tick) / tick_spacing + 1;
    proof {
        vstd::arithmetic::div_mod::lemma_div_pos_is_pos(
            (max_tick - min_tick) as int,
            tick_spacing as int,
        );
    }
    u128::MAX / (num_ticks as u128)
}

/// The fee growth inside a tick range, per unit of liquidity: the global fee
/// growth less what grew below the lower tick and above the upper tick, all
/// modulo 2^256.
pub open spec fn fee_growth_inside(
    lower_tick: int,
    upper_tick: int,
    lower_outside: nat,
    upper_outside: nat,
    current_tick: int,
    fee_growth_global: nat,
) -> nat {
    let below = if current_tick >= lower_tick {
        lower_outside
    } else {
        wrapping_difference(fee_growth_global, lower_outside)
    };
    let above = if current_tick < upper_tick {
        upper_outside
    } else {
        wrapping_difference(fee_growth_global, upper_outside)
    };
    wrapping_difference(wrapping_difference(fee_growth_global, below), above)
}

/// The fee growth of token0 and of token1 inside a tick range.
pub fn get_fee_growth_inside(
    lower_tick: I24,
    upper_tick: I24,
    lower: &TickInfo,
    upper: &TickInfo,
    current_tick: I24,
    fee_growth_global_0_x128: U256,
    fee_growth_global_1_x128: U256,
) -> (r: [U256; 2])
    ensures
        r[0]@ == fee_growth_inside(
            lower_tick as int,
            upper_tick as int,
            lower.fee_growth_outside_0_x128@,
            upper.fee_growth_outside_0_x128@,
            current_tick as int,
            fee_growth_global_0_x128@,
        ),
        r[1]@ == fee_growth_inside(
            lower_tick as int,
            upper_tick as int,
            lower.fee_growth_outside_1_x128@,
            upper.fee_growth_outside_1_x128@,
            current_tick as int,
            fee_growth_global_1_x128@,
        ),
{
    let fee_growth_below0_x128: U256;
    let fee_growth_below1_x128: U256;
    if current_tick >= lower_tick {
        fee_growth_below0_x128 = lower.fee_growth_outside_0_x128;
        fee_growth_below1_x128 = lower.fee_growth_outside_1_x128;
    } else {
        fee_growth_below0_x128 = fee_growth_global_0_x128.wrapping_sub(
            lower.fee_growth_outside_0_x128,
        );
        fee_growth_below1_x128 = fee_growth_global_1_x128.wrapping_sub(
            lower.fee_growth_outside_1_x128,
        );
    }
    let fee_growth_above0_x128: U256;
    let fee_growth_above1_x128: U256;
    if current_tick < upper_tick {
        fee_growth_above0_x128 = upper.fee_growth_outside_0_x128;
        fee_growth_above1_x128 = upper.fee_growth_outside_1_x128;
    } else {
        fee_growth_above0_x128 = fee_growth_global_0_x128.wrapping_sub(
            upper.fee_growth_outside_0_x128,
        );
        fee_growth_above1_x128 = fee_growth_global_1_x128.wrapping_sub(
            upper.fee_growth_outside_1_x128,
        );
    }
    let fee_growth_inside_0_x128 = fee_growth_global_0_x128.wrapping_sub(
        fee_growth_below0_x128,
    ).wrapping_sub(fee_growth_above0_x128);
    let fee_growth_inside_1_x128 = fee_growth_global_1_x128.wrapping_sub(
        fee_growth_below1_x128,
    ).wrapping_sub(fee_growth_above1_x128);
    [fee_growth_inside_0_x128, fee_growth_inside_1_x128]
}

/// Moves a tick to the other side of the price: each outside value becomes
/// the global value less the outside value, modulo the width of its type.
/// Returns the net liquidity of the tick.
pub fn cross(
    info: &mut TickInfo,
    fee_growth_global_0_x128: U256,
    fee_growth_global_1_x128: U256,
    seconds_per_liquidity_cumulative_x128: U160,
    tick_cumulative: I56,
    time: u32,
) -> (liquidity_net: i128)
    ensures
        *final(info) == old(info).crossed(
            fee_growth_global_0_x128,
            fee_growth_global_1_x128,
            seconds_per_liquidity_cumulative_x128,
            tick_cumulative,
            time,
        ),
        liquidity_net == old(info).liquidity_net,
{
    let outside_0 = fee_growth_global_0_x128.wrapping_sub(info.fee_growth_outside_0_x128);
    let outside_1 = fee_growth_global_1_x128.wrapping_sub(info.fee_growth_outside_1_x128);
    let seconds_per_liquidity = seconds_per_liquidity_cumulative_x128.wrapping_sub(
        info.seconds_per_liquidity_outside_x128,
    );
    proof {
        U256::lemma_from_number(outside_0);
        U256::lemma_from_number(outside_1);
        U256::lemma_from_number(seconds_per_liquidity);
    }
    info.fee_growth_outside_0_x128 = outside_0;
    info.fee_growth_outside_1_x128 = outside_1;
    info.seconds_per_liquidity_outside_x128 = seconds_per_liquidity;
    info.tick_cumulative_outside = tick_cumulative.wrapping_sub(info.tick_cumulative_outside);
    info.seconds_outside = time.wrapping_sub(info.seconds_outside);
    info.liquidity_net
}

/// Crossing a tick twice at the same global values puts its fee growth back.
pub proof fn lemma_cross_twice(outside: nat, global: nat)
    requires
        outside < two_256(),
        global < two_256(),
    ensures
        wrapping_difference(global, wrapping_difference(global, outside)) == outside,
{
    crate::num256::lemma_two_256_pos();
    let m: int = two_256() as int;
    if global >= outside {
        crate::num256::lemma_mod_of_shifted(global - outside, global - outside, 0);
        crate::num256::lemma_mod_of_shifted(global - (global - outside), outside as int, 0);
    } else {
        crate::num256::lemma_mod_of_shifted(global - outside, global - outside + m, -1);
        crate::num256::lemma_mod_of_shifted(global - (global - outside + m), outside as int, -1);
    }
}

} // verus!
