//! A position: the liquidity that an owner holds over a tick range, and the
//! fees that it has earned.

use vstd::prelude::*;
use crate::num256::U256;
use crate::num256::two_128;
use crate::num256::two_256;
use crate::num256::lemma_two_256_pos;
use crate::num256::lemma_view_bound;
use crate::full_math::FullMath;
use crate::full_math::mul_div_floor;
use crate::fixed_point_128::get_q128;
use crate::liquidity_math::add_delta;

verus! {

/// What is kept for each position.
#[derive(Clone, Copy, Debug)]
pub struct PositionInfo {
    /// The liquidity that the position holds.
    pub liquidity: u128,
    /// The fee growth of token0 inside the range, per unit of liquidity, as
    /// of the last update.
    pub fee_growth_inside_0_last_x128: U256,
    /// The fee growth of token1 inside the range, per unit of liquidity, as
    /// of the last update.
    pub fee_growth_inside_1_last_x128: U256,
    /// The amount of token0 owed to the owner.
    pub tokens_owed_0: u128,
    /// The amount of token1 owed to the owner.
    pub tokens_owed_1: u128,
}

impl Default for PositionInfo {
    fn default() -> (r: PositionInfo)
        ensures
            r == PositionInfo::empty(),
            r.liquidity == 0,
            r.fee_growth_inside_0_last_x128@ == 0,
            r.fee_growth_inside_1_last_x128@ == 0,
            r.tokens_owed_0 == 0,
            r.tokens_owed_1 == 0,
    {
        PositionInfo {
            liquidity: 0,
            fee_growth_inside_0_last_x128: U256::zero(),
            fee_growth_inside_1_last_x128: U256::zero(),
            tokens_owed_0: 0,
            tokens_owed_1: 0,
        }
    }
}

/// The fees that a liquidity has earned while the fee growth went from
/// `last` to `now`: the growth, taken modulo 2^256, times the liquidity,
/// over 2^128, of which the low 128 bits are kept.
pub open spec fn fees_earned(now: nat, last: nat, liquidity: nat) -> nat {
    mul_div_floor(((now - last) % (two_256() as int)) as nat, liquidity, two_128()) % two_128()
}

/// The sum of two 128-bit amounts, modulo 2^128.
pub open spec fn wrapping_sum(a: nat, b: nat) -> nat {
    (a + b) % two_128()
}

impl PositionInfo {
    /// A position without liquidity, fees or history.
    pub open spec fn empty() -> PositionInfo {
        PositionInfo {
            liquidity: 0,
            fee_growth_inside_0_last_x128: U256 { hi: 0, lo: 0 },
            fee_growth_inside_1_last_x128: U256 { hi: 0, lo: 0 },
            tokens_owed_0: 0,
            tokens_owed_1: 0,
        }
    }

    /// Whether `update` accepts a change: a position without liquidity
    /// cannot be poked, and the liquidity must stay in the 128-bit range.
    pub open spec fn accepts(self, liquidity_delta: int) -> bool {
        !(liquidity_delta == 0 && self.liquidity == 0) && 0 <= self.liquidity + liquidity_delta
            <= u128::MAX
    }

    /// Whether `update` accepts a change.
    pub fn can_update(&self, liquidity_delta: i128) -> (r: bool)
        ensures
            r == self.accepts(liquidity_delta as int),
    {
        if liquidity_delta == 0 {
            self.liquidity > 0
        } else {
            crate::liquidity_math::checked_add_delta(self.liquidity, liquidity_delta).is_some()
        }
    }

    /// The position after an update.
    pub open spec fn updated(
        self,
        liquidity_delta: int,
        fee_growth_inside_0_x128: U256,
        fee_growth_inside_1_x128: U256,
    ) -> PositionInfo {
        PositionInfo {
            liquidity: (self.liquidity + liquidity_delta) as u128,
            fee_growth_inside_0_last_x128: fee_growth_inside_0_x128,
            fee_growth_inside_1_last_x128: fee_growth_inside_1_x128,
            tokens_owed_0: wrapping_sum(
                self.tokens_owed_0 as nat,
                fees_earned(
                    fee_growth_inside_0_x128@,
                    self.fee_growth_inside_0_last_x128@,
                    self.liquidity as nat,
                ),
            ) as u128,
            tokens_owed_1: wrapping_sum(
                self.tokens_owed_1 as nat,
                fees_earned(
                    fee_growth_inside_1_x128@,
                    self.fee_growth_inside_1_last_x128@,
                    self.liquidity as nat,
                ),
            ) as u128,
        }
    }

    /// Credits the fees earned since the last update and applies a change of
    /// liquidity. A change of zero only collects the fees, and is refused on
    /// a position without liquidity.
    pub fn update(
        &mut self,
        liquidity_delta: i128,
        fee_growth_inside_0_x128: U256,
        fee_growth_inside_1_x128: U256,
    )
        requires
            old(self).accepts(liquidity_delta as int),
        ensures
            *final(self) == old(self).updated(
                liquidity_delta as int,
                fee_growth_inside_0_x128,
                fee_growth_inside_1_x128,
            ),
    {
        let liquidity_next: u128 = if liquidity_delta == 0 {
            self.liquidity
        } else {
            add_delta(self.liquidity, liquidity_delta)
        };
        let tokens_owed_0 = earned(
            fee_growth_inside_0_x128,
            self.fee_growth_inside_0_last_x128,
            self.liquidity,
        );
        let tokens_owed_1 = earned(
            fee_growth_inside_1_x128,
            self.fee_growth_inside_1_last_x128,
            self.liquidity,
        );
        if liquidity_delta != 0 {
            self.liquidity = liquidity_next;
        }
        self.fee_growth_inside_0_last_x128 = fee_growth_inside_0_x128;
        self.fee_growth_inside_1_last_x128 = fee_growth_inside_1_x128;
        if tokens_owed_0 > 0 || tokens_owed_1 > 0 {
            // an overflow is accepted: the owner has to collect before the
            // amounts owed reach the 128-bit range
            self.tokens_owed_0 = self.tokens_owed_0.wrapping_add(tokens_owed_0);
            self.tokens_owed_1 = self.tokens_owed_1.wrapping_add(tokens_owed_1);
        } else {
            proof {
                vstd::arithmetic::div_mod::lemma_small_mod(self.tokens_owed_0 as nat, two_128());
                vstd::arithmetic::div_mod::lemma_small_mod(self.tokens_owed_1 as nat, two_128());
            }
        }
    }
}

/// The fees that a liquidity has earned between two readings of the fee
/// growth.
fn earned(now: U256, last: U256, liquidity: u128) -> (r: u128)
    ensures
        r as nat == fees_earned(now@, last@, liquidity as nat),
{
    let growth = now.wrapping_sub(last);
    proof {
        lemma_two_256_pos();
        lemma_view_bound(growth);
        assert(growth@ * liquidity as nat <= two_256() * two_128()) by (nonlinear_arith)
            requires
                growth@ < two_256(),
                liquidity < two_128(),
        ;
        crate::full_math::lemma_div_floor_compare(growth@ * liquidity as nat, two_128(), two_256());
        if mul_div_floor(growth@, liquidity as nat, two_128()) >= two_256() {
            crate::full_math::lemma_div_floor_bounds(growth@ * liquidity as nat, two_128());
            assert(false) by (nonlinear_arith)
                requires
                    mul_div_floor(growth@, liquidity as nat, two_128()) * two_128() <= growth@
                        * liquidity as nat,
                    mul_div_floor(growth@, liquidity as nat, two_128()) >= two_256(),
                    growth@ < two_256(),
                    liquidity < two_128(),
                    two_256() > 0,
            ;
        }
    }
    FullMath::mul_div(growth, U256::from_u128(liquidity), get_q128()).low_u128()
}

/// Collecting fees twice in a row, with the fee growth unchanged in between,
/// adds nothing the second time.
pub proof fn lemma_update_twice(
    position: PositionInfo,
    fee_growth_inside_0_x128: U256,
    fee_growth_inside_1_x128: U256,
)
    requires
        position.accepts(0),
    ensures
        position.updated(0, fee_growth_inside_0_x128, fee_growth_inside_1_x128).accepts(0),
        position.updated(0, fee_growth_inside_0_x128, fee_growth_inside_1_x128).updated(
            0,
            fee_growth_inside_0_x128,
            fee_growth_inside_1_x128,
        ) == position.updated(0, fee_growth_inside_0_x128, fee_growth_inside_1_x128),
{
    let once = position.updated(0, fee_growth_inside_0_x128, fee_growth_inside_1_x128);
    lemma_two_256_pos();
    assert(0 * once.liquidity as nat == 0);
    assert(0int % (two_256() as int) == 0);
    assert(mul_div_floor(0, once.liquidity as nat, two_128()) == 0);
    assert(0nat % two_128() == 0);
    assert(fees_earned(fee_growth_inside_0_x128@, fee_growth_inside_0_x128@, once.liquidity as nat)
        == 0);
    assert(fees_earned(fee_growth_inside_1_x128@, fee_growth_inside_1_x128@, once.liquidity as nat)
        == 0);
    vstd::arithmetic::div_mod::lemma_small_mod(once.tokens_owed_0 as nat, two_128());
    vstd::arithmetic::div_mod::lemma_small_mod(once.tokens_owed_1 as nat, two_128());
}

} // verus!
