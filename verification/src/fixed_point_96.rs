//! The scale of Q64.96 fixed-point numbers, used for square-root prices.

use vstd::prelude::*;
use crate::num256::U256;
use crate::num256::two_96;

verus! {

/// The number of fractional bits.
pub const RESOLUTION: u8 = 96;

/// 2^96, the fixed-point representation of 1.
pub fn get_q96() -> (r: U256)
    ensures
        r@ == two_96(),
        r@ == vstd::arithmetic::power2::pow2(96),
{
    proof {
        crate::num256::lemma_named_powers();
    }
    U256::from_u128(0x1_0000_0000_0000_0000_0000_0000)
}

} // verus!
