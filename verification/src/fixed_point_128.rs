//! The scale of Q128.128 fixed-point numbers, used for fee growth.

use vstd::prelude::*;
use crate::num256::U256;
use crate::num256::two_128;

verus! {

/// The number of fractional bits.
pub const RESOLUTION: u8 = 128;

/// 2^128, the fixed-point representation of 1.
pub fn get_q128() -> (r: U256)
    ensures
        r@ == two_128(),
        r@ == vstd::arithmetic::power2::pow2(128),
{
    proof {
        crate::num256::lemma_named_powers();
        assert(1 * two_128() + 0 == two_128());
    }
    U256::from_words(1, 0)
}

} // verus!
