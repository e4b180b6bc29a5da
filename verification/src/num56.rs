//! Numbers kept within 56 bits, the width of a tick accumulator.

use vstd::prelude::*;
use crate::num256::U256;
use crate::num256::two_128;
use crate::int256::I256;
use crate::num24::lemma_low_word;

verus! {

/// An unsigned number of at most 56 bits, carried in 128.
pub type U56 = u128;

/// A signed number of at most 56 bits, carried in 128.
pub type I56 = i128;

/// The limits of 56-bit numbers.
pub struct Constants;

impl Constants {
    /// The largest unsigned 56-bit number, 2^56 - 1.
    pub fn get_u56_max() -> (r: U56)
        ensures
            r == 0xff_ffff_ffff_ffff,
    {
        0xff_ffff_ffff_ffff
    }

    /// The largest sum that `add56` accepts on signed numbers, 2^55 - 2.
    pub fn get_i56_max() -> (r: I56)
        ensures
            r == 0x7f_ffff_ffff_fffe,
    {
        0x7f_ffff_ffff_fffe
    }
}

/// The low 56 bits of a number, read as an unsigned number.
pub open spec fn low_56(x: int) -> int {
    x % 0x100_0000_0000_0000
}

/// The low 56 bits of a number, read as a signed number in two's complement.
pub open spec fn signed_56(x: int) -> int {
    if x % 0x100_0000_0000_0000 < 0x80_0000_0000_0000 {
        x % 0x100_0000_0000_0000
    } else {
        x % 0x100_0000_0000_0000 - 0x100_0000_0000_0000
    }
}

/// The signed reading of 56 bits.
fn sign_56(bits: u128) -> (r: I56)
    requires
        bits < 0x100_0000_0000_0000,
    ensures
        r == (if bits < 0x80_0000_0000_0000 {
            bits as int
        } else {
            bits - 0x100_0000_0000_0000
        }),
{
    if bits < 0x80_0000_0000_0000 {
        bits as i128
    } else {
        (bits as i128) - 0x100_0000_0000_0000
    }
}

/// Truncation to the low 56 bits, read as an unsigned number.
pub trait AsU56 {
    /// The number that a value stands for.
    spec fn u56_source(&self) -> int;

    /// The value modulo 2^56.
    fn as_u56(&self) -> (r: U56)
        ensures
            r == low_56(self.u56_source()),
    ;
}

impl AsU56 for u128 {
    open spec fn u56_source(&self) -> int {
        *self as int
    }

    fn as_u56(&self) -> (r: U56) {
        *self % 0x100_0000_0000_0000
    }
}

impl AsU56 for U256 {
    open spec fn u56_source(&self) -> int {
        self@ as int
    }

    fn as_u56(&self) -> (r: U56) {
        proof {
            let k: int = 0x1_00_0000_0000_0000_0000 * self.hi;
            assert(self@ == 0x100_0000_0000_0000 * k + self.lo) by (nonlinear_arith)
                requires
                    self@ == self.hi * two_128() + self.lo,
                    two_128() == 0x100_0000_0000_0000 * 0x1_00_0000_0000_0000_0000,
                    k == 0x1_00_0000_0000_0000_0000 * self.hi,
            ;
            vstd::arithmetic::div_mod::lemma_mod_multiples_vanish(
                k,
                self.lo as int,
                0x100_0000_0000_0000,
            );
        }
        self.lo % 0x100_0000_0000_0000
    }
}

/// Truncation to the low 56 bits, read as a signed number.
pub trait AsI56 {
    /// The number that a value stands for.
    spec fn i56_source(&self) -> int;

    /// The low 56 bits of the value in two's complement, sign-extended.
    fn as_i56(&self) -> (r: I56)
        ensures
            r == signed_56(self.i56_source()),
    ;
}

impl AsI56 for i128 {
    open spec fn i56_source(&self) -> int {
        *self as int
    }

    fn as_i56(&self) -> (r: I56) {
        let rest: i128 = *self % 0x100_0000_0000_0000;
        let bits: i128 = if rest < 0 {
            rest + 0x100_0000_0000_0000
        } else {
            rest
        };
        proof {
            vstd::arithmetic::div_mod::lemma_fundamental_div_mod_converse(
                *self as int,
                0x100_0000_0000_0000,
                (*self - bits) / 0x100_0000_0000_0000,
                bits as int,
            );
        }
        sign_56(bits as u128)
    }
}

impl AsI56 for I256 {
    open spec fn i56_source(&self) -> int {
        self@
    }

    fn as_i56(&self) -> (r: I56) {
        proof {
            assert(two_128() as int % 0x100_0000_0000_0000 == 0);
            lemma_low_word(*self, 0x100_0000_0000_0000);
        }
        sign_56(self.bits.lo % 0x100_0000_0000_0000)
    }
}

/// Addition that must stay within 56 bits.
pub trait Num56Trait: Sized {
    /// The sum of the two numbers, each first truncated to 56 bits.
    spec fn sum56(self, other: Self) -> int;

    /// The largest sum that is accepted.
    spec fn limit56() -> int;

    /// The value that stands for a sum, truncated to 56 bits.
    spec fn truncated56(sum: int) -> Self;

    /// The sum of the two numbers, each first truncated to 56 bits, itself
    /// truncated to 56 bits. The sum must not exceed the limit.
    fn add56(self, other: Self) -> (r: Self)
        requires
            self.sum56(other) <= Self::limit56(),
        ensures
            r == Self::truncated56(self.sum56(other)),
    ;
}

impl Num56Trait for U56 {
    open spec fn sum56(self, other: Self) -> int {
        low_56(self as int) + low_56(other as int)
    }

    open spec fn limit56() -> int {
        0xff_ffff_ffff_ffff
    }

    open spec fn truncated56(sum: int) -> Self {
        low_56(sum) as u128
    }

    fn add56(self, other: Self) -> (r: Self) {
        let sum: u128 = self.as_u56() + other.as_u56();
        sum.as_u56()
    }
}

impl Num56Trait for I56 {
    open spec fn sum56(self, other: Self) -> int {
        signed_56(self as int) + signed_56(other as int)
    }

    open spec fn limit56() -> int {
        0x7f_ffff_ffff_fffe
    }

    open spec fn truncated56(sum: int) -> Self {
        signed_56(sum) as i128
    }

    fn add56(self, other: Self) -> (r: Self) {
        let sum: i128 = self.as_i56() + other.as_i56();
        sum.as_i56()
    }
}

} // verus!
