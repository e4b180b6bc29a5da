//! Numbers kept within 24 bits, the width of a tick index and of a fee.

use vstd::prelude::*;
use crate::num256::U256;
use crate::num256::two_128;
use crate::num256::two_256;
use crate::int256::I256;
use crate::int256::two_255;

verus! {

/// An unsigned number of at most 24 bits, carried in 32.
pub type U24 = u32;

/// A signed number of at most 24 bits, carried in 32.
pub type I24 = i32;

/// The limits of 24-bit numbers.
pub struct Constants;

impl Constants {
    /// The largest unsigned 24-bit number, 2^24 - 1.
    pub fn get_u24_max() -> (r: U24)
        ensures
            r == 0xff_ffff,
    {
        0xff_ffff
    }

    /// The largest sum that `add24` accepts on signed numbers, 2^23 - 2.
    pub fn get_i24_max() -> (r: I24)
        ensures
            r == 0x7f_fffe,
    {
        0x7f_fffe
    }
}

/// The low 24 bits of a number, read as an unsigned number.
pub open spec fn low_24(x: int) -> int {
    x % 0x100_0000
}

/// The low 24 bits of a number, read as a signed number in two's complement.
pub open spec fn signed_24(x: int) -> int {
    if x % 0x100_0000 < 0x80_0000 {
        x % 0x100_0000
    } else {
        x % 0x100_0000 - 0x100_0000
    }
}

/// The signed reading of 24 bits.
fn sign_24(bits: u32) -> (r: I24)
    requires
        bits < 0x100_0000,
    ensures
        r == (if bits < 0x80_0000 {
            bits as int
        } else {
            bits - 0x100_0000
        }),
{
    if bits < 0x80_0000 {
        bits as i32
    } else {
        (bits as i32) - 0x100_0000
    }
}

/// The low 128 bits of a signed 256-bit number hold its value modulo any
/// power of two up to 2^128.
pub proof fn lemma_low_word(x: I256, modulus: int)
    requires
        modulus > 0,
        two_128() as int % modulus == 0,
    ensures
        x@ % modulus == (x.bits.lo as int) % modulus,
{
    crate::num256::lemma_two_256_pos();
    let k: int = two_128() as int / modulus;
    vstd::arithmetic::div_mod::lemma_fundamental_div_mod(two_128() as int, modulus);
    let wrap: int = if x.bits@ >= two_255() {
        1
    } else {
        0
    };
    // x@ == lo + modulus * (k * (hi - wrap * 2^128))
    let lift: int = k * (x.bits.hi - wrap * two_128());
    assert(x@ == modulus * lift + x.bits.lo) by (nonlinear_arith)
        requires
            x@ == x.bits.hi * two_128() + x.bits.lo - wrap * two_256(),
            two_256() == two_128() * two_128(),
            two_128() == modulus * k,
            lift == k * (x.bits.hi - wrap * two_128()),
    ;
    vstd::arithmetic::div_mod::lemma_mod_multiples_vanish(lift, x.bits.lo as int, modulus);
}

/// Truncation to the low 24 bits, read as an unsigned number.
pub trait AsU24 {
    /// The number that a value stands for.
    spec fn u24_source(self) -> int;

    /// The value modulo 2^24.
    fn as_u24(self) -> (r: U24)
        ensures
            r == low_24(self.u24_source()),
    ;
}

impl AsU24 for U24 {
    open spec fn u24_source(self) -> int {
        self as int
    }

    fn as_u24(self) -> (r: U24) {
        self % 0x100_0000
    }
}

impl AsU24 for u128 {
    open spec fn u24_source(self) -> int {
        self as int
    }

    fn as_u24(self) -> (r: U24) {
        (self % 0x100_0000) as u32
    }
}

impl AsU24 for U256 {
    open spec fn u24_source(self) -> int {
        self@ as int
    }

    fn as_u24(self) -> (r: U24) {
        proof {
            let k: int = 0x100_0000_0000_0000_0000_0000_0000 * self.hi;
            assert(self@ == 0x100_0000 * k + self.lo) by (nonlinear_arith)
                requires
                    self@ == self.hi * two_128() + self.lo,
                    two_128() == 0x100_0000 * 0x100_0000_0000_0000_0000_0000_0000,
                    k == 0x100_0000_0000_0000_0000_0000_0000 * self.hi,
            ;
            vstd::arithmetic::div_mod::lemma_mod_multiples_vanish(k, self.lo as int, 0x100_0000);
        }
        (self.lo % 0x100_0000) as u32
    }
}

/// Truncation to the low 24 bits, read as a signed number.
pub trait AsI24 {
    /// The number that a value stands for.
    spec fn i24_source(self) -> int;

    /// The low 24 bits of the value in two's complement, sign-extended.
    fn as_i24(self) -> (r: I24)
        ensures
            r == signed_24(self.i24_source()),
    ;
}

impl AsI24 for I24 {
    open spec fn i24_source(self) -> int {
        self as int
    }

    fn as_i24(self) -> (r: I24) {
        let rest: i32 = self % 0x100_0000;
        let bits: i32 = if rest < 0 {
            rest + 0x100_0000
        } else {
            rest
        };
        proof {
            vstd::arithmetic::div_mod::lemma_fundamental_div_mod_converse(
                self as int,
                0x100_0000,
                (self - bits) / 0x100_0000,
                bits as int,
            );
        }
        sign_24(bits as u32)
    }
}

impl AsI24 for i128 {
    open spec fn i24_source(self) -> int {
        self as int
    }

    fn as_i24(self) -> (r: I24) {
        let rest: i128 = self % 0x100_0000;
        let bits: i128 = if rest < 0 {
            rest + 0x100_0000
        } else {
            rest
        };
        proof {
            vstd::arithmetic::div_mod::lemma_fundamental_div_mod_converse(
                self as int,
                0x100_0000,
                (self - bits) / 0x100_0000,
                bits as int,
            );
        }
        sign_24(bits as u32)
    }
}

impl AsI24 for I256 {
    open spec fn i24_source(self) -> int {
        self@
    }

    fn as_i24(self) -> (r: I24) {
        proof {
            assert(two_128() as int % 0x100_0000 == 0);
            lemma_low_word(self, 0x100_0000);
        }
        sign_24((self.bits.lo % 0x100_0000) as u32)
    }
}

/// Addition that must stay within 24 bits.
pub trait Num24Trait: Sized {
    /// The sum of the two numbers, each first truncated to 24 bits.
    spec fn sum24(self, other: Self) -> int;

    /// The largest sum that is accepted.
    spec fn limit24() -> int;

    /// The value that stands for a sum, truncated to 24 bits.
    spec fn truncated24(sum: int) -> Self;

    /// The sum of the two numbers, each first truncated to 24 bits, itself
    /// truncated to 24 bits. The sum must not exceed the limit.
    fn add24(self, other: Self) -> (r: Self)
        requires
            self.sum24(other) <= Self::limit24(),
        ensures
            r == Self::truncated24(self.sum24(other)),
    ;
}

impl Num24Trait for U24 {
    open spec fn sum24(self, other: Self) -> int {
        low_24(self as int) + low_24(other as int)
    }

    open spec fn limit24() -> int {
        0xff_ffff
    }

    open spec fn truncated24(sum: int) -> Self {
        low_24(sum) as u32
    }

    fn add24(self, other: Self) -> (r: Self) {
        let sum: u32 = self.as_u24() + other.as_u24();
        sum.as_u24()
    }
}

impl Num24Trait for I24 {
    open spec fn sum24(self, other: Self) -> int {
        signed_24(self as int) + signed_24(other as int)
    }

    open spec fn limit24() -> int {
        0x7f_fffe
    }

    open spec fn truncated24(sum: int) -> Self {
        signed_24(sum) as i32
    }

    fn add24(self, other: Self) -> (r: Self) {
        let sum: i32 = self.as_i24() + other.as_i24();
        sum.as_i24()
    }
}

} // verus!
