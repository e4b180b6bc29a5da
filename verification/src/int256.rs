//! 256-bit signed integers in two's complement.

use vstd::prelude::*;
use crate::num256::U256;
use crate::num256::two_128;
use crate::num256::two_256;
use crate::num256::lemma_two_256_pos;
use crate::num256::lemma_view_bound;
use crate::num256::lemma_mod_of_shifted;

verus! {

/// 2^255 as a natural number: the first bit pattern that stands for a
/// negative number.
pub open spec fn two_255() -> nat {
    0x8000_0000_0000_0000_0000_0000_0000_0000 * two_128()
}

/// A 256-bit signed integer, held as its two's complement bit pattern.
#[derive(Clone, Copy, Debug, PartialEq, Eq, Structural)]
pub struct I256 {
    /// The bit pattern, read as an unsigned number.
    pub bits: U256,
}

impl View for I256 {
    type V = int;

    open spec fn view(&self) -> int {
        if self.bits@ >= two_255() {
            self.bits@ - two_256()
        } else {
            self.bits@ as int
        }
    }
}

/// The sign bit is the top bit of the high word.
pub proof fn lemma_sign_bit(x: U256)
    ensures
        (x@ >= two_255()) == (x.hi >= 0x8000_0000_0000_0000_0000_0000_0000_0000),
        two_256() == 2 * two_255(),
{
    lemma_two_256_pos();
    assert((x.hi as nat * two_128() + x.lo as nat >= 0x8000_0000_0000_0000_0000_0000_0000_0000
        * two_128()) == (x.hi >= 0x8000_0000_0000_0000_0000_0000_0000_0000)) by (nonlinear_arith)
        requires
            x.lo < two_128(),
    ;
    assert(two_128() * two_128() == 2 * (0x8000_0000_0000_0000_0000_0000_0000_0000 * two_128()))
        by (nonlinear_arith)
        requires
            two_128() == 2 * 0x8000_0000_0000_0000_0000_0000_0000_0000,
    ;
}

/// A bit pattern that agrees with a number of the signed range modulo
/// 2^256 stands for that number.
pub proof fn lemma_signed_value(bits: U256, value: int)
    requires
        -(two_255() as int) <= value < two_255(),
        bits@ == value % (two_256() as int),
    ensures
        (I256 { bits })@ == value,
{
    lemma_sign_bit(bits);
    lemma_two_256_pos();
    if value >= 0 {
        vstd::arithmetic::div_mod::lemma_small_mod(value as nat, two_256());
    } else {
        lemma_mod_of_shifted(value, value + two_256(), -1);
    }
}

/// The bit pattern of a signed number is the number modulo 2^256.
pub proof fn lemma_bits_of_value(x: I256)
    ensures
        x.bits@ == x@ % (two_256() as int),
        -(two_255() as int) <= x@ < two_255(),
{
    lemma_sign_bit(x.bits);
    lemma_view_bound(x.bits);
    lemma_two_256_pos();
    if x.bits@ >= two_255() {
        lemma_mod_of_shifted(x@, x.bits@ as int, -1);
    } else {
        lemma_mod_of_shifted(x@, x.bits@ as int, 0);
    }
}

impl I256 {
    /// The value 0.
    pub fn zero() -> (r: I256)
        ensures
            r@ == 0,
    {
        proof {
            lemma_sign_bit(U256 { hi: 0, lo: 0 });
        }
        I256 { bits: U256::zero() }
    }

    /// Widens a 128-bit unsigned value.
    pub fn from_u128(x: u128) -> (r: I256)
        ensures
            r@ == x,
    {
        let bits = U256::from_u128(x);
        proof {
            lemma_sign_bit(bits);
        }
        I256 { bits }
    }

    /// Widens a 128-bit signed value.
    pub fn from_i128(x: i128) -> (r: I256)
        ensures
            r@ == x,
    {
        if x >= 0 {
            let bits = U256::from_u128(x as u128);
            proof {
                lemma_sign_bit(bits);
            }
            I256 { bits }
        } else {
            let magnitude: u128 = if x == i128::MIN {
                0x8000_0000_0000_0000_0000_0000_0000_0000
            } else {
                (-x) as u128
            };
            let bits = U256::zero().wrapping_sub(U256::from_u128(magnitude));
            proof {
                lemma_two_256_pos();
                lemma_sign_bit(bits);
                lemma_mod_of_shifted(0 - magnitude as int, two_256() - magnitude as int, -1);
                assert(two_255() >= two_128()) by (nonlinear_arith)
                    requires
                        two_255() == 0x8000_0000_0000_0000_0000_0000_0000_0000 * two_128(),
                ;
            }
            I256 { bits }
        }
    }

    /// Reads a bit pattern as a signed number: patterns below 2^255 stand for
    /// themselves, the others for the pattern minus 2^256.
    pub fn from_bits(bits: U256) -> (r: I256)
        ensures
            r.bits == bits,
            bits@ < two_255() ==> r@ == bits@,
            bits@ >= two_255() ==> r@ == bits@ - two_256(),
    {
        I256 { bits }
    }

    /// The bit pattern, that is the number modulo 2^256.
    pub fn as_u256(self) -> (r: U256)
        ensures
            r == self.bits,
            self@ >= 0 ==> r@ == self@,
            self@ < 0 ==> r@ == self@ + two_256(),
    {
        proof {
            lemma_two_256_pos();
            lemma_sign_bit(self.bits);
            lemma_view_bound(self.bits);
        }
        self.bits
    }

    /// Whether the number is below zero.
    pub fn is_negative(self) -> (r: bool)
        ensures
            r == (self@ < 0),
    {
        proof {
            lemma_sign_bit(self.bits);
            lemma_view_bound(self.bits);
        }
        self.bits.hi >= 0x8000_0000_0000_0000_0000_0000_0000_0000
    }

    /// The absolute value, as an unsigned number.
    pub fn unsigned_abs(self) -> (r: U256)
        ensures
            r@ == (if self@ < 0 {
                -self@
            } else {
                self@
            }),
    {
        proof {
            lemma_sign_bit(self.bits);
            lemma_view_bound(self.bits);
        }
        if self.is_negative() {
            let r = U256::zero().wrapping_sub(self.bits);
            proof {
                lemma_mod_of_shifted(0 - self.bits@, two_256() - self.bits@, -1);
            }
            r
        } else {
            self.bits
        }
    }

    /// The negated number. The least number, -2^255, has no negation in 256
    /// bits and is left out.
    pub fn neg(self) -> (r: I256)
        requires
            self@ != -(two_255() as int),
        ensures
            r@ == -self@,
    {
        let bits = U256::zero().wrapping_sub(self.bits);
        proof {
            lemma_sign_bit(self.bits);
            lemma_sign_bit(bits);
            lemma_view_bound(self.bits);
            if self.bits@ == 0 {
                lemma_mod_of_shifted(0 - self.bits@, 0, 0);
            } else {
                lemma_mod_of_shifted(0 - self.bits@, two_256() - self.bits@, -1);
            }
        }
        I256 { bits }
    }

    /// The number as a 128-bit signed value, where it fits.
    pub fn checked_as_i128(self) -> (r: Option<i128>)
        ensures
            i128::MIN <= self@ <= i128::MAX ==> r == Some(self@ as i128),
            !(i128::MIN <= self@ <= i128::MAX) ==> r.is_none(),
    {
        proof {
            lemma_sign_bit(self.bits);
            lemma_view_bound(self.bits);
            lemma_two_256_pos();
            let b: U256 = self.bits;
            assert(b@ == b.hi as nat * two_128() + b.lo as nat);
            assert((b.hi == 0) == (b@ < two_128())) by (nonlinear_arith)
                requires
                    b@ == b.hi as nat * two_128() + b.lo as nat,
                    b.lo < two_128(),
            ;
            assert((b.hi == u128::MAX) == (b@ >= two_256() - two_128())) by (nonlinear_arith)
                requires
                    b@ == b.hi as nat * two_128() + b.lo as nat,
                    b.lo < two_128(),
                    b.hi <= u128::MAX,
                    u128::MAX == two_128() - 1,
                    two_256() == two_128() * two_128(),
            ;
            assert(b.hi == u128::MAX ==> b@ - two_256() == b.lo - two_128()) by (nonlinear_arith)
                requires
                    b@ == b.hi as nat * two_128() + b.lo as nat,
                    u128::MAX == two_128() - 1,
                    two_256() == two_128() * two_128(),
            ;
        }
        let half: u128 = 0x8000_0000_0000_0000_0000_0000_0000_0000;
        if self.bits.hi == 0 && self.bits.lo < half {
            Some(self.bits.lo as i128)
        } else if self.bits.hi == u128::MAX && self.bits.lo >= half {
            let below: u128 = self.bits.lo - half;
            Some(i128::MIN + (below as i128))
        } else {
            None
        }
    }
}

/// A signed reading of an unsigned number that fits the signed range.
pub trait AsI256 {
    /// The number that a value stands for.
    spec fn i256_source(&self) -> nat;

    /// The same number as a signed value. The number must be below 2^255.
    fn as_i256(&self) -> (r: I256)
        requires
            self.i256_source() < two_255(),
        ensures
            r@ == self.i256_source(),
    ;
}

impl AsI256 for U256 {
    open spec fn i256_source(&self) -> nat {
        self@
    }

    fn as_i256(&self) -> (r: I256) {
        I256::from_bits(*self)
    }
}

/// An unsigned reading of a signed number that is not negative.
pub trait ToU256 {
    /// The number that a value stands for.
    spec fn u256_source(&self) -> int;

    /// The same number as an unsigned value. The number must not be
    /// negative.
    fn to_u256(&self) -> (r: U256)
        requires
            self.u256_source() >= 0,
        ensures
            r@ == self.u256_source(),
    ;
}

impl ToU256 for I256 {
    open spec fn u256_source(&self) -> int {
        self@
    }

    fn to_u256(&self) -> (r: U256) {
        self.as_u256()
    }
}

} // verus!
