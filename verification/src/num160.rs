//! Numbers kept within 160 bits, the width of a square-root price.

use vstd::prelude::*;
use crate::num256::U256;
use crate::num256::two_128;
use crate::num256::two_160;
use crate::num256::two_256;
use crate::num256::lemma_two_256_pos;
use crate::num256::lemma_view_bound;
use crate::int256::I256;

verus! {

/// An unsigned number of at most 160 bits, carried in 256.
pub type U160 = U256;

/// A signed number of at most 160 bits, carried in 256.
pub type I160 = I256;

/// The limits of 160-bit numbers.
pub struct Constants;

impl Constants {
    /// The largest unsigned 160-bit number, 2^160 - 1.
    pub fn get_u160_max() -> (r: U160)
        ensures
            r@ == two_160() - 1,
    {
        U256::from_words(0xffff_ffff, u128::MAX)
    }

    /// The largest sum that `add160` accepts on signed numbers, 2^159 - 2.
    pub fn get_i160_max() -> (r: I160)
        ensures
            r@ == two_160() / 2 - 2,
    {
        let bits = U256::from_words(0x7fff_ffff, u128::MAX - 1);
        proof {
            crate::int256::lemma_sign_bit(bits);
            assert(two_160() / 2 == 0x8000_0000 * two_128()) by (nonlinear_arith)
                requires
                    two_160() == two_128() * 0x1_0000_0000,
            ;
            assert(bits@ == 0x8000_0000 * two_128() - 2) by (nonlinear_arith)
                requires
                    bits@ == 0x7fff_ffff * two_128() + (u128::MAX - 1),
                    two_128() == u128::MAX + 1,
            ;
        }
        I256::from_bits(bits)
    }
}

/// Truncation to the low 160 bits.
pub trait AsU160 {
    /// The number that a value stands for.
    spec fn u160_source(&self) -> nat;

    /// The value modulo 2^160.
    fn as_u160(&self) -> (r: U160)
        ensures
            r@ == self.u160_source() % two_160(),
    ;
}

impl AsU160 for U256 {
    open spec fn u160_source(&self) -> nat {
        self@
    }

    fn as_u160(&self) -> (r: U160) {
        let r = U256 { hi: self.hi & 0xffff_ffff, lo: self.lo };
        proof {
            let h: u128 = self.hi;
            let m: u128 = self.hi & 0xffff_ffff;
            assert(m == h % 0x1_0000_0000) by (bit_vector)
                requires
                    m == h & 0xffff_ffff,
            ;
            let q: int = (h / 0x1_0000_0000) as int;
            assert(self@ == q * two_160() + r@) by (nonlinear_arith)
                requires
                    self@ == h as nat * two_128() + self.lo as nat,
                    r@ == m as nat * two_128() + self.lo as nat,
                    h == 0x1_0000_0000 * q + m,
                    two_160() == two_128() * 0x1_0000_0000,
            ;
            assert(r@ < two_160()) by (nonlinear_arith)
                requires
                    r@ == m as nat * two_128() + self.lo as nat,
                    m < 0x1_0000_0000,
                    self.lo < two_128(),
                    two_160() == two_128() * 0x1_0000_0000,
            ;
            vstd::arithmetic::div_mod::lemma_fundamental_div_mod_converse(
                self@ as int,
                two_160() as int,
                q,
                r@ as int,
            );
        }
        r
    }
}

/// The low 160 bits of a number, read as a signed number in two's
/// complement.
pub open spec fn signed_160(x: int) -> int {
    if x % (two_160() as int) < two_160() / 2 {
        x % (two_160() as int)
    } else {
        x % (two_160() as int) - two_160()
    }
}

/// Truncation to the low 160 bits, read as a signed number.
pub trait AsI160 {
    /// The number that a value stands for.
    spec fn i160_source(&self) -> int;

    /// The low 160 bits of the value in two's complement, sign-extended.
    fn as_i160(&self) -> (r: I160)
        ensures
            r@ == signed_160(self.i160_source()),
    ;
}

impl AsI160 for I256 {
    open spec fn i160_source(&self) -> int {
        self@
    }

    fn as_i160(&self) -> (r: I160) {
        let low = self.bits.as_u160();
        proof {
            lemma_two_256_pos();
            crate::int256::lemma_sign_bit(self.bits);
            crate::int256::lemma_sign_bit(low);
            lemma_view_bound(self.bits);
            // the number and its bit pattern agree modulo 2^160
            let rest: int = 0x1_0000_0000_0000_0000_0000_0000;
            assert(two_256() == two_160() * rest) by (nonlinear_arith)
                requires
                    two_256() == two_128() * two_128(),
                    two_160() == two_128() * 0x1_0000_0000,
                    two_128() == 0x1_0000_0000 * 0x1_0000_0000_0000_0000_0000_0000,
                    rest == 0x1_0000_0000_0000_0000_0000_0000,
            ;
            if self@ < 0 {
                assert(self.bits@ == two_160() * rest + self@);
                vstd::arithmetic::div_mod::lemma_mod_multiples_vanish(
                    rest,
                    self@,
                    two_160() as int,
                );
                assert(two_160() * rest + self@ == rest * two_160() + self@) by (nonlinear_arith);
            }
            assert(low@ as int == self@ % (two_160() as int));
            assert(two_160() / 2 == 0x8000_0000 * two_128()) by (nonlinear_arith)
                requires
                    two_160() == two_128() * 0x1_0000_0000,
            ;
            assert((low@ < 0x8000_0000 * two_128()) == (low.hi < 0x8000_0000)) by (nonlinear_arith)
                requires
                    low@ == low.hi * two_128() + low.lo,
                    low.lo < two_128(),
            ;
            assert(low.hi < 0x1_0000_0000) by (nonlinear_arith)
                requires
                    low@ == low.hi * two_128() + low.lo,
                    low@ < two_128() * 0x1_0000_0000,
            ;
        }
        if low.hi < 0x8000_0000 {
            I256::from_bits(low)
        } else {
            // set the bits above the low 160
            let bits = U256 { hi: low.hi + 0xffff_ffff_ffff_ffff_ffff_ffff_0000_0000, lo: low.lo };
            proof {
                crate::int256::lemma_sign_bit(bits);
                assert(bits@ == low@ + two_256() - two_160()) by (nonlinear_arith)
                    requires
                        bits@ == (low.hi + 0xffff_ffff_ffff_ffff_ffff_ffff_0000_0000) * two_128()
                            + low.lo,
                        low@ == low.hi * two_128() + low.lo,
                        two_256() == two_128() * two_128(),
                        two_160() == two_128() * 0x1_0000_0000,
                        two_128() == 0xffff_ffff_ffff_ffff_ffff_ffff_0000_0000 + 0x1_0000_0000,
                ;
            }
            I256::from_bits(bits)
        }
    }
}

/// Addition that must stay within 160 bits.
pub trait Num160Trait: Sized {
    /// The number that a value stands for.
    spec fn value160(&self) -> int;

    /// A number truncated to 160 bits, in the reading of the type: unsigned,
    /// or signed in two's complement.
    spec fn reading160(x: int) -> int;

    /// The largest sum that is accepted.
    spec fn limit160() -> int;

    /// The sum of the two numbers, each first truncated to 160 bits, itself
    /// truncated to 160 bits. The sum must not exceed the limit.
    fn add160(&self, other: Self) -> (r: Self)
        requires
            Self::reading160(self.value160()) + Self::reading160(other.value160())
                <= Self::limit160(),
        ensures
            r.value160() == Self::reading160(
                Self::reading160(self.value160()) + Self::reading160(other.value160()),
            ),
    ;
}

impl Num160Trait for U160 {
    open spec fn value160(&self) -> int {
        self@ as int
    }

    open spec fn reading160(x: int) -> int {
        x % (two_160() as int)
    }

    open spec fn limit160() -> int {
        two_160() - 1
    }

    fn add160(&self, other: Self) -> (r: Self) {
        let a = self.as_u160();
        let b = other.as_u160();
        let sum = a.wrapping_add(b);
        proof {
            lemma_two_256_pos();
            vstd::arithmetic::div_mod::lemma_small_mod(a@ + b@, two_256());
            vstd::arithmetic::div_mod::lemma_small_mod(sum@, two_160());
        }
        sum.as_u160()
    }
}

impl Num160Trait for I160 {
    open spec fn value160(&self) -> int {
        self@
    }

    open spec fn reading160(x: int) -> int {
        signed_160(x)
    }

    /// The largest sum that is accepted, 2^159 - 2.
    open spec fn limit160() -> int {
        two_160() / 2 - 2
    }

    fn add160(&self, other: Self) -> (r: Self) {
        let a = self.as_i160();
        let b = other.as_i160();
        let sum = I256::from_bits(a.bits.wrapping_add(b.bits));
        proof {
            let m: int = two_256() as int;
            lemma_two_256_pos();
            crate::int256::lemma_bits_of_value(a);
            crate::int256::lemma_bits_of_value(b);
            vstd::arithmetic::div_mod::lemma_add_mod_noop(a@, b@, m);
            vstd::arithmetic::div_mod::lemma_mod_bound(self@, two_160() as int);
            vstd::arithmetic::div_mod::lemma_mod_bound(other@, two_160() as int);
            assert(2 * two_160() < crate::int256::two_255()) by (nonlinear_arith)
                requires
                    two_160() == two_128() * 0x1_0000_0000,
                    crate::int256::two_255() == 0x8000_0000_0000_0000_0000_0000_0000_0000
                        * two_128(),
                    two_128() > 0,
            ;
            crate::int256::lemma_signed_value(sum.bits, a@ + b@);
        }
        sum.as_i160()
    }
}

/// A number below 2^160 is its own truncation.
pub proof fn lemma_as_u160_small(x: nat)
    requires
        x < two_160(),
    ensures
        x % two_160() == x,
{
    vstd::arithmetic::div_mod::lemma_small_mod(x, two_160());
}

} // verus!
