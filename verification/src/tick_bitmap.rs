//! The tick bitmap: one bit for each usable tick, set while the tick is
//! initialized, packed into 256-bit words.
//!
//! Ticks are counted in units of the tick spacing. The word of a tick is its
//! index divided by 256, rounded down, and its bit the remainder.

use vstd::prelude::*;
use vstd::arithmetic::power2::pow2;
use vstd::arithmetic::power2::lemma_pow2_pos;
use vstd::arithmetic::power2::lemma_pow2_adds;
use vstd::arithmetic::power2::lemma_pow2_strictly_increases;
use vstd::arithmetic::div_mod::lemma_fundamental_div_mod;
use vstd::arithmetic::div_mod::lemma_fundamental_div_mod_converse;
use vstd::arithmetic::div_mod::lemma_mod_bound;
use vstd::arithmetic::div_mod::lemma_small_mod;
use std::collections::HashMap;
use crate::num256::U256;
use crate::num256::two_256;
use crate::num256::lemma_two_256_pos;
use crate::num256::lemma_view_bound;
use crate::num256::lemma_named_powers;
use crate::num256::lemma_mod_of_shifted;
use crate::bit_math::BitMath;
use crate::bit_math::bit_is_set;
use crate::bit_math::lemma_bits_of_low_part;
use crate::bit_math::lemma_bits_of_high_part;
use crate::bit_math::lemma_bits_above_most_significant;
use crate::bit_math::lemma_bits_below_least_significant;
use crate::bit_math::lemma_bits_of_zero;
use crate::bit_math::lemma_flip_bit;
use crate::tick_math::MIN_TICK;
use crate::tick_math::MAX_TICK;

verus! {

broadcast use vstd::std_specs::hash::group_hash_axioms;

/// The packed bits, by word index. A word that is absent counts as zero.
pub struct TickBitmap {
    /// The words that have been written.
    pub words: HashMap<i16, U256>,
}

impl TickBitmap {
    /// The word at an index, as a number.
    pub open spec fn word(&self, index: int) -> nat {
        if i16::MIN <= index <= i16::MAX && self.words@.contains_key(index as i16) {
            self.words@[index as i16]@
        } else {
            0
        }
    }

    /// Whether the tick with the given index, in units of the tick spacing,
    /// is initialized.
    pub open spec fn is_initialized(&self, compressed: int) -> bool {
        bit_is_set(self.word(compressed / 256), (compressed % 256) as nat)
    }

    /// A bitmap without any initialized tick.
    pub fn new() -> (r: TickBitmap)
        ensures
            forall|compressed: int| !r.is_initialized(compressed),
    {
        let r = TickBitmap { words: HashMap::new() };
        proof {
            assert forall|compressed: int| !r.is_initialized(compressed) by {
                lemma_bits_of_zero((compressed % 256) as nat);
            }
        }
        r
    }

    /// The word at an index.
    pub fn get_word(&self, index: i16) -> (r: U256)
        ensures
            r@ == self.word(index as int),
    {
        match self.words.get(&index) {
            Some(word) => *word,
            None => U256::zero(),
        }
    }
}

/// The tick index in units of the tick spacing, rounded towards negative
/// infinity.
pub open spec fn compress(tick: int, tick_spacing: int) -> int {
    tick / tick_spacing
}

/// The word and the bit of a tick index: the index divided by 256, rounded
/// down, and the remainder. The index must lie between the lowest and the
/// highest tick.
pub fn position(tick: i32) -> (r: (i16, u8))
    requires
        MIN_TICK <= tick <= MAX_TICK,
    ensures
        r.0 as int == tick as int / 256,
        r.1 as int == tick as int % 256,
{
    let remainder: i32 = tick % 256;
    let bit_pos: i32 = if remainder < 0 {
        remainder + 256
    } else {
        remainder
    };
    let word_pos: i32 = (tick - bit_pos) / 256;
    proof {
        lemma_fundamental_div_mod_converse(tick as int, 256, word_pos as int, bit_pos as int);
    }
    (word_pos as i16, bit_pos as u8)
}

/// The tick index in units of the tick spacing, rounded towards negative
/// infinity.
fn compress_tick(tick: i32, tick_spacing: i32) -> (r: i32)
    requires
        MIN_TICK <= tick <= MAX_TICK,
        tick_spacing > 0,
    ensures
        r as int == compress(tick as int, tick_spacing as int),
        MIN_TICK <= r <= MAX_TICK,
        -(MAX_TICK as int) - tick_spacing < r * tick_spacing <= MAX_TICK,
        tick as int % (tick_spacing as int) == 0 ==> r * tick_spacing == tick,
{
    let ts: i32 = tick_spacing;
    let r: i32 = if tick >= 0 {
        tick / ts
    } else {
        let size: i32 = -tick;
        let quotient: i32 = size / ts;
        if size % ts == 0 {
            proof {
                lemma_fundamental_div_mod(size as int, ts as int);
                assert(tick == (-quotient) * ts + 0) by (nonlinear_arith)
                    requires
                        size == ts * quotient,
                        tick == -size,
                ;
                lemma_fundamental_div_mod_converse(tick as int, ts as int, -quotient as int, 0);
            }
            -quotient
        } else {
            proof {
                lemma_fundamental_div_mod(size as int, ts as int);
                lemma_mod_bound(size as int, ts as int);
                let rest: int = size as int % (ts as int);
                assert(tick == (-quotient - 1) * ts + (ts - rest)) by (nonlinear_arith)
                    requires
                        size == ts * quotient + rest,
                        tick == -size,
                ;
                lemma_fundamental_div_mod_converse(
                    tick as int,
                    ts as int,
                    -quotient - 1,
                    ts - rest,
                );
                assert(quotient < 887272) by (nonlinear_arith)
                    requires
                        size == ts * quotient + rest,
                        rest > 0,
                        ts >= 1,
                        size <= 887272,
                ;
            }
            -quotient - 1
        }
    };
    proof {
        lemma_fundamental_div_mod(tick as int, ts as int);
        lemma_mod_bound(tick as int, ts as int);
        assert(-887272 <= r <= 887272 && -887272 - ts < r * ts <= 887272) by (nonlinear_arith)
            requires
                tick == ts * r + tick as int % (ts as int),
                0 <= tick as int % (ts as int) < ts,
                -887272 <= tick <= 887272,
                ts >= 1,
        ;
        assert(r * ts == ts * r) by (nonlinear_arith);
    }
    r
}

/// Flips the bit of a tick, which must be a multiple of the tick spacing:
/// the tick's state goes from initialized to uninitialized or back, and no
/// other tick changes.
pub fn flip_tick(tick_bitmap: &mut TickBitmap, tick: i32, tick_spacing: i32)
    requires
        MIN_TICK <= tick <= MAX_TICK,
        tick_spacing > 0,
        tick as int % (tick_spacing as int) == 0,
    ensures
        forall|compressed: int| #[trigger]
            final(tick_bitmap).is_initialized(compressed) == (old(tick_bitmap).is_initialized(
                compressed,
            ) != (compressed == compress(tick as int, tick_spacing as int))),
{
    let compressed = compress_tick(tick, tick_spacing);
    let (word_pos, bit_pos) = position(compressed);
    let current = tick_bitmap.get_word(word_pos);
    let mask = U256::one().shl(bit_pos as u32);
    let is_set = current.shr(bit_pos as u32).is_odd();
    proof {
        lemma_two_256_pos();
        lemma_named_powers();
        lemma_view_bound(current);
        lemma_pow2_pos(bit_pos as nat);
        if bit_pos < 255 {
            lemma_pow2_strictly_increases(bit_pos as nat, 256);
        }
        if bit_pos == 255 {
            lemma_pow2_strictly_increases(255, 256);
        }
        lemma_small_mod(pow2(bit_pos as nat), two_256());
        assert(1 * pow2(bit_pos as nat) == pow2(bit_pos as nat));
        assert(mask@ == pow2(bit_pos as nat));
        assert(is_set == bit_is_set(current@, bit_pos as nat));
        lemma_flip_bit(current@, bit_pos as nat, bit_pos as nat);
        if !is_set {
            lemma_flip_stays_in_range(current@, bit_pos as nat);
            lemma_small_mod(current@ + mask@, two_256());
        } else {
            lemma_mod_of_shifted(current@ - mask@, current@ - mask@, 0);
        }
    }
    let flipped = if is_set {
        current.wrapping_sub(mask)
    } else {
        current.wrapping_add(mask)
    };
    let ghost before = *tick_bitmap;
    tick_bitmap.words.insert(word_pos, flipped);
    proof {
        assert forall|c: int| #[trigger]
            tick_bitmap.is_initialized(c) == (before.is_initialized(c) != (c == compressed)) by {
            let i: nat = (c % 256) as nat;
            if c / 256 == word_pos as int {
                lemma_flip_bit(current@, bit_pos as nat, i);
                lemma_fundamental_div_mod(c, 256);
                lemma_fundamental_div_mod(compressed as int, 256);
                assert(tick_bitmap.word(c / 256) == flipped@);
                assert(before.word(c / 256) == current@);
            } else {
                assert(tick_bitmap.word(c / 256) == before.word(c / 256));
            }
        }
    }
}

/// Setting a bit that is clear keeps a number below 2^256.
proof fn lemma_flip_stays_in_range(x: nat, b: nat)
    requires
        x < two_256(),
        b < 256,
        !bit_is_set(x, b),
    ensures
        x + pow2(b) < two_256(),
{
    lemma_named_powers();
    lemma_pow2_pos(b);
    lemma_pow2_adds(b, 1);
    lemma_pow2_adds(b + 1, (255 - b) as nat);
    lemma_pow2_pos((255 - b) as nat);
    vstd::arithmetic::power2::lemma2_to64();
    let p: nat = pow2(b);
    let h: nat = x / p;
    let l: nat = x % p;
    let c: nat = pow2((255 - b) as nat);
    lemma_fundamental_div_mod(x as int, p as int);
    lemma_mod_bound(x as int, p as int);
    // h is even and x < 2p * c, so h + 1 < 2c
    let half: nat = h / 2;
    assert(h == 2 * half);
    assert(two_256() == p * (2 * c)) by (nonlinear_arith)
        requires
            two_256() == (p * 2) * c,
    ;
    assert(h < 2 * c) by (nonlinear_arith)
        requires
            x == p * h + l,
            x < p * (2 * c),
            p > 0,
    ;
    assert(h + 2 <= 2 * c);
    assert(p * (h + 2) <= p * (2 * c)) by (nonlinear_arith)
        requires
            h + 2 <= 2 * c,
            p > 0,
    ;
    assert(x + p < p * (h + 2)) by (nonlinear_arith)
        requires
            x == p * h + l,
            l < p,
    ;
}

/// What `next_initialized_tick_within_one_word` finds, in units of the tick
/// spacing, from the index `compressed`.
///
/// Searching downwards (`lte`), the search covers the indices of the word of
/// `compressed` from its first up to `compressed`: `next` is the greatest
/// initialized index among them, or, where there is none, the first index of
/// the word. Searching upwards, it covers the indices of the word of
/// `compressed + 1` from `compressed + 1` up to its last: `next` is the least
/// initialized index among them, or, where there is none, the last index of
/// the word.
pub open spec fn is_next_in_word(
    bitmap: TickBitmap,
    compressed: int,
    lte: bool,
    next: int,
    initialized: bool,
) -> bool {
    if lte {
        let first = compressed - compressed % 256;
        if initialized {
            &&& first <= next <= compressed
            &&& bitmap.is_initialized(next)
            &&& forall|m: int| next < m <= compressed ==> !#[trigger] bitmap.is_initialized(m)
        } else {
            &&& next == first
            &&& forall|m: int| first <= m <= compressed ==> !#[trigger] bitmap.is_initialized(m)
        }
    } else {
        let start = compressed + 1;
        let last = start + 255 - start % 256;
        if initialized {
            &&& start <= next <= last
            &&& bitmap.is_initialized(next)
            &&& forall|m: int| start <= m < next ==> !#[trigger] bitmap.is_initialized(m)
        } else {
            &&& next == last
            &&& forall|m: int| start <= m <= last ==> !#[trigger] bitmap.is_initialized(m)
        }
    }
}

/// Whether a search from `tick` stays within the indices that have a word:
/// a search downwards always does, a search upwards unless the tick after
/// `tick`, in units of the tick spacing, lies above the highest tick.
pub fn can_search(tick: i32, tick_spacing: i32, lte: bool) -> (r: bool)
    requires
        MIN_TICK <= tick <= MAX_TICK,
        tick_spacing > 0,
    ensures
        r == (lte || compress(tick as int, tick_spacing as int) + 1 <= MAX_TICK),
{
    lte || compress_tick(tick, tick_spacing) < MAX_TICK
}

/// What the search finds is determined by the bitmap: two results of one
/// search are the same.
pub proof fn lemma_next_in_word_is_unique(
    bitmap: TickBitmap,
    compressed: int,
    lte: bool,
    next: int,
    initialized: bool,
    other_next: int,
    other_initialized: bool,
)
    requires
        is_next_in_word(bitmap, compressed, lte, next, initialized),
        is_next_in_word(bitmap, compressed, lte, other_next, other_initialized),
    ensures
        next == other_next,
        initialized == other_initialized,
{
    if initialized && !other_initialized {
        assert(bitmap.is_initialized(next));
    }
    if !initialized && other_initialized {
        assert(bitmap.is_initialized(other_next));
    }
    if initialized && other_initialized && next != other_next {
        assert(bitmap.is_initialized(next));
        assert(bitmap.is_initialized(other_next));
    }
}

/// The result of the search from the index `compressed`: the next index and
/// whether the tick there is initialized.
pub open spec fn next_in_word(bitmap: TickBitmap, compressed: int, lte: bool) -> (int, bool) {
    choose|found: (int, bool)| is_next_in_word(bitmap, compressed, lte, found.0, found.1)
}

/// The next initialized tick within one word of the bitmap, at or below
/// `tick` (`lte`) or above it, and whether there is one; where there is
/// none, the tick at the end of the word in the direction of the search.
///
/// Only one word is looked at: the word of `tick` when searching downwards,
/// the word of the next tick when searching upwards.
pub fn next_initialized_tick_within_one_word(
    tick_bitmap: &TickBitmap,
    tick: i32,
    tick_spacing: i32,
    lte: bool,
) -> (r: (i32, bool))
    requires
        MIN_TICK <= tick <= MAX_TICK,
        0 < tick_spacing <= MAX_TICK,
        !lte ==> compress(tick as int, tick_spacing as int) + 1 <= MAX_TICK,
    ensures
        r.0 as int % (tick_spacing as int) == 0,
        is_next_in_word(
            *tick_bitmap,
            compress(tick as int, tick_spacing as int),
            lte,
            r.0 as int / (tick_spacing as int),
            r.1,
        ),
        r.0 == next_in_word(*tick_bitmap, compress(tick as int, tick_spacing as int), lte).0
            * tick_spacing,
        r.1 == next_in_word(*tick_bitmap, compress(tick as int, tick_spacing as int), lte).1,
        lte ==> r.0 <= tick,
        !lte ==> r.0 > tick,
{
    let r = find_next_in_word(tick_bitmap, tick, tick_spacing, lte);
    proof {
        let ts: int = tick_spacing as int;
        let c: int = compress(tick as int, ts);
        let n: int = r.0 as int / ts;
        let found = next_in_word(*tick_bitmap, c, lte);
        assert(is_next_in_word(*tick_bitmap, c, lte, (n, r.1).0, (n, r.1).1));
        lemma_next_in_word_is_unique(*tick_bitmap, c, lte, n, r.1, found.0, found.1);
        vstd::arithmetic::div_mod::lemma_fundamental_div_mod(r.0 as int, ts);
        vstd::arithmetic::div_mod::lemma_fundamental_div_mod(tick as int, ts);
        vstd::arithmetic::div_mod::lemma_fundamental_div_mod(c, 256);
        vstd::arithmetic::div_mod::lemma_mod_bound(tick as int, ts);
        vstd::arithmetic::div_mod::lemma_mod_bound(c, 256);
        vstd::arithmetic::div_mod::lemma_mod_bound(c + 1, 256);
        assert(r.0 == n * ts) by (nonlinear_arith)
            requires
                r.0 == ts * n + (r.0 as int) % ts,
                (r.0 as int) % ts == 0,
        ;
        if lte {
            assert(n * ts <= tick) by (nonlinear_arith)
                requires
                    n <= c,
                    tick == ts * c + (tick as int) % ts,
                    0 <= (tick as int) % ts,
                    ts > 0,
            ;
        } else {
            assert(n * ts > tick) by (nonlinear_arith)
                requires
                    n >= c + 1,
                    tick == ts * c + (tick as int) % ts,
                    (tick as int) % ts < ts,
                    ts > 0,
            ;
        }
    }
    r
}

/// The search of `next_initialized_tick_within_one_word`.
fn find_next_in_word(tick_bitmap: &TickBitmap, tick: i32, tick_spacing: i32, lte: bool) -> (r: (
    i32,
    bool,
))
    requires
        MIN_TICK <= tick <= MAX_TICK,
        0 < tick_spacing <= MAX_TICK,
        !lte ==> compress(tick as int, tick_spacing as int) + 1 <= MAX_TICK,
    ensures
        r.0 as int % (tick_spacing as int) == 0,
        is_next_in_word(
            *tick_bitmap,
            compress(tick as int, tick_spacing as int),
            lte,
            r.0 as int / (tick_spacing as int),
            r.1,
        ),
{
    let compressed = compress_tick(tick, tick_spacing);
    let ghost ts: int = tick_spacing as int;
    proof {
        lemma_two_256_pos();
        lemma_named_powers();
    }
    if lte {
        let (word_pos, bit_pos) = position(compressed);
        let word = tick_bitmap.get_word(word_pos);
        // the bits at or below the position
        let masked = if bit_pos == 255 {
            word
        } else {
            proof {
                lemma_pow2_pos((bit_pos + 1) as nat);
                if bit_pos + 1 < 256 {
                    lemma_pow2_strictly_increases((bit_pos + 1) as nat, 256);
                }
                lemma_small_mod(pow2((bit_pos + 1) as nat), two_256());
                assert(1 * pow2((bit_pos + 1) as nat) == pow2((bit_pos + 1) as nat));
            }
            word.rem(U256::one().shl(bit_pos as u32 + 1))
        };
        proof {
            lemma_view_bound(word);
            if bit_pos == 255 {
                lemma_small_mod(word@, pow2(256));
            }
            assert(masked@ == word@ % pow2((bit_pos + 1) as nat));
            lemma_fundamental_div_mod(compressed as int, 256);
        }
        let initialized = !masked.is_zero();
        let ghost first: int = compressed - bit_pos;
        let offset: i32 = if initialized {
            let msb = BitMath::most_significant_bit(masked);
            proof {
                lemma_bits_above_most_significant(masked@, msb as nat, msb as nat);
                lemma_bits_of_low_part(word@, (bit_pos + 1) as nat, msb as nat);
                assert(msb <= bit_pos);
                assert forall|m: int| first + msb < m <= compressed implies !#[trigger]
                    tick_bitmap.is_initialized(m) by {
                    let j: int = m - first;
                    lemma_fundamental_div_mod_converse(m, 256, word_pos as int, j);
                    lemma_bits_above_most_significant(masked@, msb as nat, j as nat);
                    lemma_bits_of_low_part(word@, (bit_pos + 1) as nat, j as nat);
                }
                lemma_fundamental_div_mod_converse(
                    first + msb,
                    256,
                    word_pos as int,
                    msb as int,
                );
            }
            (bit_pos as i32) - (msb as i32)
        } else {
            proof {
                assert forall|m: int| first <= m <= compressed implies !#[trigger]
                    tick_bitmap.is_initialized(m) by {
                    let j: int = m - first;
                    lemma_fundamental_div_mod_converse(m, 256, word_pos as int, j);
                    lemma_bits_of_zero(j as nat);
                    lemma_bits_of_low_part(word@, (bit_pos + 1) as nat, j as nat);
                }
            }
            bit_pos as i32
        };
        proof {
            lemma_scaled_tick(compressed as int - offset, compressed as int, ts);
        }
        let next: i32 = (compressed - offset) * tick_spacing;
        (next, initialized)
    } else {
        // start from the word of the next tick: the state of the current tick does not count
        let (word_pos, bit_pos) = position(compressed + 1);
        let word = tick_bitmap.get_word(word_pos);
        // the bits at or above the position
        let masked = word.shr(bit_pos as u32).shl(bit_pos as u32);
        let ghost start: int = compressed + 1;
        proof {
            lemma_view_bound(word);
            lemma_pow2_pos(bit_pos as nat);
            let h: nat = word@ / pow2(bit_pos as nat);
            crate::full_math::lemma_div_floor_bounds(word@, pow2(bit_pos as nat));
            lemma_small_mod(h * pow2(bit_pos as nat), two_256());
            assert(masked@ == (word@ / pow2(bit_pos as nat)) * pow2(bit_pos as nat));
            lemma_fundamental_div_mod(start, 256);
        }
        let initialized = !masked.is_zero();
        let offset: i32 = if initialized {
            let lsb = BitMath::least_significant_bit(masked);
            proof {
                lemma_bits_below_least_significant(masked@, lsb as nat, lsb as nat);
                lemma_bits_of_high_part(word@, bit_pos as nat, lsb as nat);
                assert(lsb >= bit_pos);
                assert forall|m: int| start <= m < start + (lsb - bit_pos) implies !#[trigger]
                    tick_bitmap.is_initialized(m) by {
                    let j: int = m - start + bit_pos;
                    lemma_fundamental_div_mod_converse(m, 256, word_pos as int, j);
                    lemma_bits_below_least_significant(masked@, lsb as nat, j as nat);
                    lemma_bits_of_high_part(word@, bit_pos as nat, j as nat);
                }
                lemma_fundamental_div_mod_converse(
                    start + (lsb - bit_pos),
                    256,
                    word_pos as int,
                    lsb as int,
                );
            }
            (lsb as i32) - (bit_pos as i32)
        } else {
            proof {
                assert forall|m: int| start <= m <= start + 255 - bit_pos implies !#[trigger]
                    tick_bitmap.is_initialized(m) by {
                    let j: int = m - start + bit_pos;
                    lemma_fundamental_div_mod_converse(m, 256, word_pos as int, j);
                    lemma_bits_of_zero(j as nat);
                    lemma_bits_of_high_part(word@, bit_pos as nat, j as nat);
                }
            }
            255 - (bit_pos as i32)
        };
        proof {
            lemma_scaled_tick(compressed as int + 1 + offset, compressed as int, ts);
        }
        let next: i32 = (compressed + 1 + offset) * tick_spacing;
        (next, initialized)
    }
}

/// An index within 256 of a compressed tick, times the tick spacing, fits in
/// 32 bits and divides back to the index.
proof fn lemma_scaled_tick(n: int, compressed: int, ts: int)
    requires
        0 < ts <= 887272,
        -887272 - ts < compressed * ts <= 887272,
        compressed - 256 <= n <= compressed + 257,
    ensures
        i32::MIN < n * ts < i32::MAX,
        (n * ts) / ts == n,
        (n * ts) % ts == 0,
{
    assert(-887272 - 257 * ts <= n * ts <= 887272 + 257 * ts) by (nonlinear_arith)
        requires
            0 < ts,
            -887272 - ts < compressed * ts <= 887272,
            compressed - 256 <= n <= compressed + 257,
    ;
    lemma_fundamental_div_mod_converse(n * ts, ts, n, 0);
}

} // verus!
