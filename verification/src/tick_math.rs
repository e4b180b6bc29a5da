//! Conversion between tick indices and square-root prices.
//!
//! The price at tick `t` is `1.0001^t`; its square root is kept as a Q64.96
//! number. The conversion from a tick multiplies, for each bit of the tick's
//! absolute value, by a fixed factor; the conversion back estimates the tick
//! from the binary logarithm of the price and checks the estimate against the
//! forward conversion.

use vstd::prelude::*;
use vstd::arithmetic::power2::pow2;
use vstd::arithmetic::power2::lemma_pow2_pos;
use vstd::arithmetic::power2::lemma_pow2_adds;
use vstd::arithmetic::power2::lemma2_to64;
use vstd::arithmetic::div_mod::lemma_small_mod;
use crate::num256::U256;
use crate::num256::two_128;
use crate::num256::two_160;
use crate::num256::two_256;
use crate::num256::lemma_two_256_pos;
use crate::num256::lemma_view_bound;
use crate::num256::lemma_named_powers;
use crate::num160::U160;
use crate::num160::AsU160;
use crate::num24::I24;
use crate::bit_math::BitMath;
use crate::bit_math::bit_is_set;

verus! {

/// The lowest tick.
pub const MIN_TICK: I24 = -887272;

/// The highest tick.
pub const MAX_TICK: I24 = 887272;

/// The square-root price at the lowest tick.
pub open spec fn lowest_sqrt_ratio() -> nat {
    4295128739
}

/// The square-root price at the highest tick,
/// 1461446703485210103287273052203988822378723970342.
pub open spec fn highest_sqrt_ratio() -> nat {
    0xfffd_8963 * two_128() + 0xefd1_fc6a_5064_8849_5d95_1d52_6398_8d26
}

/// The limits of ticks and of square-root prices.
pub struct TickConstants;

impl TickConstants {
    /// The lowest tick.
    pub const MIN_TICK: I24 = -887272;

    /// The highest tick.
    pub const MAX_TICK: I24 = 887272;

    /// The square-root price at the lowest tick.
    pub fn min_sqrt_ratio() -> (r: U160)
        ensures
            r@ == lowest_sqrt_ratio(),
    {
        U256::from_u128(4295128739)
    }

    /// The square-root price at the highest tick.
    pub fn max_sqrt_ratio() -> (r: U160)
        ensures
            r@ == highest_sqrt_ratio(),
    {
        U256::from_words(0xfffd_8963, 0xefd1_fc6a_5064_8849_5d95_1d52_6398_8d26)
    }
}

/// The factors of the ladder: factor `i` is `1.0001^(-2^i / 2)` as a Q128.128
/// number, rounded.
pub open spec fn ladder_factor(i: nat) -> nat {
    if i == 0 {
        0xfffc_b933_bd6f_ad37_aa2d_162d_1a59_4001
    } else if i == 1 {
        0xfff9_7272_373d_4132_59a4_6990_580e_213a
    } else if i == 2 {
        0xfff2_e50f_5f65_6932_ef12_357c_f3c7_fdcc
    } else if i == 3 {
        0xffe5_caca_7e10_e4e6_1c36_24ea_a094_1cd0
    } else if i == 4 {
        0xffcb_9843_d60f_6159_c9db_5883_5c92_6644
    } else if i == 5 {
        0xff97_3b41_fa98_c081_472e_6896_dfb2_54c0
    } else if i == 6 {
        0xff2e_a164_66c9_6a38_43ec_78b3_26b5_2861
    } else if i == 7 {
        0xfe5d_ee04_6a99_a2a8_11c4_61f1_969c_3053
    } else if i == 8 {
        0xfcbe_86c7_900a_88ae_dcff_c83b_479a_a3a4
    } else if i == 9 {
        0xf987_a725_3ac4_1317_6f2b_074c_f781_5e54
    } else if i == 10 {
        0xf339_2b08_22b7_0005_940c_7a39_8e4b_70f3
    } else if i == 11 {
        0xe715_9475_a2c2_9b74_43b2_9c7f_a6e8_89d9
    } else if i == 12 {
        0xd097_f3bd_fd20_22b8_845a_d8f7_92aa_5825
    } else if i == 13 {
        0xa9f7_4646_2d87_0fdf_8a65_dc1f_90e0_61e5
    } else if i == 14 {
        0x70d8_69a1_56d2_a1b8_90bb_3df6_2baf_32f7
    } else if i == 15 {
        0x31be_135f_97d0_8fd9_8123_1505_542f_cfa6
    } else if i == 16 {
        0x9aa_508b_5b7a_84e1_c677_de54_f3e9_9bc9
    } else if i == 17 {
        0x5d_6af8_dedb_8119_6699_c329_225e_e604
    } else if i == 18 {
        0x2216_e584_f5fa_1ea9_2604_1bed_fe98
    } else {
        0x48a_1703_91f7_dc42_444e_8fa2
    }
}

/// The ladder: starting from 1 as a Q128.128 number, the product of the
/// factors of the low `k` bits that are set in `abs_tick`, each product
/// shifted right by 128 bits.
pub open spec fn ladder(abs_tick: nat, k: nat) -> nat
    decreases k,
{
    if k == 0 {
        two_128()
    } else {
        let before = ladder(abs_tick, (k - 1) as nat);
        if bit_is_set(abs_tick, (k - 1) as nat) {
            (before * ladder_factor((k - 1) as nat)) / two_128()
        } else {
            before
        }
    }
}

/// A Q128.128 number as a Q128.96 number: the division by 2^32, rounded up.
pub open spec fn round_up_32(x: nat) -> nat {
    x / 0x1_0000_0000 + (if x % 0x1_0000_0000 == 0 {
        0nat
    } else {
        1nat
    })
}

/// The square-root price at a tick as a Q128.128 number: the ladder over the
/// 20 bits of the tick's absolute value, inverted for a positive tick.
pub open spec fn ratio_q128(tick: int) -> nat {
    let abs_tick = (if tick < 0 {
        -tick
    } else {
        tick
    }) as nat;
    let down = ladder(abs_tick, 20);
    if tick > 0 {
        ((two_256() - 1) / (down as int)) as nat
    } else {
        down
    }
}

/// The square-root price at a tick, `sqrt(1.0001^tick) * 2^96`, as a Q64.96
/// number.
pub open spec fn sqrt_ratio_at_tick(tick: int) -> nat {
    round_up_32(ratio_q128(tick))
}

/// By how many bits factor `i` may shorten the ladder's value: the factor is
/// at least `2^(128 - narrowing(i))`.
pub open spec fn narrowing(i: nat) -> nat {
    if i <= 13 {
        1
    } else if i == 14 {
        2
    } else if i == 15 {
        3
    } else if i == 16 {
        5
    } else if i == 17 {
        10
    } else if i == 18 {
        19
    } else {
        38
    }
}

/// The sum of `narrowing` over the factors below `i`.
pub open spec fn narrowing_below(i: nat) -> nat {
    if i <= 14 {
        i
    } else if i == 15 {
        16
    } else if i == 16 {
        19
    } else if i == 17 {
        24
    } else if i == 18 {
        34
    } else if i == 19 {
        53
    } else {
        91
    }
}

/// The powers of two that bound the factors from below.
proof fn lemma_narrowing_powers()
    ensures
        pow2(127) == 0x8000_0000_0000_0000_0000_0000_0000_0000,
        pow2(126) == 0x4000_0000_0000_0000_0000_0000_0000_0000,
        pow2(125) == 0x2000_0000_0000_0000_0000_0000_0000_0000,
        pow2(123) == 0x800_0000_0000_0000_0000_0000_0000_0000,
        pow2(118) == 0x40_0000_0000_0000_0000_0000_0000_0000,
        pow2(109) == 0x2000_0000_0000_0000_0000_0000_0000,
        pow2(90) == 0x400_0000_0000_0000_0000_0000,
{
    lemma2_to64();
    vstd::arithmetic::power2::lemma2_to64_rest();
    lemma_pow2_adds(64, 63);
    lemma_pow2_adds(64, 62);
    lemma_pow2_adds(64, 61);
    lemma_pow2_adds(64, 59);
    lemma_pow2_adds(64, 54);
    lemma_pow2_adds(64, 45);
    lemma_pow2_adds(64, 26);
    assert(pow2(127) == 0x8000_0000_0000_0000_0000_0000_0000_0000) by (nonlinear_arith)
        requires
            pow2(127) == pow2(64) * pow2(63),
            pow2(64) == 0x1_0000_0000_0000_0000,
            pow2(63) == 0x8000_0000_0000_0000,
    ;
    assert(pow2(126) == 0x4000_0000_0000_0000_0000_0000_0000_0000) by (nonlinear_arith)
        requires
            pow2(126) == pow2(64) * pow2(62),
            pow2(64) == 0x1_0000_0000_0000_0000,
            pow2(62) == 0x4000_0000_0000_0000,
    ;
    assert(pow2(125) == 0x2000_0000_0000_0000_0000_0000_0000_0000) by (nonlinear_arith)
        requires
            pow2(125) == pow2(64) * pow2(61),
            pow2(64) == 0x1_0000_0000_0000_0000,
            pow2(61) == 0x2000_0000_0000_0000,
    ;
    assert(pow2(123) == 0x800_0000_0000_0000_0000_0000_0000_0000) by (nonlinear_arith)
        requires
            pow2(123) == pow2(64) * pow2(59),
            pow2(64) == 0x1_0000_0000_0000_0000,
            pow2(59) == 0x800_0000_0000_0000,
    ;
    assert(pow2(118) == 0x40_0000_0000_0000_0000_0000_0000_0000) by (nonlinear_arith)
        requires
            pow2(118) == pow2(64) * pow2(54),
            pow2(64) == 0x1_0000_0000_0000_0000,
            pow2(54) == 0x40_0000_0000_0000,
    ;
    assert(pow2(109) == 0x2000_0000_0000_0000_0000_0000_0000) by (nonlinear_arith)
        requires
            pow2(109) == pow2(64) * pow2(45),
            pow2(64) == 0x1_0000_0000_0000_0000,
            pow2(45) == 0x2000_0000_0000,
    ;
    assert(pow2(90) == 0x400_0000_0000_0000_0000_0000) by (nonlinear_arith)
        requires
            pow2(90) == pow2(64) * pow2(26),
            pow2(64) == 0x1_0000_0000_0000_0000,
            pow2(26) == 0x400_0000,
    ;
}

/// Factor `i` of the ladder.
fn ladder_constant(i: u32) -> (c: U256)
    requires
        i < 20,
    ensures
        c@ == ladder_factor(i as nat),
        pow2((128 - narrowing(i as nat)) as nat) <= c@ < two_128(),
{
    let value: u128 = match i {
        0 => 0xfffc_b933_bd6f_ad37_aa2d_162d_1a59_4001,
        1 => 0xfff9_7272_373d_4132_59a4_6990_580e_213a,
        2 => 0xfff2_e50f_5f65_6932_ef12_357c_f3c7_fdcc,
        3 => 0xffe5_caca_7e10_e4e6_1c36_24ea_a094_1cd0,
        4 => 0xffcb_9843_d60f_6159_c9db_5883_5c92_6644,
        5 => 0xff97_3b41_fa98_c081_472e_6896_dfb2_54c0,
        6 => 0xff2e_a164_66c9_6a38_43ec_78b3_26b5_2861,
        7 => 0xfe5d_ee04_6a99_a2a8_11c4_61f1_969c_3053,
        8 => 0xfcbe_86c7_900a_88ae_dcff_c83b_479a_a3a4,
        9 => 0xf987_a725_3ac4_1317_6f2b_074c_f781_5e54,
        10 => 0xf339_2b08_22b7_0005_940c_7a39_8e4b_70f3,
        11 => 0xe715_9475_a2c2_9b74_43b2_9c7f_a6e8_89d9,
        12 => 0xd097_f3bd_fd20_22b8_845a_d8f7_92aa_5825,
        13 => 0xa9f7_4646_2d87_0fdf_8a65_dc1f_90e0_61e5,
        14 => 0x70d8_69a1_56d2_a1b8_90bb_3df6_2baf_32f7,
        15 => 0x31be_135f_97d0_8fd9_8123_1505_542f_cfa6,
        16 => 0x9aa_508b_5b7a_84e1_c677_de54_f3e9_9bc9,
        17 => 0x5d_6af8_dedb_8119_6699_c329_225e_e604,
        18 => 0x2216_e584_f5fa_1ea9_2604_1bed_fe98,
        _ => 0x48a_1703_91f7_dc42_444e_8fa2,
    };
    proof {
        lemma_narrowing_powers();
    }
    U256::from_u128(value)
}

/// One rung of the ladder keeps its value within the bounds that the
/// narrowing of the factor gives.
proof fn lemma_ladder_step(before: nat, factor: nat, i: nat)
    requires
        i < 20,
        pow2((128 - narrowing_below(i)) as nat) <= before <= two_128(),
        pow2((128 - narrowing(i)) as nat) <= factor < two_128(),
    ensures
        before * factor < two_256(),
        pow2((128 - narrowing_below(i + 1)) as nat) <= (before * factor) / two_128() <= two_128(),
        pow2((128 - narrowing_below(i + 1)) as nat) <= before,
{
    lemma_two_256_pos();
    lemma_named_powers();
    let a: nat = (128 - narrowing_below(i)) as nat;
    let b: nat = (128 - narrowing(i)) as nat;
    let c: nat = (128 - narrowing_below(i + 1)) as nat;
    assert(a + b == c + 128);
    lemma_pow2_adds(a, b);
    lemma_pow2_adds(c, 128);
    lemma_pow2_pos(c);
    assert(before * factor < two_128() * two_128()) by (nonlinear_arith)
        requires
            before <= two_128(),
            factor < two_128(),
            two_128() > 0,
    ;
    assert(pow2(c) * two_128() <= before * factor) by (nonlinear_arith)
        requires
            pow2(a) <= before,
            pow2(b) <= factor,
            pow2(a) * pow2(b) == pow2(c) * two_128(),
    ;
    crate::full_math::lemma_div_floor_compare(before * factor, two_128(), pow2(c));
    assert(before * factor <= two_128() * two_128()) by (nonlinear_arith)
        requires
            before <= two_128(),
            factor < two_128(),
    ;
    crate::full_math::lemma_div_floor_compare(before * factor, two_128(), two_128() + 1);
    assert(before * factor < (two_128() + 1) * two_128()) by (nonlinear_arith)
        requires
            before * factor <= two_128() * two_128(),
            two_128() > 0,
    ;
    if c < a {
        vstd::arithmetic::power2::lemma_pow2_strictly_increases(c, a);
    }
}

/// The square-root price at a tick between the lowest and the highest.
pub fn get_sqrt_ratio_at_tick(tick: I24) -> (r: U160)
    requires
        MIN_TICK <= tick <= MAX_TICK,
    ensures
        r@ == sqrt_ratio_at_tick(tick as int),
        lowest_sqrt_ratio() <= r@ <= highest_sqrt_ratio(),
        r@ < two_160(),
{
    proof {
        crate::tick_order::lemma_sqrt_ratio_in_range(tick as int);
    }
    let abs_tick: u32 = if tick < 0 {
        (-tick) as u32
    } else {
        tick as u32
    };
    let mut ratio = U256::from_words(1, 0);
    let mut i: u32 = 0;
    proof {
        lemma_named_powers();
        lemma_two_256_pos();
        assert(1 * two_128() + 0 == two_128());
    }
    while i < 20
        invariant
            i <= 20,
            ratio@ == ladder(abs_tick as nat, i as nat),
            pow2((128 - narrowing_below(i as nat)) as nat) <= ratio@ <= two_128(),
        decreases 20 - i,
    {
        let bit: u32 = (abs_tick >> i) & 1;
        proof {
            lemma_named_powers();
            lemma_two_256_pos();
            let shifted: u32 = abs_tick >> i;
            assert(shifted & 1 == shifted % 2) by (bit_vector);
            vstd::bits::lemma_u32_shr_is_div(abs_tick, i);
            assert((bit == 1) == bit_is_set(abs_tick as nat, i as nat));
        }
        let factor = ladder_constant(i);
        proof {
            lemma_ladder_step(ratio@, factor@, i as nat);
        }
        if bit == 1 {
            proof {
                lemma_small_mod(ratio@ * factor@, two_256());
            }
            ratio = ratio.wrapping_mul(factor).shr(128);
        }
        i = i + 1;
    }
    proof {
        lemma_pow2_pos(37);
    }
    if tick > 0 {
        ratio = U256::max_value().div(ratio);
    }
    let extra = if ratio.rem(U256::from_u128(0x1_0000_0000)).is_zero() {
        U256::zero()
    } else {
        U256::one()
    };
    let whole = ratio.shr(32);
    proof {
        lemma2_to64();
        lemma_view_bound(ratio);
        assert(whole@ + extra@ < two_256()) by (nonlinear_arith)
            requires
                whole@ == ratio@ / 0x1_0000_0000,
                ratio@ < two_256(),
                extra@ <= 1,
                two_256() > 2,
        ;
        lemma_small_mod(whole@ + extra@, two_256());
        crate::num160::lemma_as_u160_small(whole@ + extra@);
    }
    whole.wrapping_add(extra).as_u160()
}

/// The square-root price at a tick, or `None` for a tick below the lowest
/// or above the highest.
pub fn checked_get_sqrt_ratio_at_tick(tick: I24) -> (r: Option<U160>)
    ensures
        MIN_TICK <= tick <= MAX_TICK ==> r.is_some() && r.unwrap()@ == sqrt_ratio_at_tick(
            tick as int,
        ),
        !(MIN_TICK <= tick <= MAX_TICK) ==> r.is_none(),
{
    if tick < MIN_TICK || tick > MAX_TICK {
        None
    } else {
        Some(get_sqrt_ratio_at_tick(tick))
    }
}

/// A 128-bit word read as a signed number in two's complement.
fn signed_word(word: u128) -> (r: i128)
    ensures
        word < 0x8000_0000_0000_0000_0000_0000_0000_0000 ==> r == word,
        word >= 0x8000_0000_0000_0000_0000_0000_0000_0000 ==> r == word - u128::MAX - 1,
{
    if word < 0x8000_0000_0000_0000_0000_0000_0000_0000 {
        word as i128
    } else {
        -((u128::MAX - word) as i128) - 1
    }
}

/// The index of the most significant bit of a number that is not zero.
pub open spec fn most_significant_bit_of(x: nat) -> nat {
    choose|r: nat| crate::bit_math::is_most_significant_bit(x, r)
}

/// A number has one most significant bit.
pub proof fn lemma_most_significant_bit_is_unique(x: nat, r: nat)
    requires
        crate::bit_math::is_most_significant_bit(x, r),
    ensures
        most_significant_bit_of(x) == r,
{
    let other: nat = most_significant_bit_of(x);
    if other < r {
        if other + 1 < r {
            vstd::arithmetic::power2::lemma_pow2_strictly_increases(other + 1, r);
        }
    }
    if r < other {
        if r + 1 < other {
            vstd::arithmetic::power2::lemma_pow2_strictly_increases(r + 1, other);
        }
    }
}

/// A number that is not zero, shifted so that its most significant bit is
/// bit 127: a Q1.127 number between 1 and 2.
pub open spec fn normalized(x: nat) -> nat {
    let msb = most_significant_bit_of(x);
    if msb >= 128 {
        x / pow2((msb - 127) as nat)
    } else {
        x * pow2((127 - msb) as nat)
    }
}

/// The binary places of the logarithm of a Q1.127 number between 1 and 2,
/// from place `i` down to place 13, as a Q64.64 number: at each place the
/// number is squared; where the square reaches 2, the place is set and the
/// square is halved.
pub open spec fn log2_places(r: nat, i: nat) -> int
    decreases 14 - i,
{
    if i >= 14 {
        0
    } else {
        let squared = (r * r) / pow2(127);
        let bit = squared / pow2(128);
        bit * pow2((63 - i) as nat) + log2_places(squared / pow2(bit), i + 1)
    }
}

/// The binary logarithm of a Q128.128 number that is not zero, to 14 binary
/// places, as a Q64.64 number: the whole part from the most significant bit,
/// the binary places by repeated squaring.
pub open spec fn log2_estimate(x: nat) -> int {
    (most_significant_bit_of(x) - 128) * pow2(64) + log2_places(normalized(x), 0)
}

/// The two candidates for the tick of a price: the binary logarithm of the
/// price, as a Q128.128 number within 256 bits, times
/// `log(2) / log(sqrt(1.0001))`, less the greatest error below and plus the
/// greatest error above, each rounded down to a whole number.
pub open spec fn tick_estimate(price: nat) -> (int, int) {
    let ratio = (price * pow2(32)) % two_256();
    if ratio == 0 {
        (0int, 0int)
    } else {
        let log_sqrt10001 = log2_estimate(ratio) * 255738958999603826347141;
        (
            (log_sqrt10001 - 3402992956809132418596140100660247210) / (two_128() as int),
            (log_sqrt10001 + 291339464771989622907027621153398088495) / (two_128() as int),
        )
    }
}

/// A number that is not zero, normalized, lies between 2^127 and 2^128.
proof fn lemma_normalized_range(x: nat, msb: nat)
    requires
        crate::bit_math::is_most_significant_bit(x, msb),
        msb < 256,
    ensures
        pow2(127) <= normalized(x) < pow2(128),
        most_significant_bit_of(x) == msb,
{
    lemma_most_significant_bit_is_unique(x, msb);
    lemma_pow2_adds(msb, 1);
    lemma2_to64();
    if msb >= 128 {
        let k: nat = (msb - 127) as nat;
        lemma_pow2_pos(k);
        lemma_pow2_adds(127, k);
        lemma_pow2_adds(128, k);
        lemma_pow2_adds(127, 1);
        assert(pow2(msb + 1) == pow2(128) * pow2(k)) by (nonlinear_arith)
            requires
                pow2(msb + 1) == pow2(msb) * 2,
                pow2(msb) == pow2(127) * pow2(k),
                pow2(128) == pow2(127) * 2,
        ;
        crate::full_math::lemma_div_floor_compare(x, pow2(k), pow2(127));
        crate::full_math::lemma_div_floor_compare(x, pow2(k), pow2(128));
    } else {
        let k: nat = (127 - msb) as nat;
        lemma_pow2_adds(msb, k);
        lemma_pow2_adds(msb + 1, k);
        lemma_pow2_pos(k);
        assert(pow2(127) <= x * pow2(k) < pow2(128)) by (nonlinear_arith)
            requires
                pow2(msb) <= x < pow2(msb + 1),
                pow2(127) == pow2(msb) * pow2(k),
                pow2(128) == pow2(msb + 1) * pow2(k),
                pow2(k) > 0,
        ;
    }
}

/// The square of a Q1.127 number between 1 and 2 fits in 256 bits and, as a
/// Q1.127 number, lies between 1 and 4; halved where it reaches 2, it lies
/// between 1 and 2 again.
proof fn lemma_squaring(r: nat)
    requires
        pow2(127) <= r < pow2(128),
    ensures
        r * r < two_256(),
        pow2(127) <= (r * r) / pow2(127),
        (r * r) / pow2(127) / pow2(128) <= 1,
        pow2(127) <= (r * r) / pow2(127) / pow2((r * r) / pow2(127) / pow2(128)) < pow2(128),
{
    let h: nat = pow2(127);
    let d: nat = pow2(128);
    lemma_named_powers();
    lemma_two_256_pos();
    lemma2_to64();
    lemma_pow2_adds(127, 1);
    lemma_pow2_pos(127);
    assert(d == 2 * h);
    assert(h * h <= r * r && r * r < d * d) by (nonlinear_arith)
        requires
            h <= r < d,
    ;
    let s: nat = (r * r) / h;
    crate::full_math::lemma_div_floor_compare(r * r, h, h);
    crate::full_math::lemma_div_floor_compare(r * r, h, 2 * d);
    assert(d * d == (2 * d) * h) by (nonlinear_arith)
        requires
            d == 2 * h,
    ;
    assert(h <= s < 2 * d);
    crate::full_math::lemma_div_floor_compare(s, d, 2);
    crate::full_math::lemma_div_floor_compare(s, d, 1);
    let bit: nat = s / d;
    assert(bit <= 1);
    if bit == 0 {
        assert(s < d);
        assert(pow2(0) == 1);
        assert(s / 1 == s);
    } else {
        assert(bit == 1);
        assert(s >= d);
        assert(pow2(1) == 2);
        assert(h <= s / 2 && s / 2 < d);
    }
}

/// The high word of a number in two's complement is the number shifted
/// right by 128 bits, that is divided by 2^128 and rounded down.
proof fn lemma_high_word_is_shift(bits: U256, value: int, word: int)
    requires
        -(two_256() as int) < 2 * value < two_256(),
        bits@ == value % (two_256() as int),
        bits.hi < 0x8000_0000_0000_0000_0000_0000_0000_0000 ==> word == bits.hi,
        bits.hi >= 0x8000_0000_0000_0000_0000_0000_0000_0000 ==> word == bits.hi - two_128(),
    ensures
        word == value / (two_128() as int),
{
    let d: int = two_128() as int;
    let m: int = two_256() as int;
    lemma_two_256_pos();
    crate::int256::lemma_sign_bit(bits);
    lemma_view_bound(bits);
    if value >= 0 {
        lemma_small_mod(value as nat, two_256());
        assert(bits@ == value);
        assert(bits@ < crate::int256::two_255());
        vstd::arithmetic::div_mod::lemma_fundamental_div_mod_converse(
            value,
            d,
            bits.hi as int,
            bits.lo as int,
        );
    } else {
        crate::num256::lemma_mod_of_shifted(value, value + m, -1);
        assert(bits@ == value + m);
        assert(bits@ >= crate::int256::two_255());
        assert(value == (bits.hi - d) * d + bits.lo) by (nonlinear_arith)
            requires
                bits@ == value + m,
                bits@ == bits.hi * d + bits.lo,
                m == d * d,
        ;
        vstd::arithmetic::div_mod::lemma_fundamental_div_mod_converse(
            value,
            d,
            bits.hi - d,
            bits.lo as int,
        );
    }
}

/// An estimate of the tick of a price, from the binary logarithm of the
/// price: two candidates, of which the second is the first or the tick after
/// it.
///
/// The logarithm is taken to 14 binary places by repeated squaring and
/// multiplied by `log(2) / log(sqrt(1.0001))`; the candidates are the result
/// less the greatest error below and plus the greatest error above.
/// `get_tick_at_sqrt_ratio` checks the estimate against the prices at the
/// candidates.
fn estimate_tick(sqrt_price_x96: U160) -> (r: (i128, i128))
    ensures
        r.0 == tick_estimate(sqrt_price_x96@).0,
        r.1 == tick_estimate(sqrt_price_x96@).1,
{
    let ratio = sqrt_price_x96.shl(32);
    if ratio.is_zero() {
        return (0, 0);
    }
    let msb: u8 = BitMath::most_significant_bit(ratio);
    proof {
        lemma_named_powers();
        lemma_two_256_pos();
        lemma_view_bound(ratio);
        lemma_normalized_range(ratio@, msb as nat);
        lemma_small_mod(normalized(ratio@), two_256());
    }
    let mut r = if msb >= 128 {
        ratio.shr((msb - 127) as u32)
    } else {
        ratio.shl((127 - msb) as u32)
    };
    let mut log_2: i128 = ((msb as i128) - 128) * 0x1_0000_0000_0000_0000;
    let mut place: i128 = 0x8000_0000_0000_0000;
    let mut i: u32 = 0;
    let ghost start: nat = r@;
    let ghost whole: int = log_2 as int;
    proof {
        lemma2_to64();
        vstd::arithmetic::power2::lemma2_to64_rest();
    }
    while i < 14
        invariant
            i <= 14,
            place == pow2((63 - i) as nat),
            0 <= place <= 0x8000_0000_0000_0000,
            -128 * 0x1_0000_0000_0000_0000 <= log_2 <= 127 * 0x1_0000_0000_0000_0000 + i
                * 0x8000_0000_0000_0000,
            i < 14 ==> pow2(127) <= r@ < pow2(128),
            log_2 + log2_places(r@, i as nat) == whole + log2_places(start, 0),
        decreases 14 - i,
    {
        proof {
            lemma_named_powers();
            lemma_two_256_pos();
            lemma2_to64();
            lemma_squaring(r@);
            lemma_small_mod(r@ * r@, two_256());
            lemma_pow2_adds((62 - i) as nat, 1);
        }
        let ghost before: nat = r@;
        let squared = r.wrapping_mul(r).shr(127);
        let f: u32 = if squared.shr(128).is_zero() {
            0
        } else {
            1
        };
        proof {
            assert(squared@ == (before * before) / pow2(127));
            assert(f as nat == squared@ / pow2(128));
            assert(log2_places(before, i as nat) == f * pow2((63 - i) as nat) + log2_places(
                squared@ / pow2(f as nat),
                (i + 1) as nat,
            ));
            assert(f * pow2((63 - i) as nat) == (if f == 1 {
                place as int
            } else {
                0int
            })) by (nonlinear_arith)
                requires
                    f == 0 || f == 1,
                    place == pow2((63 - i) as nat),
            ;
        }
        if f == 1 {
            log_2 = log_2 + place;
        }
        r = if i < 13 {
            squared.shr(f)
        } else {
            squared
        };
        proof {
            if i == 13 {
                assert(log2_places(r@, 14) == 0);
                assert(log2_places(squared@ / pow2(f as nat), 14) == 0);
            }
        }
        place = place / 2;
        i = i + 1;
    }
    proof {
        assert(log2_places(r@, 14) == 0);
        assert(log_2 == log2_estimate(ratio@));
    }
    // log_2 * 255738958999603826347141, as 256 bits in two's complement
    let size: u128 = if log_2 < 0 {
        (-log_2) as u128
    } else {
        log_2 as u128
    };
    let product = U256::from_u128(size).wrapping_mul(U256::from_u128(255738958999603826347141));
    let log_sqrt10001 = if log_2 < 0 {
        U256::zero().wrapping_sub(product)
    } else {
        product
    };
    let low = log_sqrt10001.wrapping_sub(
        U256::from_u128(3402992956809132418596140100660247210),
    );
    let high = log_sqrt10001.wrapping_add(
        U256::from_u128(291339464771989622907027621153398088495),
    );
    proof {
        let factor: int = 255738958999603826347141;
        let below: int = 3402992956809132418596140100660247210;
        let above: int = 291339464771989622907027621153398088495;
        let m: int = two_256() as int;
        let value: int = log_2 * factor;
        lemma_two_256_pos();
        lemma2_to64();
        // the product is far below 2^255
        assert(size * factor < 0x1_0000_0000_0000_0000_0000 * 0x1_0000_0000_0000_0000_0000)
            by (nonlinear_arith)
            requires
                size <= 0x100_0000_0000_0000_0000,
                factor == 255738958999603826347141,
        ;
        assert(0x1_0000_0000_0000_0000_0000 * 0x1_0000_0000_0000_0000_0000 + two_128()
            < crate::int256::two_255()) by (nonlinear_arith)
            requires
                crate::int256::two_255() == 0x8000_0000_0000_0000_0000_0000_0000_0000 * two_128(),
                two_128() == 0x1_0000_0000_0000_0000_0000 * 0x1_0000_0000_0000,
        ;
        crate::int256::lemma_sign_bit(product);
        lemma_small_mod((size * factor) as nat, two_256());
        assert(product@ == size * factor);
        assert(value == (if log_2 < 0 {
            -(size * factor)
        } else {
            size * factor
        })) by (nonlinear_arith)
            requires
                value == log_2 * factor,
                log_2 < 0 ==> size == -log_2,
                log_2 >= 0 ==> size == log_2,
        ;
        assert(log_sqrt10001@ == value % m) by {
            if log_2 >= 0 {
                lemma_small_mod(value as nat, two_256());
            }
        }
        vstd::arithmetic::div_mod::lemma_sub_mod_noop(value, below, m);
        vstd::arithmetic::div_mod::lemma_add_mod_noop(value, above, m);
        lemma_small_mod(below as nat, two_256());
        lemma_small_mod(above as nat, two_256());
        assert(low@ == (value - below) % m);
        assert(high@ == (value + above) % m);
    }
    // an arithmetic shift right by 128 bits leaves the high word
    let tick_low = signed_word(low.hi);
    let tick_hi = signed_word(high.hi);
    proof {
        let value: int = log_2 * 255738958999603826347141;
        lemma_high_word_is_shift(low, value - 3402992956809132418596140100660247210, tick_low as int);
        lemma_high_word_is_shift(
            high,
            value + 291339464771989622907027621153398088495,
            tick_hi as int,
        );
    }
    (tick_low, tick_hi)
}

/// Whether the price lies at or above the price at `tick` and below the
/// price at the next tick.
pub open spec fn tick_holds_price(tick: int, price: nat) -> bool {
    sqrt_ratio_at_tick(tick) <= price < sqrt_ratio_at_tick(tick + 1)
}

/// The tick of a price: the tick between the lowest and the highest that
/// holds the price. There is one such tick for each price that is at least
/// the price at the lowest tick and below the price at the highest.
pub open spec fn tick_at_sqrt_ratio(price: nat) -> int {
    choose|tick: int| MIN_TICK <= tick < MAX_TICK && tick_holds_price(tick, price)
}

/// Whether the price lies between the prices at `tick` and at the next tick.
fn holds_price(tick: I24, sqrt_price_x96: U160) -> (r: bool)
    requires
        MIN_TICK <= tick < MAX_TICK,
    ensures
        r == tick_holds_price(tick as int, sqrt_price_x96@),
{
    get_sqrt_ratio_at_tick(tick).is_le(sqrt_price_x96) && sqrt_price_x96.is_lt(
        get_sqrt_ratio_at_tick(tick + 1),
    )
}

/// The tick of a square-root price: the tick whose price is at or below the
/// given price while the price at the next tick is above it. The price must
/// be at least the price at the lowest tick and below the price at the
/// highest tick.
pub fn get_tick_at_sqrt_ratio(sqrt_price_x96: U160) -> (tick: I24)
    requires
        lowest_sqrt_ratio() <= sqrt_price_x96@ < highest_sqrt_ratio(),
    ensures
        MIN_TICK <= tick < MAX_TICK,
        tick_holds_price(tick as int, sqrt_price_x96@),
        tick == tick_at_sqrt_ratio(sqrt_price_x96@),
{
    let tick = hold_tick(sqrt_price_x96);
    proof {
        let chosen: int = tick_at_sqrt_ratio(sqrt_price_x96@);
        crate::tick_order::lemma_tick_of_price_is_unique(sqrt_price_x96@, tick as int, chosen);
    }
    tick
}

/// Whether `tick` is the tick of a price between the prices at the lowest
/// and at the highest tick, both included: the tick that holds the price, or
/// the highest tick for the price at the highest tick.
pub open spec fn is_tick_of_price(tick: int, price: nat) -> bool {
    if price == highest_sqrt_ratio() {
        tick == MAX_TICK
    } else {
        &&& MIN_TICK <= tick < MAX_TICK
        &&& tick_holds_price(tick, price)
        &&& tick == tick_at_sqrt_ratio(price)
    }
}

/// The tick of a square-root price between the prices at the lowest and at
/// the highest tick, both included. The price at the highest tick has the
/// highest tick.
pub fn tick_of_price(sqrt_price_x96: U160) -> (tick: I24)
    requires
        lowest_sqrt_ratio() <= sqrt_price_x96@ <= highest_sqrt_ratio(),
    ensures
        is_tick_of_price(tick as int, sqrt_price_x96@),
        MIN_TICK <= tick <= MAX_TICK,
{
    if sqrt_price_x96.is_ge(TickConstants::max_sqrt_ratio()) {
        MAX_TICK
    } else {
        get_tick_at_sqrt_ratio(sqrt_price_x96)
    }
}

/// The tick of a square-root price, or `None` for a price below the price at
/// the lowest tick or not below the price at the highest.
pub fn checked_get_tick_at_sqrt_ratio(sqrt_price_x96: U160) -> (r: Option<I24>)
    ensures
        lowest_sqrt_ratio() <= sqrt_price_x96@ < highest_sqrt_ratio() ==> r == Some(
            tick_at_sqrt_ratio(sqrt_price_x96@) as i32,
        ),
        !(lowest_sqrt_ratio() <= sqrt_price_x96@ < highest_sqrt_ratio()) ==> r.is_none(),
{
    if sqrt_price_x96.is_lt(TickConstants::min_sqrt_ratio()) || sqrt_price_x96.is_ge(
        TickConstants::max_sqrt_ratio(),
    ) {
        None
    } else {
        Some(get_tick_at_sqrt_ratio(sqrt_price_x96))
    }
}

/// A tick that holds the price: the estimate where it does, else the tick
/// found by bisection.
fn hold_tick(sqrt_price_x96: U160) -> (tick: I24)
    requires
        lowest_sqrt_ratio() <= sqrt_price_x96@ < highest_sqrt_ratio(),
    ensures
        MIN_TICK <= tick < MAX_TICK,
        tick_holds_price(tick as int, sqrt_price_x96@),
{
    let (tick_low, tick_hi) = estimate_tick(sqrt_price_x96);
    let low_in_range = MIN_TICK as i128 <= tick_low && tick_low < MAX_TICK as i128;
    let hi_in_range = MIN_TICK as i128 <= tick_hi && tick_hi < MAX_TICK as i128;
    if low_in_range && tick_low == tick_hi {
        if holds_price(tick_low as i32, sqrt_price_x96) {
            return tick_low as i32;
        }
    } else {
        if hi_in_range && holds_price(tick_hi as i32, sqrt_price_x96) {
            return tick_hi as i32;
        }
        if low_in_range && holds_price(tick_low as i32, sqrt_price_x96) {
            return tick_low as i32;
        }
    }
    // the estimate does not hold the price: search between the bounds
    let mut low: i32 = MIN_TICK;
    let mut high: i32 = MAX_TICK;
    proof {
        lemma_sqrt_ratio_at_bounds();
    }
    while high - low > 1
        invariant
            MIN_TICK <= low < high <= MAX_TICK,
            sqrt_ratio_at_tick(low as int) <= sqrt_price_x96@ < sqrt_ratio_at_tick(high as int),
        decreases high - low,
    {
        let middle: i32 = low + (high - low) / 2;
        if get_sqrt_ratio_at_tick(middle).is_le(sqrt_price_x96) {
            low = middle;
        } else {
            high = middle;
        }
    }
    low
}

/// The prices at the lowest and at the highest tick.
pub proof fn lemma_sqrt_ratio_at_bounds()
    ensures
        sqrt_ratio_at_tick(MIN_TICK as int) == lowest_sqrt_ratio(),
        sqrt_ratio_at_tick(MAX_TICK as int) == highest_sqrt_ratio(),
{
    lemma2_to64();
    lemma_two_256_pos();
    assert(ladder(887272, 0) == two_128());
    let d: nat = two_128();
    assert(!bit_is_set(887272, 0)) by {
        assert((887272int / 0x1) % 2 == 0);
    }
    assert(ladder(887272, 1) == two_128());
    assert(!bit_is_set(887272, 1)) by {
        assert((887272int / 0x2) % 2 == 0);
    }
    assert(ladder(887272, 2) == two_128());
    assert(!bit_is_set(887272, 2)) by {
        assert((887272int / 0x4) % 2 == 0);
    }
    assert(ladder(887272, 3) == two_128());
    assert(bit_is_set(887272, 3)) by {
        assert((887272int / 0x8) % 2 == 1);
    }
    assert((d * 0xffe5_caca_7e10_e4e6_1c36_24ea_a094_1cd0) / d == 0xffe5_caca_7e10_e4e6_1c36_24ea_a094_1cd0) by (nonlinear_arith)
        requires
            d == 0xffff_ffff_ffff_ffff_ffff_ffff_ffff_ffff + 1,
    ;
    assert(ladder(887272, 4) == 0xffe5_caca_7e10_e4e6_1c36_24ea_a094_1cd0);
    assert(!bit_is_set(887272, 4)) by {
        assert((887272int / 0x10) % 2 == 0);
    }
    assert(ladder(887272, 5) == 0xffe5_caca_7e10_e4e6_1c36_24ea_a094_1cd0);
    assert(bit_is_set(887272, 5)) by {
        assert((887272int / 0x20) % 2 == 1);
    }
    assert((0xffe5_caca_7e10_e4e6_1c36_24ea_a094_1cd0 * 0xff97_3b41_fa98_c081_472e_6896_dfb2_54c0) / d == 0xff7d_10c6_3a97_7157_da41_40de_b6f3_1a7b) by (nonlinear_arith)
        requires
            d == 0xffff_ffff_ffff_ffff_ffff_ffff_ffff_ffff + 1,
    ;
    assert(ladder(887272, 6) == 0xff7d_10c6_3a97_7157_da41_40de_b6f3_1a7b);
    assert(bit_is_set(887272, 6)) by {
        assert((887272int / 0x40) % 2 == 1);
    }
    assert((0xff7d_10c6_3a97_7157_da41_40de_b6f3_1a7b * 0xff2e_a164_66c9_6a38_43ec_78b3_26b5_2861) / d == 0xfeac_1d40_52f7_7148_18b4_90c1_138e_a058) by (nonlinear_arith)
        requires
            d == 0xffff_ffff_ffff_ffff_ffff_ffff_ffff_ffff + 1,
    ;
    assert(ladder(887272, 7) == 0xfeac_1d40_52f7_7148_18b4_90c1_138e_a058);
    assert(bit_is_set(887272, 7)) by {
        assert((887272int / 0x80) % 2 == 1);
    }
    assert((0xfeac_1d40_52f7_7148_18b4_90c1_138e_a058 * 0xfe5d_ee04_6a99_a2a8_11c4_61f1_969c_3053) / d == 0xfd0c_3654_da9e_0337_41d1_a9f9_3707_f6f6) by (nonlinear_arith)
        requires
            d == 0xffff_ffff_ffff_ffff_ffff_ffff_ffff_ffff + 1,
    ;
    assert(ladder(887272, 8) == 0xfd0c_3654_da9e_0337_41d1_a9f9_3707_f6f6);
    assert(bit_is_set(887272, 8)) by {
        assert((887272int / 0x100) % 2 == 1);
    }
    assert((0xfd0c_3654_da9e_0337_41d1_a9f9_3707_f6f6 * 0xfcbe_86c7_900a_88ae_dcff_c83b_479a_a3a4) / d == 0xf9d4_59c5_817d_bafa_9e37_6ae8_4dcf_eb8b) by (nonlinear_arith)
        requires
            d == 0xffff_ffff_ffff_ffff_ffff_ffff_ffff_ffff + 1,
    ;
    assert(ladder(887272, 9) == 0xf9d4_59c5_817d_bafa_9e37_6ae8_4dcf_eb8b);
    assert(!bit_is_set(887272, 9)) by {
        assert((887272int / 0x200) % 2 == 0);
    }
    assert(ladder(887272, 10) == 0xf9d4_59c5_817d_bafa_9e37_6ae8_4dcf_eb8b);
    assert(!bit_is_set(887272, 10)) by {
        assert((887272int / 0x400) % 2 == 0);
    }
    assert(ladder(887272, 11) == 0xf9d4_59c5_817d_bafa_9e37_6ae8_4dcf_eb8b);
    assert(bit_is_set(887272, 11)) by {
        assert((887272int / 0x800) % 2 == 1);
    }
    assert((0xf9d4_59c5_817d_bafa_9e37_6ae8_4dcf_eb8b * 0xe715_9475_a2c2_9b74_43b2_9c7f_a6e8_89d9) / d == 0xe183_ac4e_25d5_9499_6624_2a64_e9c8_0e2f) by (nonlinear_arith)
        requires
            d == 0xffff_ffff_ffff_ffff_ffff_ffff_ffff_ffff + 1,
    ;
    assert(ladder(887272, 12) == 0xe183_ac4e_25d5_9499_6624_2a64_e9c8_0e2f);
    assert(!bit_is_set(887272, 12)) by {
        assert((887272int / 0x1000) % 2 == 0);
    }
    assert(ladder(887272, 13) == 0xe183_ac4e_25d5_9499_6624_2a64_e9c8_0e2f);
    assert(!bit_is_set(887272, 13)) by {
        assert((887272int / 0x2000) % 2 == 0);
    }
    assert(ladder(887272, 14) == 0xe183_ac4e_25d5_9499_6624_2a64_e9c8_0e2f);
    assert(!bit_is_set(887272, 14)) by {
        assert((887272int / 0x4000) % 2 == 0);
    }
    assert(ladder(887272, 15) == 0xe183_ac4e_25d5_9499_6624_2a64_e9c8_0e2f);
    assert(bit_is_set(887272, 15)) by {
        assert((887272int / 0x8000) % 2 == 1);
    }
    assert((0xe183_ac4e_25d5_9499_6624_2a64_e9c8_0e2f * 0x31be_135f_97d0_8fd9_8123_1505_542f_cfa6) / d == 0x2bd1_a4c5_d2a1_181a_ca1e_f15e_64c2_e3cf) by (nonlinear_arith)
        requires
            d == 0xffff_ffff_ffff_ffff_ffff_ffff_ffff_ffff + 1,
    ;
    assert(ladder(887272, 16) == 0x2bd1_a4c5_d2a1_181a_ca1e_f15e_64c2_e3cf);
    assert(bit_is_set(887272, 16)) by {
        assert((887272int / 0x1_0000) % 2 == 1);
    }
    assert((0x2bd1_a4c5_d2a1_181a_ca1e_f15e_64c2_e3cf * 0x9aa_508b_5b7a_84e1_c677_de54_f3e9_9bc9) / d == 0x1a7_85cb_bdc0_5048_3e3b_e581_2760_be73) by (nonlinear_arith)
        requires
            d == 0xffff_ffff_ffff_ffff_ffff_ffff_ffff_ffff + 1,
    ;
    assert(ladder(887272, 17) == 0x1a7_85cb_bdc0_5048_3e3b_e581_2760_be73);
    assert(!bit_is_set(887272, 17)) by {
        assert((887272int / 0x2_0000) % 2 == 0);
    }
    assert(ladder(887272, 18) == 0x1a7_85cb_bdc0_5048_3e3b_e581_2760_be73);
    assert(bit_is_set(887272, 18)) by {
        assert((887272int / 0x4_0000) % 2 == 1);
    }
    assert((0x1a7_85cb_bdc0_5048_3e3b_e581_2760_be73 * 0x2216_e584_f5fa_1ea9_2604_1bed_fe98) / d == 0x38_65a6_455d_07d2_bc87_c595_6d2e) by (nonlinear_arith)
        requires
            d == 0xffff_ffff_ffff_ffff_ffff_ffff_ffff_ffff + 1,
    ;
    assert(ladder(887272, 19) == 0x38_65a6_455d_07d2_bc87_c595_6d2e);
    assert(bit_is_set(887272, 19)) by {
        assert((887272int / 0x8_0000) % 2 == 1);
    }
    assert((0x38_65a6_455d_07d2_bc87_c595_6d2e * 0x48a_1703_91f7_dc42_444e_8fa2) / d == 0x1_0002_76a2_21a1_7501) by (nonlinear_arith)
        requires
            d == 0xffff_ffff_ffff_ffff_ffff_ffff_ffff_ffff + 1,
    ;
    assert(ladder(887272, 20) == 0x1_0002_76a2_21a1_7501);
    let down: nat = 0x1_0002_76a2_21a1_7501;
    // downwards: divide by 2^32, rounding up
    assert(down / 0x1_0000_0000 == 4295128738);
    assert(down % 0x1_0000_0000 != 0);
    // upwards: invert first
    let inverse: nat = 0xfffd_8963_efd1_fc6a * two_128() + 0x5064_8849_5d95_1d52_6398_8d25_fa78_259a;
    let rest: nat = 0xd28_4d84_9c7e_7865;
    assert(two_256() - 1 == inverse * down + rest) by (nonlinear_arith)
        requires
            two_256() == two_128() * two_128(),
            two_128() == 0xffff_ffff_ffff_ffff_ffff_ffff_ffff_ffff + 1,
            inverse == 0xfffd_8963_efd1_fc6a * two_128() + 0x5064_8849_5d95_1d52_6398_8d25_fa78_259a,
            down == 0x1_0002_76a2_21a1_7501,
            rest == 0xd28_4d84_9c7e_7865,
    ;
    vstd::arithmetic::div_mod::lemma_fundamental_div_mod_converse(
        two_256() - 1,
        down as int,
        inverse as int,
        rest as int,
    );
    let top: nat = 0xfffd_8963 * two_128() + 0xefd1_fc6a_5064_8849_5d95_1d52_6398_8d25;
    assert(inverse == top * 0x1_0000_0000 + 4202177946) by (nonlinear_arith)
        requires
            two_128() == 0xffff_ffff_ffff_ffff_ffff_ffff_ffff_ffff + 1,
            inverse == 0xfffd_8963_efd1_fc6a * two_128() + 0x5064_8849_5d95_1d52_6398_8d25_fa78_259a,
            top == 0xfffd_8963 * two_128() + 0xefd1_fc6a_5064_8849_5d95_1d52_6398_8d25,
    ;
    vstd::arithmetic::div_mod::lemma_fundamental_div_mod_converse(
        inverse as int,
        0x1_0000_0000,
        top as int,
        4202177946,
    );
    assert(top + 1 == highest_sqrt_ratio());
    assert(highest_sqrt_ratio() < two_160()) by (nonlinear_arith)
        requires
            highest_sqrt_ratio() == 0xfffd_8963 * two_128()
                + 0xefd1_fc6a_5064_8849_5d95_1d52_6398_8d26,
            two_160() == two_128() * 0x1_0000_0000,
            two_128() == 0xffff_ffff_ffff_ffff_ffff_ffff_ffff_ffff + 1,
    ;
}

} // verus!
