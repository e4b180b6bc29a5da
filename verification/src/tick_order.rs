//! The order of square-root prices: the price at a tick grows with the tick.
//!
//! Going from a tick to the next changes the ladder of factors at the lowest
//! clear bit of the tick's absolute value: the factors of the bits below it
//! are replaced by the one factor of that bit. The ladder of all the factors
//! below a bit exceeds the factor of the bit by more than one part in 2^15,
//! and the rungs above, which both ticks share, keep that gap but for a loss
//! of one unit each.

use vstd::prelude::*;
use vstd::arithmetic::power2::pow2;
use vstd::arithmetic::power2::lemma_pow2_pos;
use vstd::arithmetic::power2::lemma_pow2_adds;
use vstd::arithmetic::power2::lemma2_to64;
use vstd::arithmetic::div_mod::lemma_fundamental_div_mod_converse;
use vstd::arithmetic::div_mod::lemma_div_denominator;
use crate::num256::two_128;
use crate::num256::two_160;
use crate::num256::two_256;
use crate::num256::lemma_two_256_pos;
use crate::bit_math::bit_is_set;
use crate::bit_math::lemma_flip_bit;
use crate::full_math::lemma_div_floor_bounds;
use crate::full_math::lemma_div_floor_compare;
use crate::tick_math::ladder;
use crate::tick_math::ladder_factor;
use crate::tick_math::round_up_32;
use crate::tick_math::sqrt_ratio_at_tick;
use crate::tick_math::lowest_sqrt_ratio;
use crate::tick_math::highest_sqrt_ratio;
use crate::tick_math::lemma_sqrt_ratio_at_bounds;
use crate::tick_math::MIN_TICK;
use crate::tick_math::MAX_TICK;

verus! {

/// The ladder with each of its first `k` factors applied.
pub open spec fn full_ladder(k: nat) -> nat
    decreases k,
{
    if k == 0 {
        two_128()
    } else {
        (full_ladder((k - 1) as nat) * ladder_factor((k - 1) as nat)) / two_128()
    }
}

/// The value of the ladder after its first `k` factors, all applied.
pub open spec fn full_ladder_value(k: nat) -> nat {
    if k == 0 {
        two_128()
    } else if k == 1 {
        0xfffc_b933_bd6f_ad37_aa2d_162d_1a59_4001
    } else if k == 2 {
        0xfff6_2bbb_6d45_8ec3_c792_1063_91dc_463e
    } else if k == 3 {
        0xffe9_114b_9cf2_8d39_4c32_03db_d44e_b085
    } else if k == 4 {
        0xffce_de6f_1d8b_e90b_88f3_5042_4e84_e5b7
    } else if k == 5 {
        0xff9a_80c1_ada7_480b_1daa_871d_7c4d_9b36
    } else if k == 6 {
        0xff31_e58d_5a53_c84f_c142_023e_c1b1_dfd7
    } else if k == 7 {
        0xfe61_2f81_83b1_ea21_b72f_b71b_0354_2ae4
    } else if k == 8 {
        0xfcc1_c2f3_8053_6bc6_7ee1_ff56_4d10_80b2
    } else if k == 9 {
        0xf98a_d8c8_d7ec_c0a3_f8a4_2c97_24cf_fb6a
    } else if k == 10 {
        0xf33c_4801_89b4_1523_5ad1_1942_7d89_a1f6
    } else if k == 11 {
        0xe718_89a8_5903_fd03_cb7c_c40b_df37_1a9c
    } else if k == 12 {
        0xd09a_9f3e_93db_5812_d482_0c2f_c67a_3e3a
    } else if k == 13 {
        0xa9f9_7334_5b9e_647c_4163_af91_d00b_255f
    } else if k == 14 {
        0x70d9_db64_85f0_4ddd_567e_07c7_b89f_8e7c
    } else if k == 15 {
        0x31be_b65d_91af_63ae_717a_760b_e3b3_74dc
    } else if k == 16 {
        0x9aa_7036_fd23_5542_9c40_30b0_32e1_cf71
    } else if k == 17 {
        0x5d_6c2a_f97a_aa8d_e0e5_a6bf_23f5_e547
    } else if k == 18 {
        0x2217_5538_8a66_58e1_20f4_a3c5_03cf
    } else if k == 19 {
        0x48a_25e3_6942_a4fc_0c1f_899f
    } else {
        0x14_9b78_73d8_4d48
    }
}

/// The values of the full ladder.
proof fn lemma_full_ladder_values()
    ensures
        forall|k: nat| k <= 20 ==> #[trigger] full_ladder(k) == full_ladder_value(k),
{
    let d: nat = two_128();
    assert(full_ladder(0) == full_ladder_value(0));
    assert((d * 0xfffc_b933_bd6f_ad37_aa2d_162d_1a59_4001) / d == 0xfffc_b933_bd6f_ad37_aa2d_162d_1a59_4001) by (nonlinear_arith)
        requires
            d == 0xffff_ffff_ffff_ffff_ffff_ffff_ffff_ffff + 1,
    ;
    assert(full_ladder(1) == full_ladder_value(1));
    assert((0xfffc_b933_bd6f_ad37_aa2d_162d_1a59_4001 * 0xfff9_7272_373d_4132_59a4_6990_580e_213a) / d == 0xfff6_2bbb_6d45_8ec3_c792_1063_91dc_463e) by (nonlinear_arith)
        requires
            d == 0xffff_ffff_ffff_ffff_ffff_ffff_ffff_ffff + 1,
    ;
    assert(full_ladder(2) == full_ladder_value(2));
    assert((0xfff6_2bbb_6d45_8ec3_c792_1063_91dc_463e * 0xfff2_e50f_5f65_6932_ef12_357c_f3c7_fdcc) / d == 0xffe9_114b_9cf2_8d39_4c32_03db_d44e_b085) by (nonlinear_arith)
        requires
            d == 0xffff_ffff_ffff_ffff_ffff_ffff_ffff_ffff + 1,
    ;
    assert(full_ladder(3) == full_ladder_value(3));
    assert((0xffe9_114b_9cf2_8d39_4c32_03db_d44e_b085 * 0xffe5_caca_7e10_e4e6_1c36_24ea_a094_1cd0) / d == 0xffce_de6f_1d8b_e90b_88f3_5042_4e84_e5b7) by (nonlinear_arith)
        requires
            d == 0xffff_ffff_ffff_ffff_ffff_ffff_ffff_ffff + 1,
    ;
    assert(full_ladder(4) == full_ladder_value(4));
    assert((0xffce_de6f_1d8b_e90b_88f3_5042_4e84_e5b7 * 0xffcb_9843_d60f_6159_c9db_5883_5c92_6644) / d == 0xff9a_80c1_ada7_480b_1daa_871d_7c4d_9b36) by (nonlinear_arith)
        requires
            d == 0xffff_ffff_ffff_ffff_ffff_ffff_ffff_ffff + 1,
    ;
    assert(full_ladder(5) == full_ladder_value(5));
    assert((0xff9a_80c1_ada7_480b_1daa_871d_7c4d_9b36 * 0xff97_3b41_fa98_c081_472e_6896_dfb2_54c0) / d == 0xff31_e58d_5a53_c84f_c142_023e_c1b1_dfd7) by (nonlinear_arith)
        requires
            d == 0xffff_ffff_ffff_ffff_ffff_ffff_ffff_ffff + 1,
    ;
    assert(full_ladder(6) == full_ladder_value(6));
    assert((0xff31_e58d_5a53_c84f_c142_023e_c1b1_dfd7 * 0xff2e_a164_66c9_6a38_43ec_78b3_26b5_2861) / d == 0xfe61_2f81_83b1_ea21_b72f_b71b_0354_2ae4) by (nonlinear_arith)
        requires
            d == 0xffff_ffff_ffff_ffff_ffff_ffff_ffff_ffff + 1,
    ;
    assert(full_ladder(7) == full_ladder_value(7));
    assert((0xfe61_2f81_83b1_ea21_b72f_b71b_0354_2ae4 * 0xfe5d_ee04_6a99_a2a8_11c4_61f1_969c_3053) / d == 0xfcc1_c2f3_8053_6bc6_7ee1_ff56_4d10_80b2) by (nonlinear_arith)
        requires
            d == 0xffff_ffff_ffff_ffff_ffff_ffff_ffff_ffff + 1,
    ;
    assert(full_ladder(8) == full_ladder_value(8));
    assert((0xfcc1_c2f3_8053_6bc6_7ee1_ff56_4d10_80b2 * 0xfcbe_86c7_900a_88ae_dcff_c83b_479a_a3a4) / d == 0xf98a_d8c8_d7ec_c0a3_f8a4_2c97_24cf_fb6a) by (nonlinear_arith)
        requires
            d == 0xffff_ffff_ffff_ffff_ffff_ffff_ffff_ffff + 1,
    ;
    assert(full_ladder(9) == full_ladder_value(9));
    assert((0xf98a_d8c8_d7ec_c0a3_f8a4_2c97_24cf_fb6a * 0xf987_a725_3ac4_1317_6f2b_074c_f781_5e54) / d == 0xf33c_4801_89b4_1523_5ad1_1942_7d89_a1f6) by (nonlinear_arith)
        requires
            d == 0xffff_ffff_ffff_ffff_ffff_ffff_ffff_ffff + 1,
    ;
    assert(full_ladder(10) == full_ladder_value(10));
    assert((0xf33c_4801_89b4_1523_5ad1_1942_7d89_a1f6 * 0xf339_2b08_22b7_0005_940c_7a39_8e4b_70f3) / d == 0xe718_89a8_5903_fd03_cb7c_c40b_df37_1a9c) by (nonlinear_arith)
        requires
            d == 0xffff_ffff_ffff_ffff_ffff_ffff_ffff_ffff + 1,
    ;
    assert(full_ladder(11) == full_ladder_value(11));
    assert((0xe718_89a8_5903_fd03_cb7c_c40b_df37_1a9c * 0xe715_9475_a2c2_9b74_43b2_9c7f_a6e8_89d9) / d == 0xd09a_9f3e_93db_5812_d482_0c2f_c67a_3e3a) by (nonlinear_arith)
        requires
            d == 0xffff_ffff_ffff_ffff_ffff_ffff_ffff_ffff + 1,
    ;
    assert(full_ladder(12) == full_ladder_value(12));
    assert((0xd09a_9f3e_93db_5812_d482_0c2f_c67a_3e3a * 0xd097_f3bd_fd20_22b8_845a_d8f7_92aa_5825) / d == 0xa9f9_7334_5b9e_647c_4163_af91_d00b_255f) by (nonlinear_arith)
        requires
            d == 0xffff_ffff_ffff_ffff_ffff_ffff_ffff_ffff + 1,
    ;
    assert(full_ladder(13) == full_ladder_value(13));
    assert((0xa9f9_7334_5b9e_647c_4163_af91_d00b_255f * 0xa9f7_4646_2d87_0fdf_8a65_dc1f_90e0_61e5) / d == 0x70d9_db64_85f0_4ddd_567e_07c7_b89f_8e7c) by (nonlinear_arith)
        requires
            d == 0xffff_ffff_ffff_ffff_ffff_ffff_ffff_ffff + 1,
    ;
    assert(full_ladder(14) == full_ladder_value(14));
    assert((0x70d9_db64_85f0_4ddd_567e_07c7_b89f_8e7c * 0x70d8_69a1_56d2_a1b8_90bb_3df6_2baf_32f7) / d == 0x31be_b65d_91af_63ae_717a_760b_e3b3_74dc) by (nonlinear_arith)
        requires
            d == 0xffff_ffff_ffff_ffff_ffff_ffff_ffff_ffff + 1,
    ;
    assert(full_ladder(15) == full_ladder_value(15));
    assert((0x31be_b65d_91af_63ae_717a_760b_e3b3_74dc * 0x31be_135f_97d0_8fd9_8123_1505_542f_cfa6) / d == 0x9aa_7036_fd23_5542_9c40_30b0_32e1_cf71) by (nonlinear_arith)
        requires
            d == 0xffff_ffff_ffff_ffff_ffff_ffff_ffff_ffff + 1,
    ;
    assert(full_ladder(16) == full_ladder_value(16));
    assert((0x9aa_7036_fd23_5542_9c40_30b0_32e1_cf71 * 0x9aa_508b_5b7a_84e1_c677_de54_f3e9_9bc9) / d == 0x5d_6c2a_f97a_aa8d_e0e5_a6bf_23f5_e547) by (nonlinear_arith)
        requires
            d == 0xffff_ffff_ffff_ffff_ffff_ffff_ffff_ffff + 1,
    ;
    assert(full_ladder(17) == full_ladder_value(17));
    assert((0x5d_6c2a_f97a_aa8d_e0e5_a6bf_23f5_e547 * 0x5d_6af8_dedb_8119_6699_c329_225e_e604) / d == 0x2217_5538_8a66_58e1_20f4_a3c5_03cf) by (nonlinear_arith)
        requires
            d == 0xffff_ffff_ffff_ffff_ffff_ffff_ffff_ffff + 1,
    ;
    assert(full_ladder(18) == full_ladder_value(18));
    assert((0x2217_5538_8a66_58e1_20f4_a3c5_03cf * 0x2216_e584_f5fa_1ea9_2604_1bed_fe98) / d == 0x48a_25e3_6942_a4fc_0c1f_899f) by (nonlinear_arith)
        requires
            d == 0xffff_ffff_ffff_ffff_ffff_ffff_ffff_ffff + 1,
    ;
    assert(full_ladder(19) == full_ladder_value(19));
    assert((0x48a_25e3_6942_a4fc_0c1f_899f * 0x48a_1703_91f7_dc42_444e_8fa2) / d == 0x14_9b78_73d8_4d48) by (nonlinear_arith)
        requires
            d == 0xffff_ffff_ffff_ffff_ffff_ffff_ffff_ffff + 1,
    ;
    assert(full_ladder(20) == full_ladder_value(20));

    assert forall|k: nat| k <= 20 implies #[trigger] full_ladder(k) == full_ladder_value(k) by {
        if k == 0 {
        } else if k == 1 {
        } else if k == 2 {
        } else if k == 3 {
        } else if k == 4 {
        } else if k == 5 {
        } else if k == 6 {
        } else if k == 7 {
        } else if k == 8 {
        } else if k == 9 {
        } else if k == 10 {
        } else if k == 11 {
        } else if k == 12 {
        } else if k == 13 {
        } else if k == 14 {
        } else if k == 15 {
        } else if k == 16 {
        } else if k == 17 {
        } else if k == 18 {
        } else if k == 19 {
        } else {
            assert(k == 20);
        }
    }
}

/// Every factor is below 2^128, and the full ladder below a bit exceeds the
/// factor of the bit by more than one part in 2^15.
proof fn lemma_factor_gap(k: nat)
    requires
        k < 20,
    ensures
        0 < ladder_factor(k) < two_128(),
        32768 * (full_ladder(k) - ladder_factor(k)) >= ladder_factor(k),
        full_ladder(20) >= 0x10_0000_0000_0000,
        full_ladder(k) <= two_128(),
{
    lemma_full_ladder_values();
    assert(full_ladder(k) == full_ladder_value(k));
    assert(full_ladder(20) == full_ladder_value(20));
}

/// The ladder of any number lies between the full ladder and 2^128.
pub proof fn lemma_ladder_bounds(a: nat, k: nat)
    requires
        k <= 20,
    ensures
        full_ladder(k) <= ladder(a, k) <= two_128(),
    decreases k,
{
    if k > 0 {
        let j: nat = (k - 1) as nat;
        lemma_ladder_bounds(a, j);
        lemma_factor_gap(j);
        let c: nat = ladder_factor(j);
        let x: nat = ladder(a, j);
        let y: nat = full_ladder(j);
        lemma_rung_is_monotone(y, x, c);
        lemma_rung_shrinks(x, c);
        lemma_rung_shrinks(y, c);
    }
}

/// A rung, that is a multiplication by a factor below 2^128 followed by a
/// shift right by 128 bits, does not enlarge a number.
proof fn lemma_rung_shrinks(x: nat, c: nat)
    requires
        c < two_128(),
    ensures
        (x * c) / two_128() <= x,
{
    assert(x * c <= x * two_128()) by (nonlinear_arith)
        requires
            c < two_128(),
    ;
    lemma_div_floor_compare(x * c, two_128(), x + 1);
    assert(x * c < (x + 1) * two_128()) by (nonlinear_arith)
        requires
            x * c <= x * two_128(),
            two_128() > 0,
    ;
}

/// A rung keeps the order of two numbers.
proof fn lemma_rung_is_monotone(y: nat, x: nat, c: nat)
    requires
        y <= x,
    ensures
        (y * c) / two_128() <= (x * c) / two_128(),
{
    assert(y * c <= x * c) by (nonlinear_arith)
        requires
            y <= x,
    ;
    vstd::arithmetic::div_mod::lemma_div_is_ordered(
        (y * c) as int,
        (x * c) as int,
        two_128() as int,
    );
}

/// Bit `i + 1` of a number is bit `i` of its half.
proof fn lemma_bit_of_half(a: nat, i: nat)
    ensures
        bit_is_set(a, i + 1) == bit_is_set(a / 2, i),
        bit_is_set(a, 0) == (a % 2 == 1),
{
    lemma2_to64();
    lemma_pow2_pos(i);
    lemma_pow2_adds(1, i);
    lemma_div_denominator(a as int, 2, pow2(i) as int);
}

/// The number of set bits at the low end of a number.
pub open spec fn trailing_ones(a: nat) -> nat
    decreases a,
{
    if a % 2 == 1 {
        1 + trailing_ones(a / 2)
    } else {
        0
    }
}

/// Adding 1 to a number clears its trailing ones, sets the bit above them
/// and leaves the bits above that.
proof fn lemma_successor_bits(a: nat)
    ensures
        forall|i: nat| i < trailing_ones(a) ==> #[trigger] bit_is_set(a, i),
        forall|i: nat| i < trailing_ones(a) ==> !#[trigger] bit_is_set(a + 1, i),
        !bit_is_set(a, trailing_ones(a)),
        bit_is_set(a + 1, trailing_ones(a)),
        forall|i: nat|
            i > trailing_ones(a) ==> #[trigger] bit_is_set(a + 1, i) == bit_is_set(a, i),
    decreases a,
{
    lemma2_to64();
    if a % 2 == 1 {
        let h: nat = a / 2;
        lemma_successor_bits(h);
        let k: nat = trailing_ones(h);
        assert((a + 1) / 2 == h + 1);
        assert forall|i: nat| i < trailing_ones(a) implies #[trigger] bit_is_set(a, i) by {
            if i > 0 {
                lemma_bit_of_half(a, (i - 1) as nat);
                assert(bit_is_set(h, (i - 1) as nat));
            } else {
                lemma_bit_of_half(a, 0);
            }
        }
        assert forall|i: nat| i < trailing_ones(a) implies !#[trigger] bit_is_set(a + 1, i) by {
            if i > 0 {
                lemma_bit_of_half(a + 1, (i - 1) as nat);
                assert(!bit_is_set(h + 1, (i - 1) as nat));
            } else {
                lemma_bit_of_half(a + 1, 0);
            }
        }
        lemma_bit_of_half(a, k);
        lemma_bit_of_half(a + 1, k);
        assert forall|i: nat| i > trailing_ones(a) implies #[trigger] bit_is_set(a + 1, i)
            == bit_is_set(a, i) by {
            lemma_bit_of_half(a, (i - 1) as nat);
            lemma_bit_of_half(a + 1, (i - 1) as nat);
            assert(bit_is_set(h + 1, (i - 1) as nat) == bit_is_set(h, (i - 1) as nat));
        }
    } else {
        assert(trailing_ones(a) == 0);
        assert forall|i: nat| true implies #[trigger] bit_is_set(a + 1, i) == (bit_is_set(a, i)
            != (i == 0)) by {
            lemma_bit_of_half(a, 0);
            lemma_flip_bit(a, 0, i);
        }
        lemma_bit_of_half(a, 0);
        assert(bit_is_set(a + 1, 0));
    }
}

/// A number below `2^n - 1` has fewer than `n` trailing ones.
proof fn lemma_trailing_ones_bound(a: nat, n: nat)
    requires
        a + 1 < pow2(n),
    ensures
        trailing_ones(a) < n,
    decreases a,
{
    lemma2_to64();
    if n == 0 {
        assert(false);
    } else if a % 2 == 1 {
        lemma_pow2_adds(1, (n - 1) as nat);
        lemma_trailing_ones_bound(a / 2, (n - 1) as nat);
    }
}

/// The ladder of a number whose low `k` bits are all set is the full ladder,
/// and that of a number whose low `k` bits are all clear is 2^128.
proof fn lemma_ladder_of_uniform_bits(a: nat, k: nat)
    ensures
        (forall|i: nat| i < k ==> #[trigger] bit_is_set(a, i)) ==> ladder(a, k) == full_ladder(k),
        (forall|i: nat| i < k ==> !#[trigger] bit_is_set(a, i)) ==> ladder(a, k) == two_128(),
    decreases k,
{
    if k > 0 {
        let j: nat = (k - 1) as nat;
        lemma_ladder_of_uniform_bits(a, j);
        if forall|i: nat| i < k ==> #[trigger] bit_is_set(a, i) {
            assert(bit_is_set(a, j));
            assert forall|i: nat| i < j implies #[trigger] bit_is_set(a, i) by {
                assert(i < k);
            }
        }
        if forall|i: nat| i < k ==> !#[trigger] bit_is_set(a, i) {
            assert(!bit_is_set(a, j));
            assert forall|i: nat| i < j implies !#[trigger] bit_is_set(a, i) by {
                assert(i < k);
            }
        }
    }
}

/// A rung that two numbers share keeps a gap of one part in 2^15 between
/// them, but for one unit.
proof fn lemma_rung_keeps_gap(x: nat, y: nat, c: nat, slack: nat)
    requires
        y <= x,
        c < two_128(),
        32768 * (x - y) + 32768 * slack >= y,
    ensures
        (y * c) / two_128() <= (x * c) / two_128(),
        32768 * ((x * c) / two_128() - (y * c) / two_128()) + 32768 * (slack + 1) >= (y * c)
            / two_128(),
{
    let d: nat = two_128();
    let xn: nat = (x * c) / d;
    let yn: nat = (y * c) / d;
    lemma_rung_is_monotone(y, x, c);
    lemma_div_floor_bounds(x * c, d);
    lemma_div_floor_bounds(y * c, d);
    // 32768 * x * c >= 32769 * y * c - 32768 * slack * c
    assert(32768 * (x * c) + 32768 * (slack * c) >= 32769 * (y * c)) by (nonlinear_arith)
        requires
            32768 * (x - y) + 32768 * slack >= y,
            y <= x,
    ;
    assert(slack * c <= slack * d) by (nonlinear_arith)
        requires
            c < d,
    ;
    assert(32769 * (yn * d) <= 32769 * (y * c));
    assert(32768 * ((xn + 1) * d) > 32768 * (x * c));
    assert(32768 * ((xn + 1) * d) + 32768 * (slack * d) > 32769 * (yn * d));
    assert(32768 * (xn + 1) + 32768 * slack > 32769 * yn) by (nonlinear_arith)
        requires
            32768 * ((xn + 1) * d) + 32768 * (slack * d) > 32769 * (yn * d),
            d > 0,
    ;
}

/// The ladders of a number and of its successor, from the bit above the
/// trailing ones on: the first exceeds the second, by one part in 2^15 but
/// for one unit for each rung since.
proof fn lemma_ladder_gap(a: nat, j: nat)
    requires
        a + 1 < pow2(20),
        trailing_ones(a) < j <= 20,
    ensures
        ladder(a + 1, j) <= ladder(a, j),
        32768 * (ladder(a, j) - ladder(a + 1, j)) + 32768 * (j - trailing_ones(a) - 1) >= ladder(
            a + 1,
            j,
        ),
    decreases j,
{
    let k: nat = trailing_ones(a);
    let i: nat = (j - 1) as nat;
    lemma_successor_bits(a);
    lemma_factor_gap(i);
    if i == k {
        lemma_ladder_of_uniform_bits(a, k);
        lemma_ladder_of_uniform_bits(a + 1, k);
        lemma_factor_gap(k);
        let c: nat = ladder_factor(k);
        assert((two_128() * c) / two_128() == c) by {
            vstd::arithmetic::div_mod::lemma_div_multiples_vanish(c as int, two_128() as int);
        }
        assert(ladder(a, j) == full_ladder(k));
        assert(ladder(a + 1, j) == c);
    } else {
        lemma_ladder_gap(a, i);
        assert(bit_is_set(a + 1, i) == bit_is_set(a, i));
        if bit_is_set(a, i) {
            lemma_rung_keeps_gap(
                ladder(a, i),
                ladder(a + 1, i),
                ladder_factor(i),
                (i - k - 1) as nat,
            );
        }
    }
}

/// The ladder of a 20-bit number exceeds that of its successor by at least
/// 2^36.
pub proof fn lemma_ladder_decreases(a: nat)
    requires
        a + 1 < pow2(20),
    ensures
        ladder(a + 1, 20) + 0x10_0000_0000 <= ladder(a, 20),
        0x10_0000_0000_0000 <= ladder(a + 1, 20),
        ladder(a, 20) <= two_128(),
{
    lemma_trailing_ones_bound(a, 20);
    lemma_ladder_gap(a, 20);
    lemma_ladder_bounds(a + 1, 20);
    lemma_ladder_bounds(a, 20);
    lemma_factor_gap(0);
}

/// Rounding up after a division by 2^32 keeps two numbers apart that differ
/// by at least 2^33.
proof fn lemma_round_up_32_increases(y: nat, x: nat)
    requires
        y + 0x2_0000_0000 <= x,
    ensures
        round_up_32(y) < round_up_32(x),
{
    lemma_div_floor_bounds(y, 0x1_0000_0000);
    lemma_div_floor_compare(x, 0x1_0000_0000, y / 0x1_0000_0000 + 2);
}

/// The inverses of two numbers of at most 128 bits that differ by at least
/// 2^36 differ by at least 2^33, in the other direction.
proof fn lemma_inverses_increase(y: nat, x: nat)
    requires
        0 < y,
        y + 0x10_0000_0000 <= x <= two_128(),
    ensures
        (two_256() - 1) / (x as int) + 0x2_0000_0000 <= (two_256() - 1) / (y as int),
{
    lemma_two_256_pos();
    let top: nat = (two_256() - 1) as nat;
    let half: nat = 0x8000_0000_0000_0000_0000_0000_0000_0000;
    let ix: nat = top / x;
    lemma_div_floor_bounds(top, x);
    assert(half * x <= top) by (nonlinear_arith)
        requires
            x <= two_128(),
            top == two_128() * two_128() - 1,
            two_128() == 2 * half,
            half > 1,
    ;
    lemma_div_floor_compare(top, x, half);
    assert(ix >= half);
    assert((ix + 0x2_0000_0000) * y <= top) by (nonlinear_arith)
        requires
            ix * x <= top,
            ix >= half,
            y + 0x10_0000_0000 <= x,
            x <= two_128(),
            two_128() == 2 * half,
            half == 0x8000_0000_0000_0000_0000_0000_0000_0000,
    ;
    lemma_div_floor_compare(top, y, ix + 0x2_0000_0000);
}

/// The price at a tick is below the price at the next tick.
proof fn lemma_sqrt_ratio_step(tick: int)
    requires
        MIN_TICK <= tick < MAX_TICK,
    ensures
        sqrt_ratio_at_tick(tick) < sqrt_ratio_at_tick(tick + 1),
{
    lemma2_to64();
    lemma_two_256_pos();
    if tick < 0 {
        let a: nat = (-(tick + 1)) as nat;
        lemma_ladder_decreases(a);
        lemma_round_up_32_increases(ladder(a + 1, 20), ladder(a, 20));
    } else {
        let a: nat = tick as nat;
        lemma_ladder_decreases(a);
        lemma_inverses_increase(ladder(a + 1, 20), ladder(a, 20));
        let top: int = two_256() - 1;
        lemma_round_up_32_increases((top / (ladder(a, 20) as int)) as nat, (top / (ladder(
            a + 1,
            20,
        ) as int)) as nat);
        if tick == 0 {
            // the price at tick 0 is 2^96, whether taken from 2^128 or from its inverse
            assert(ladder(0, 20) == two_128()) by {
                assert forall|i: nat| i < 20 implies !#[trigger] bit_is_set(0, i) by {
                    crate::bit_math::lemma_bits_of_zero(i);
                }
                lemma_ladder_of_uniform_bits(0, 20);
            }
            let d: nat = two_128();
            assert(top == (d - 1) * d + (d - 1)) by (nonlinear_arith)
                requires
                    top == d * d - 1,
            ;
            lemma_fundamental_div_mod_converse(top, d as int, d - 1, d - 1);
            let q96: nat = 0x1_0000_0000_0000_0000_0000_0000;
            assert(d == q96 * 0x1_0000_0000 + 0 && d - 1 == (q96 - 1) * 0x1_0000_0000
                + 0xffff_ffff) by (nonlinear_arith)
                requires
                    d == 0xffff_ffff_ffff_ffff_ffff_ffff_ffff_ffff + 1,
                    q96 == 0x1_0000_0000_0000_0000_0000_0000,
            ;
            lemma_fundamental_div_mod_converse(d as int, 0x1_0000_0000, q96 as int, 0);
            lemma_fundamental_div_mod_converse(
                d - 1,
                0x1_0000_0000,
                q96 - 1,
                0xffff_ffff,
            );
            assert(round_up_32(d) == round_up_32((d - 1) as nat));
        }
    }
}

/// The price at tick 0 is 1, that is 2^96 as a Q64.96 number.
pub proof fn lemma_sqrt_ratio_at_zero()
    ensures
        sqrt_ratio_at_tick(0) == crate::num256::two_96(),
{
    assert(ladder(0, 20) == two_128()) by {
        assert forall|i: nat| i < 20 implies !#[trigger] bit_is_set(0, i) by {
            crate::bit_math::lemma_bits_of_zero(i);
        }
        lemma_ladder_of_uniform_bits(0, 20);
    }
    let d: nat = two_128();
    let q96: nat = 0x1_0000_0000_0000_0000_0000_0000;
    assert(d == q96 * 0x1_0000_0000 + 0) by (nonlinear_arith)
        requires
            d == 0xffff_ffff_ffff_ffff_ffff_ffff_ffff_ffff + 1,
            q96 == 0x1_0000_0000_0000_0000_0000_0000,
    ;
    lemma_fundamental_div_mod_converse(d as int, 0x1_0000_0000, q96 as int, 0);
}

/// The price at a tick between the lowest and the highest lies between the
/// prices at those two ticks, so that it fits in 160 bits.
pub proof fn lemma_sqrt_ratio_in_range(tick: int)
    requires
        MIN_TICK <= tick <= MAX_TICK,
    ensures
        lowest_sqrt_ratio() <= sqrt_ratio_at_tick(tick) <= highest_sqrt_ratio(),
        highest_sqrt_ratio() < two_160(),
{
    lemma_sqrt_ratio_at_bounds();
    if tick < MAX_TICK {
        lemma_sqrt_ratio_increases(tick, MAX_TICK as int);
    }
    if MIN_TICK < tick {
        lemma_sqrt_ratio_increases(MIN_TICK as int, tick);
    }
}

/// The price at a tick grows strictly with the tick.
pub proof fn lemma_sqrt_ratio_increases(low: int, high: int)
    requires
        MIN_TICK <= low < high <= MAX_TICK,
    ensures
        sqrt_ratio_at_tick(low) < sqrt_ratio_at_tick(high),
    decreases high - low,
{
    lemma_sqrt_ratio_step(high - 1);
    if low < high - 1 {
        lemma_sqrt_ratio_increases(low, high - 1);
    }
}

/// At most one tick holds a price: if the price lies between the prices at a
/// tick and at the next one, no other tick has that property, and the tick is
/// the greatest whose price is at or below the given price.
pub proof fn lemma_tick_of_price_is_unique(price: nat, tick: int, other: int)
    requires
        MIN_TICK <= tick < MAX_TICK,
        MIN_TICK <= other <= MAX_TICK,
        crate::tick_math::tick_holds_price(tick, price),
    ensures
        sqrt_ratio_at_tick(other) <= price ==> other <= tick,
        other < MAX_TICK && crate::tick_math::tick_holds_price(other, price) ==> other == tick,
{
    if other > tick {
        if other > tick + 1 {
            lemma_sqrt_ratio_increases(tick + 1, other);
        }
    }
    if other < tick {
        if other + 1 < tick {
            lemma_sqrt_ratio_increases(other + 1, tick);
        }
    }
}

/// Converting a tick to its price and back gives the tick.
pub proof fn lemma_tick_round_trip(tick: int)
    requires
        MIN_TICK <= tick < MAX_TICK,
    ensures
        lowest_sqrt_ratio() <= sqrt_ratio_at_tick(tick) < highest_sqrt_ratio(),
        crate::tick_math::tick_at_sqrt_ratio(sqrt_ratio_at_tick(tick)) == tick,
{
    let price: nat = sqrt_ratio_at_tick(tick);
    lemma_sqrt_ratio_in_range(tick);
    lemma_sqrt_ratio_increases(tick, tick + 1);
    lemma_sqrt_ratio_increases(tick, MAX_TICK as int);
    lemma_sqrt_ratio_at_bounds();
    assert(crate::tick_math::tick_holds_price(tick, price));
    let found: int = crate::tick_math::tick_at_sqrt_ratio(price);
    lemma_tick_of_price_is_unique(price, tick, found);
}

/// Each tick is the tick of its own price.
pub proof fn lemma_tick_of_its_price(tick: int)
    requires
        MIN_TICK <= tick <= MAX_TICK,
    ensures
        crate::tick_math::is_tick_of_price(tick, sqrt_ratio_at_tick(tick)),
        lowest_sqrt_ratio() <= sqrt_ratio_at_tick(tick) <= highest_sqrt_ratio(),
{
    lemma_sqrt_ratio_at_bounds();
    lemma_sqrt_ratio_in_range(tick);
    if tick < MAX_TICK {
        lemma_sqrt_ratio_increases(tick, tick + 1);
        lemma_tick_round_trip(tick);
    }
}

/// The ticks of two prices stand in the order of the prices.
pub proof fn lemma_tick_of_price_is_monotone(low: nat, high: nat, tick_low: int, tick_high: int)
    requires
        low <= high,
        crate::tick_math::is_tick_of_price(tick_low, low),
        crate::tick_math::is_tick_of_price(tick_high, high),
        lowest_sqrt_ratio() <= low,
        high <= highest_sqrt_ratio(),
    ensures
        tick_low <= tick_high,
{
    if high < highest_sqrt_ratio() {
        lemma_tick_of_price_is_unique(high, tick_high, tick_low);
    }
}

} // verus!
