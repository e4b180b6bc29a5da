//! One step of a swap: from the current price towards a target price, as far
//! as the remaining amount allows.

use vstd::prelude::*;
use crate::num256::U256;
use crate::num256::two_96;
use crate::num256::two_128;
use crate::num256::two_160;
use crate::num256::two_256;
use crate::num256::lemma_two_256_pos;
use crate::num256::lemma_view_bound;
use crate::num256::lemma_mod_of_shifted;
use crate::int256::I256;
use crate::int256::two_255;
use crate::num160::U160;
use crate::num24::U24;
use crate::full_math::FullMath;
use crate::full_math::mul_div_floor;
use crate::full_math::mul_div_ceil;
use crate::full_math::div_ceil;
use crate::full_math::lemma_div_ceil_le;
use crate::full_math::lemma_div_ceil_bounds;
use crate::full_math::lemma_div_floor_bounds;
use crate::full_math::lemma_div_floor_compare;
use crate::sqrt_price_math::amount0_delta;
use crate::sqrt_price_math::amount1_delta;
use crate::sqrt_price_math::amount0_step_defined;
use crate::sqrt_price_math::amount1_step_defined;
use crate::sqrt_price_math::next_sqrt_price_from_amount0;
use crate::sqrt_price_math::next_sqrt_price_from_amount1;
use crate::sqrt_price_math::lemma_amount0_bound;
use crate::sqrt_price_math::lemma_amount1_bound;
use crate::sqrt_price_math::lemma_numerator1;
use crate::sqrt_price_math::get_amount0_delta;
use crate::sqrt_price_math::get_amount1_delta;
use crate::sqrt_price_math::get_next_sqrt_price_from_input;
use crate::sqrt_price_math::get_next_sqrt_price_from_output;

verus! {

/// The denominator of a fee: fees are given in millionths.
pub open spec fn fee_denominator() -> nat {
    1_000_000
}

/// The amount that moves the price all the way from `current` to `target`:
/// of the token that goes in, rounded up, for a swap of an exact input, and
/// of the token that comes out, rounded down, for a swap of an exact output.
pub open spec fn amount_to_target(current: nat, target: nat, liquidity: nat, exact_in: bool)
    -> nat {
    let zero_for_one = current >= target;
    if exact_in {
        if zero_for_one {
            amount0_delta(target, current, liquidity, true)
        } else {
            amount1_delta(current, target, liquidity, true)
        }
    } else {
        if zero_for_one {
            amount1_delta(target, current, liquidity, false)
        } else {
            amount0_delta(current, target, liquidity, false)
        }
    }
}

/// The price after the step: the target where the remaining amount reaches
/// it, else the price that the remaining amount leads to. A remaining amount
/// that is not negative is an exact input, of which the fee is taken off
/// first; a negative one is an exact output.
pub open spec fn swap_step_next_price(
    current: nat,
    target: nat,
    liquidity: nat,
    amount_remaining: int,
    fee_pips: nat,
) -> nat {
    let zero_for_one = current >= target;
    if amount_remaining >= 0 {
        let less_fee = mul_div_floor(
            amount_remaining as nat,
            (fee_denominator() - fee_pips) as nat,
            fee_denominator(),
        );
        if less_fee >= amount_to_target(current, target, liquidity, true) {
            target
        } else if zero_for_one {
            next_sqrt_price_from_amount0(current, liquidity, less_fee, true)
        } else {
            next_sqrt_price_from_amount1(current, liquidity, less_fee, true)
        }
    } else {
        let wanted = (-amount_remaining) as nat;
        if wanted >= amount_to_target(current, target, liquidity, false) {
            target
        } else if zero_for_one {
            next_sqrt_price_from_amount1(current, liquidity, wanted, false)
        } else {
            next_sqrt_price_from_amount0(current, liquidity, wanted, false)
        }
    }
}

/// The amount that goes in during the step: what moves the price from
/// `current` to the next price, rounded up.
pub open spec fn swap_step_amount_in(
    current: nat,
    target: nat,
    liquidity: nat,
    amount_remaining: int,
    fee_pips: nat,
) -> nat {
    let next = swap_step_next_price(current, target, liquidity, amount_remaining, fee_pips);
    if current >= target {
        amount0_delta(next, current, liquidity, true)
    } else {
        amount1_delta(current, next, liquidity, true)
    }
}

/// The amount that comes out during the step: what the move from `current`
/// to the next price gives, rounded down, and never more than an exact output
/// asks for.
pub open spec fn swap_step_amount_out(
    current: nat,
    target: nat,
    liquidity: nat,
    amount_remaining: int,
    fee_pips: nat,
) -> nat {
    let next = swap_step_next_price(current, target, liquidity, amount_remaining, fee_pips);
    let moved = if current >= target {
        amount1_delta(next, current, liquidity, false)
    } else {
        amount0_delta(current, next, liquidity, false)
    };
    if amount_remaining < 0 && moved > -amount_remaining {
        (-amount_remaining) as nat
    } else {
        moved
    }
}

/// The fee of the step: where an exact input stops short of the target, all
/// that is left of it; else the fee rate applied to the amount that goes in,
/// rounded up.
pub open spec fn swap_step_fee_amount(
    current: nat,
    target: nat,
    liquidity: nat,
    amount_remaining: int,
    fee_pips: nat,
) -> nat {
    let next = swap_step_next_price(current, target, liquidity, amount_remaining, fee_pips);
    let amount_in = swap_step_amount_in(current, target, liquidity, amount_remaining, fee_pips);
    if amount_remaining >= 0 && next != target {
        (amount_remaining - amount_in) as nat
    } else {
        mul_div_ceil(amount_in, fee_pips, (fee_denominator() - fee_pips) as nat)
    }
}

/// Without liquidity no token moves.
proof fn lemma_no_liquidity(a: nat, b: nat, round_up: bool)
    requires
        a > 0,
        b > 0,
    ensures
        amount0_delta(a, b, 0, round_up) == 0,
        amount1_delta(a, b, 0, round_up) == 0,
{
    lemma_amount0_bound(a, b, 0, round_up);
    let d: nat = (crate::sqrt_price_math::greater(a, b) - crate::sqrt_price_math::lesser(a, b)) as nat;
    assert(0 * d == 0);
    lemma_div_ceil_bounds(0, two_96());
}

/// An input of token0 that falls short of the target: the step is defined,
/// the next price lies above the target and at or below the current price,
/// and the amount that moves the price there is within the input.
pub proof fn lemma_input_step_token0(p: nat, t: nat, liquidity: nat, x: nat)
    requires
        0 < t <= p < two_160(),
        liquidity < two_128(),
        x < amount0_delta(t, p, liquidity, true),
        x < two_255(),
    ensures
        liquidity > 0,
        amount0_step_defined(p, liquidity, x, true),
        t < next_sqrt_price_from_amount0(p, liquidity, x, true) <= p,
        amount0_delta(next_sqrt_price_from_amount0(p, liquidity, x, true), p, liquidity, true)
            <= x,
{
    lemma_input_step_token0_amount(p, t, liquidity, x);
    let q: nat = next_sqrt_price_from_amount0(p, liquidity, x, true);
    if q <= t {
        // a price at or below the target would take at least the amount to the target
        let n1: nat = liquidity * two_96();
        assert(n1 * ((p - t) as nat) <= n1 * ((p - q) as nat)) by (nonlinear_arith)
            requires
                q <= t <= p,
        ;
        crate::full_math::lemma_div_ceil_monotone(
            n1 * ((p - t) as nat),
            p,
            n1 * ((p - q) as nat),
            p,
        );
        crate::full_math::lemma_div_ceil_monotone(
            mul_div_ceil(n1, (p - t) as nat, p),
            t,
            mul_div_ceil(n1, (p - q) as nat, p),
            q,
        );
        assert(false);
    }
}

/// The part of the statement on an input of token0 that does not compare the
/// next price with the target.
proof fn lemma_input_step_token0_amount(p: nat, t: nat, liquidity: nat, x: nat)
    requires
        0 < t <= p < two_160(),
        liquidity < two_128(),
        x < amount0_delta(t, p, liquidity, true),
        x < two_255(),
    ensures
        liquidity > 0,
        amount0_step_defined(p, liquidity, x, true),
        0 < next_sqrt_price_from_amount0(p, liquidity, x, true) <= p,
        amount0_delta(next_sqrt_price_from_amount0(p, liquidity, x, true), p, liquidity, true)
            <= x,
{
    if liquidity == 0 {
        lemma_no_liquidity(t, p, true);
    }
    let n1: nat = liquidity * two_96();
    lemma_numerator1(liquidity);
    lemma_two_256_pos();
    assert(n1 > 0) by (nonlinear_arith)
        requires
            n1 == liquidity * two_96(),
            liquidity > 0,
            two_96() > 0,
    ;
    let q: nat = next_sqrt_price_from_amount0(p, liquidity, x, true);
    if x == 0 {
        assert(n1 * 0 == 0);
        lemma_div_ceil_bounds(0, p);
    } else {
        let u: nat = if x * p < two_256() && n1 + x * p < two_256() {
            mul_div_ceil(n1, p, n1 + x * p)
        } else {
            div_ceil(n1, n1 / p + x)
        };
        // in both forms: 1 <= u <= p and n1 * p <= u * (n1 + x * p)
        if x * p < two_256() && n1 + x * p < two_256() {
            let denom: nat = n1 + x * p;
            assert(n1 * p <= p * denom) by (nonlinear_arith)
                requires
                    n1 <= denom,
            ;
            lemma_div_ceil_le(n1 * p, denom, p);
            lemma_div_ceil_bounds(n1 * p, denom);
            assert(n1 * p > 0) by (nonlinear_arith)
                requires
                    n1 > 0,
                    p > 0,
            ;
            assert(n1 * p <= u * (n1 + x * p));
        } else {
            let fl: nat = n1 / p;
            let denom: nat = fl + x;
            lemma_div_floor_bounds(n1, p);
            assert(fl <= n1) by (nonlinear_arith)
                requires
                    fl * p <= n1,
                    p >= 1,
            ;
            assert(n1 < two_128() * two_96());
            assert(two_128() * two_96() + two_255() < two_256()) by (nonlinear_arith)
                requires
                    two_255() == 0x8000_0000_0000_0000_0000_0000_0000_0000 * two_128(),
                    two_256() == two_128() * two_128(),
                    two_96() == 0x1_0000_0000_0000_0000_0000_0000,
                    two_128() == 0xffff_ffff_ffff_ffff_ffff_ffff_ffff_ffff + 1,
            ;
            assert(n1 <= p * denom) by (nonlinear_arith)
                requires
                    n1 < (fl + 1) * p,
                    denom == fl + x,
                    x >= 1,
            ;
            lemma_div_ceil_le(n1, denom, p);
            lemma_div_ceil_bounds(n1, denom);
            assert(n1 * p <= u * (n1 + x * p)) by (nonlinear_arith)
                requires
                    u * denom >= n1,
                    denom == fl + x,
                    fl * p <= n1,
            ;
        }
        assert(q == u);
        // the amount back from q to p
        let back: nat = (p - q) as nat;
        assert(n1 * back <= (x * q) * p) by (nonlinear_arith)
            requires
                n1 * p <= q * (n1 + x * p),
                back == p - q,
                q <= p,
        ;
        lemma_div_ceil_le(n1 * back, p, x * q);
        lemma_div_ceil_le(mul_div_ceil(n1, back, p), q, x);
    }
}

/// An input of token1 that falls short of the target: the step is defined,
/// the next price lies at or above the current one and below the target, and
/// the amount that moves the price there is within the input.
pub proof fn lemma_input_step_token1(p: nat, t: nat, liquidity: nat, x: nat)
    requires
        0 < p < t < two_160(),
        liquidity < two_128(),
        x < amount1_delta(p, t, liquidity, true),
    ensures
        liquidity > 0,
        amount1_step_defined(p, liquidity, x, true),
        p <= next_sqrt_price_from_amount1(p, liquidity, x, true) < t,
        amount1_delta(p, next_sqrt_price_from_amount1(p, liquidity, x, true), liquidity, true)
            <= x,
{
    if liquidity == 0 {
        lemma_no_liquidity(p, t, true);
    }
    lemma_two_256_pos();
    let d: nat = (t - p) as nat;
    let fl: nat = mul_div_floor(x, two_96(), liquidity);
    lemma_div_ceil_bounds(liquidity * d, two_96());
    let c: nat = div_ceil(liquidity * d, two_96());
    assert(x * two_96() < d * liquidity) by (nonlinear_arith)
        requires
            (c - 1) * two_96() < liquidity * d,
            x <= c - 1,
            two_96() > 0,
    ;
    lemma_div_floor_compare(x * two_96(), liquidity, d);
    assert(fl < d);
    let q: nat = p + fl;
    lemma_div_floor_bounds(x * two_96(), liquidity);
    assert(liquidity * fl <= x * two_96()) by (nonlinear_arith)
        requires
            fl * liquidity <= x * two_96(),
    ;
    lemma_div_ceil_le(liquidity * fl, two_96(), x);
    assert((q - p) as nat == fl);
}

/// An output of token1 that falls short of the target: the step is defined,
/// and the next price lies below the current one and at or above the target.
pub proof fn lemma_output_step_token1(p: nat, t: nat, liquidity: nat, x: nat)
    requires
        0 < t <= p < two_160(),
        liquidity < two_128(),
        x < amount1_delta(t, p, liquidity, false),
    ensures
        liquidity > 0,
        amount1_step_defined(p, liquidity, x, false),
        t <= next_sqrt_price_from_amount1(p, liquidity, x, false) <= p,
{
    if liquidity == 0 {
        lemma_no_liquidity(t, p, false);
    }
    lemma_two_256_pos();
    let d: nat = (p - t) as nat;
    let f: nat = mul_div_floor(liquidity, d, two_96());
    lemma_div_floor_bounds(liquidity * d, two_96());
    assert(x * two_96() <= d * liquidity) by (nonlinear_arith)
        requires
            f * two_96() <= liquidity * d,
            x < f,
            two_96() > 0,
    ;
    lemma_div_ceil_le(x * two_96(), liquidity, d);
    let c: nat = mul_div_ceil(x, two_96(), liquidity);
    assert(c <= d);
}

/// An output of token0 that falls short of the target: the step is defined,
/// and the next price lies at or above the current one and at or below the
/// target.
pub proof fn lemma_output_step_token0(p: nat, t: nat, liquidity: nat, x: nat)
    requires
        0 < p < t < two_160(),
        liquidity < two_128(),
        x < amount0_delta(p, t, liquidity, false),
    ensures
        liquidity > 0,
        amount0_step_defined(p, liquidity, x, false),
        p <= next_sqrt_price_from_amount0(p, liquidity, x, false) <= t,
{
    if liquidity == 0 {
        lemma_no_liquidity(p, t, false);
    }
    lemma_two_256_pos();
    let n1: nat = liquidity * two_96();
    lemma_numerator1(liquidity);
    if x > 0 {
        let d: nat = (t - p) as nat;
        let f: nat = mul_div_floor(n1, d, t);
        lemma_amount0_bound(p, t, liquidity, false);
        lemma_div_floor_bounds(n1 * d, t);
        lemma_div_floor_bounds(f, p);
        // (x + 1) * p <= f, f * t <= n1 * d, f <= n1
        assert((x + 1) * p <= f) by (nonlinear_arith)
            requires
                (f / p) * p <= f,
                x + 1 <= f / p,
                p > 0,
        ;
        assert(x * p < n1) by (nonlinear_arith)
            requires
                (x + 1) * p <= f,
                f <= n1,
                p > 0,
        ;
        let denom: nat = (n1 - x * p) as nat;
        assert(n1 * p <= t * denom) by (nonlinear_arith)
            requires
                (x + 1) * p <= f,
                f * t <= n1 * d,
                d == t - p,
                denom == n1 - x * p,
                p > 0,
                t > 0,
        ;
        lemma_div_ceil_le(n1 * p, denom, t);
        lemma_div_ceil_bounds(n1 * p, denom);
        let c: nat = mul_div_ceil(n1, p, denom);
        assert(c >= p) by (nonlinear_arith)
            requires
                c * denom >= n1 * p,
                0 < denom <= n1,
                p > 0,
        ;
    }
}

/// Where the whole path to the target is within an input less its fee, the
/// fee on that path fits in what is left of the input.
pub proof fn lemma_fee_fits(amount: nat, amount_in: nat, fee_pips: nat)
    requires
        fee_pips < fee_denominator(),
        amount_in <= mul_div_floor(amount, (fee_denominator() - fee_pips) as nat, fee_denominator()),
    ensures
        amount_in + mul_div_ceil(amount_in, fee_pips, (fee_denominator() - fee_pips) as nat)
            <= amount,
{
    let keep: nat = (fee_denominator() - fee_pips) as nat;
    let less_fee: nat = mul_div_floor(amount, keep, fee_denominator());
    lemma_div_floor_bounds(amount * keep, fee_denominator());
    assert(amount_in * 1_000_000 <= amount * keep) by (nonlinear_arith)
        requires
            less_fee * 1_000_000 <= amount * keep,
            amount_in <= less_fee,
    ;
    assert(amount_in <= amount) by (nonlinear_arith)
        requires
            amount_in * 1_000_000 <= amount * keep,
            keep <= 1_000_000,
    ;
    let rest: nat = (amount - amount_in) as nat;
    assert(amount_in * fee_pips <= rest * keep) by (nonlinear_arith)
        requires
            amount_in * 1_000_000 <= amount * keep,
            keep == 1_000_000 - fee_pips,
            rest == amount - amount_in,
    ;
    lemma_div_ceil_le(amount_in * fee_pips, keep, rest);
}

/// What goes in during one step, fee included, never exceeds an exact input;
/// and where the step stops short of the target, the fee is all that the
/// amount going in leaves of the input.
pub proof fn lemma_swap_step_conservation(
    current: nat,
    target: nat,
    liquidity: nat,
    amount_remaining: int,
    fee_pips: nat,
)
    requires
        0 < current < two_160(),
        0 < target < two_160(),
        liquidity < two_128(),
        0 <= amount_remaining < two_255(),
        fee_pips < fee_denominator(),
    ensures
        swap_step_amount_in(current, target, liquidity, amount_remaining, fee_pips)
            + swap_step_fee_amount(current, target, liquidity, amount_remaining, fee_pips)
            <= amount_remaining,
        swap_step_next_price(current, target, liquidity, amount_remaining, fee_pips) != target
            ==> swap_step_fee_amount(current, target, liquidity, amount_remaining, fee_pips)
            == amount_remaining - swap_step_amount_in(
            current,
            target,
            liquidity,
            amount_remaining,
            fee_pips,
        ),
{
    let keep: nat = (fee_denominator() - fee_pips) as nat;
    let less_fee: nat = mul_div_floor(amount_remaining as nat, keep, fee_denominator());
    let to_target: nat = amount_to_target(current, target, liquidity, true);
    lemma_div_floor_bounds(amount_remaining as nat * keep, fee_denominator());
    assert(less_fee <= amount_remaining) by (nonlinear_arith)
        requires
            less_fee * 1_000_000 <= amount_remaining * keep,
            keep <= 1_000_000,
            amount_remaining >= 0,
    ;
    if less_fee >= to_target {
        lemma_fee_fits(amount_remaining as nat, to_target, fee_pips);
    } else if current >= target {
        lemma_input_step_token0(current, target, liquidity, less_fee);
    } else {
        lemma_input_step_token1(current, target, liquidity, less_fee);
    }
}

/// One step of a swap from `sqrt_ratio_current_x96` towards
/// `sqrt_ratio_target_x96`: the price after the step, the amount that goes
/// in, the amount that comes out, and the fee. A remaining amount that is
/// not negative is an exact input, a negative one an exact output. Prices are
/// 160-bit numbers and not zero; the fee is below one million.
pub fn compute_swap_step(
    sqrt_ratio_current_x96: U160,
    sqrt_ratio_target_x96: U160,
    liquidity: u128,
    amount_remaining: I256,
    fee_pips: U24,
) -> (r: (U160, U256, U256, U256))
    requires
        0 < sqrt_ratio_current_x96@ < two_160(),
        0 < sqrt_ratio_target_x96@ < two_160(),
        fee_pips < 1_000_000,
    ensures
        r.0@ == swap_step_next_price(
            sqrt_ratio_current_x96@,
            sqrt_ratio_target_x96@,
            liquidity as nat,
            amount_remaining@,
            fee_pips as nat,
        ),
        r.1@ == swap_step_amount_in(
            sqrt_ratio_current_x96@,
            sqrt_ratio_target_x96@,
            liquidity as nat,
            amount_remaining@,
            fee_pips as nat,
        ),
        r.2@ == swap_step_amount_out(
            sqrt_ratio_current_x96@,
            sqrt_ratio_target_x96@,
            liquidity as nat,
            amount_remaining@,
            fee_pips as nat,
        ),
        r.3@ == swap_step_fee_amount(
            sqrt_ratio_current_x96@,
            sqrt_ratio_target_x96@,
            liquidity as nat,
            amount_remaining@,
            fee_pips as nat,
        ),
        0 < r.0@ < two_160(),
        sqrt_ratio_current_x96@ >= sqrt_ratio_target_x96@ ==> sqrt_ratio_target_x96@ <= r.0@
            <= sqrt_ratio_current_x96@,
        sqrt_ratio_current_x96@ < sqrt_ratio_target_x96@ ==> sqrt_ratio_current_x96@ <= r.0@
            <= sqrt_ratio_target_x96@,
        amount_remaining@ >= 0 ==> r.1@ + r.3@ <= amount_remaining@,
        amount_remaining@ >= 0 && r.0@ != sqrt_ratio_target_x96@ ==> r.3@ == amount_remaining@
            - r.1@,
        amount_remaining@ < 0 ==> r.2@ <= -amount_remaining@,
{
    let zero_for_one = sqrt_ratio_current_x96.is_ge(sqrt_ratio_target_x96);
    let exact_in = !amount_remaining.is_negative();
    let remaining = amount_remaining.unsigned_abs();
    let ghost cur: nat = sqrt_ratio_current_x96@;
    let ghost tgt: nat = sqrt_ratio_target_x96@;
    let ghost liq: nat = liquidity as nat;
    let ghost fee: nat = fee_pips as nat;
    let ghost keep: nat = (fee_denominator() - fee) as nat;
    proof {
        lemma_two_256_pos();
        lemma_view_bound(amount_remaining.bits);
        crate::int256::lemma_sign_bit(amount_remaining.bits);
        lemma_amount1_bound(cur, tgt, liq, true);
        lemma_amount1_bound(cur, tgt, liq, false);
    }

    let sqrt_ratio_next_x96: U160;
    if exact_in {
        proof {
            lemma_div_floor_bounds(remaining@ * keep, fee_denominator());
            assert(mul_div_floor(remaining@, keep, fee_denominator()) <= remaining@)
                by (nonlinear_arith)
                requires
                    mul_div_floor(remaining@, keep, fee_denominator()) * 1_000_000 <= remaining@
                        * keep,
                    keep <= 1_000_000,
            ;
            lemma_view_bound(remaining);
        }
        let amount_remaining_less_fee = FullMath::mul_div(
            remaining,
            U256::from_u128((1_000_000 - fee_pips) as u128),
            U256::from_u128(1_000_000),
        );
        let amount_in_to_target = if zero_for_one {
            get_amount0_delta(sqrt_ratio_target_x96, sqrt_ratio_current_x96, liquidity, true)
        } else {
            get_amount1_delta(sqrt_ratio_current_x96, sqrt_ratio_target_x96, liquidity, true)
        };
        if amount_remaining_less_fee.is_ge(amount_in_to_target) {
            sqrt_ratio_next_x96 = sqrt_ratio_target_x96;
        } else {
            proof {
                if zero_for_one {
                    lemma_input_step_token0(cur, tgt, liq, amount_remaining_less_fee@);
                } else {
                    lemma_input_step_token1(cur, tgt, liq, amount_remaining_less_fee@);
                }
            }
            sqrt_ratio_next_x96 = get_next_sqrt_price_from_input(
                sqrt_ratio_current_x96,
                liquidity,
                amount_remaining_less_fee,
                zero_for_one,
            );
        }
    } else {
        let amount_out_to_target = if zero_for_one {
            get_amount1_delta(sqrt_ratio_target_x96, sqrt_ratio_current_x96, liquidity, false)
        } else {
            get_amount0_delta(sqrt_ratio_current_x96, sqrt_ratio_target_x96, liquidity, false)
        };
        if remaining.is_ge(amount_out_to_target) {
            sqrt_ratio_next_x96 = sqrt_ratio_target_x96;
        } else {
            proof {
                if zero_for_one {
                    lemma_output_step_token1(cur, tgt, liq, remaining@);
                } else {
                    lemma_output_step_token0(cur, tgt, liq, remaining@);
                }
            }
            sqrt_ratio_next_x96 = get_next_sqrt_price_from_output(
                sqrt_ratio_current_x96,
                liquidity,
                remaining,
                zero_for_one,
            );
        }
    }
    let ghost next: nat = sqrt_ratio_next_x96@;
    proof {
        assert(next == swap_step_next_price(cur, tgt, liq, amount_remaining@, fee));
        lemma_amount1_bound(cur, next, liq, true);
        lemma_amount1_bound(cur, next, liq, false);
        lemma_amount0_bound(cur, next, liq, true);
        lemma_amount0_bound(cur, next, liq, false);
    }

    // The amounts between the current price and the next.
    let amount_in: U256;
    let mut amount_out: U256;
    if zero_for_one {
        amount_in = get_amount0_delta(sqrt_ratio_next_x96, sqrt_ratio_current_x96, liquidity, true);
        amount_out = get_amount1_delta(
            sqrt_ratio_next_x96,
            sqrt_ratio_current_x96,
            liquidity,
            false,
        );
    } else {
        amount_in = get_amount1_delta(sqrt_ratio_current_x96, sqrt_ratio_next_x96, liquidity, true);
        amount_out = get_amount0_delta(
            sqrt_ratio_current_x96,
            sqrt_ratio_next_x96,
            liquidity,
            false,
        );
    }

    // An exact output is never exceeded.
    if !exact_in && amount_out.is_gt(remaining) {
        amount_out = remaining;
    }

    let fee_amount: U256;
    proof {
        if exact_in {
            lemma_swap_step_conservation(cur, tgt, liq, amount_remaining@, fee);
        }
        lemma_numerator1(liq);
    }
    if exact_in && sqrt_ratio_next_x96 != sqrt_ratio_target_x96 {
        proof {
            if sqrt_ratio_next_x96@ == sqrt_ratio_target_x96@ {
                crate::num256::lemma_view_injective(sqrt_ratio_next_x96, sqrt_ratio_target_x96);
            }
            lemma_mod_of_shifted(remaining@ - amount_in@, remaining@ - amount_in@, 0);
        }
        // the step stopped short of the target: what is left of the input is the fee
        fee_amount = remaining.wrapping_sub(amount_in);
    } else {
        proof {
            assert(amount_in@ * fee <= (two_128() * two_96()) * 1_000_000) by (nonlinear_arith)
                requires
                    amount_in@ <= two_128() * two_96(),
                    fee < 1_000_000,
            ;
            assert((two_128() * two_96()) * 1_000_000 < two_256()) by (nonlinear_arith)
                requires
                    two_256() == two_128() * two_128(),
                    two_96() == 0x1_0000_0000_0000_0000_0000_0000,
                    two_128() == 0xffff_ffff_ffff_ffff_ffff_ffff_ffff_ffff + 1,
            ;
            assert(amount_in@ * fee <= (amount_in@ * fee) * keep) by (nonlinear_arith)
                requires
                    keep >= 1,
            ;
            lemma_div_ceil_le(amount_in@ * fee, keep, amount_in@ * fee);
        }
        fee_amount = FullMath::mul_div_rounding_up(
            amount_in,
            U256::from_u128(fee_pips as u128),
            U256::from_u128((1_000_000 - fee_pips) as u128),
        );
    }

    (sqrt_ratio_next_x96, amount_in, amount_out, fee_amount)
}

} // verus!
