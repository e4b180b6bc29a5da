//! Square-root prices and token amounts.
//!
//! A square-root price is a Q64.96 number. Moving the price between two
//! values at a given liquidity takes or gives an amount of each token; the
//! functions here compute those amounts, and the price that a given amount
//! leads to, with the rounding that favours the pool.

use vstd::prelude::*;
use vstd::arithmetic::div_mod::lemma_small_mod;
use crate::num256::U256;
use crate::num256::two_96;
use crate::num256::two_128;
use crate::num256::two_160;
use crate::num256::two_256;
use crate::num256::lemma_two_256_pos;
use crate::num256::lemma_view_bound;
use crate::num256::lemma_named_powers;
use crate::num256::lemma_mod_of_shifted;
use crate::int256::I256;
use crate::int256::two_255;
use crate::num160::U160;
use crate::num160::AsU160;
use crate::num160::Num160Trait;
use crate::full_math::FullMath;
use crate::full_math::mul_div_floor;
use crate::full_math::mul_div_ceil;
use crate::full_math::div_ceil;
use crate::full_math::lemma_div_ceil_le;
use crate::full_math::lemma_div_ceil_bounds;
use crate::full_math::lemma_div_floor_bounds;
use crate::fixed_point_96::get_q96;

verus! {

/// The lesser of two numbers.
pub open spec fn lesser(a: nat, b: nat) -> nat {
    if a > b {
        b
    } else {
        a
    }
}

/// The greater of two numbers.
pub open spec fn greater(a: nat, b: nat) -> nat {
    if a > b {
        a
    } else {
        b
    }
}

/// The amount of token0 between two square-root prices at a liquidity:
/// `liquidity * 2^96 * (hi - lo) / hi / lo`, each division rounded up or
/// each rounded down.
pub open spec fn amount0_delta(a: nat, b: nat, liquidity: nat, round_up: bool) -> nat {
    let lo = lesser(a, b);
    let hi = greater(a, b);
    let numerator1 = liquidity * two_96();
    let numerator2 = (hi - lo) as nat;
    if round_up {
        div_ceil(mul_div_ceil(numerator1, numerator2, hi), lo)
    } else {
        mul_div_floor(numerator1, numerator2, hi) / lo
    }
}

/// The amount of token1 between two square-root prices at a liquidity:
/// `liquidity * (hi - lo) / 2^96`, rounded up or down.
pub open spec fn amount1_delta(a: nat, b: nat, liquidity: nat, round_up: bool) -> nat {
    let lo = lesser(a, b);
    let hi = greater(a, b);
    if round_up {
        mul_div_ceil(liquidity, (hi - lo) as nat, two_96())
    } else {
        mul_div_floor(liquidity, (hi - lo) as nat, two_96())
    }
}

/// The absolute value of a liquidity change.
pub open spec fn magnitude(x: int) -> nat {
    if x < 0 {
        (-x) as nat
    } else {
        x as nat
    }
}

/// The signed amount of token0 for a liquidity change: rounded up for an
/// addition, and negative and rounded down for a removal.
pub open spec fn amount0_delta_signed(a: nat, b: nat, liquidity: int) -> int {
    if liquidity < 0 {
        -(amount0_delta(a, b, magnitude(liquidity), false) as int)
    } else {
        amount0_delta(a, b, magnitude(liquidity), true) as int
    }
}

/// The signed amount of token1 for a liquidity change: rounded up for an
/// addition, and negative and rounded down for a removal.
pub open spec fn amount1_delta_signed(a: nat, b: nat, liquidity: int) -> int {
    if liquidity < 0 {
        -(amount1_delta(a, b, magnitude(liquidity), false) as int)
    } else {
        amount1_delta(a, b, magnitude(liquidity), true) as int
    }
}

/// Whether adding or removing `amount` of token0 at price `p` has a next
/// price: the formula can be computed in 256 bits, and the price that it
/// gives fits in 160 bits.
pub open spec fn amount0_step_defined(p: nat, liquidity: nat, amount: nat, add: bool) -> bool {
    let numerator1 = liquidity * two_96();
    amount == 0 || ((if add {
        if amount * p < two_256() && numerator1 + amount * p < two_256() {
            numerator1 + amount * p > 0
        } else {
            p > 0 && numerator1 / p + amount < two_256()
        }
    } else {
        amount * p < numerator1
    }) && next_sqrt_price_from_amount0(p, liquidity, amount, add) < two_160())
}

/// The price after adding or removing `amount` of token0 at price `p`,
/// rounded up: `liquidity * 2^96 * p / (liquidity * 2^96 +- amount * p)`, or,
/// where that denominator exceeds 256 bits,
/// `liquidity * 2^96 / (liquidity * 2^96 / p + amount)`.
pub open spec fn next_sqrt_price_from_amount0(p: nat, liquidity: nat, amount: nat, add: bool)
    -> nat {
    let numerator1 = liquidity * two_96();
    if amount == 0 {
        p
    } else if add {
        if amount * p < two_256() && numerator1 + amount * p < two_256() {
            mul_div_ceil(numerator1, p, numerator1 + amount * p)
        } else {
            div_ceil(numerator1, numerator1 / p + amount)
        }
    } else {
        mul_div_ceil(numerator1, p, (numerator1 - amount * p) as nat)
    }
}

/// Whether adding or removing `amount` of token1 at price `p` has a next
/// price: the liquidity is not zero, and the price that the formula gives is
/// above zero and fits in 160 bits.
pub open spec fn amount1_step_defined(p: nat, liquidity: nat, amount: nat, add: bool) -> bool {
    liquidity > 0 && (if add {
        p + mul_div_floor(amount, two_96(), liquidity) < two_160()
    } else {
        mul_div_ceil(amount, two_96(), liquidity) < p && p - mul_div_ceil(
            amount,
            two_96(),
            liquidity,
        ) < two_160()
    })
}

/// The price after adding or removing `amount` of token1 at price `p`,
/// rounded down: `p + amount * 2^96 / liquidity` with the quotient rounded
/// down, or `p - amount * 2^96 / liquidity` with the quotient rounded up.
pub open spec fn next_sqrt_price_from_amount1(p: nat, liquidity: nat, amount: nat, add: bool)
    -> nat {
    if add {
        p + mul_div_floor(amount, two_96(), liquidity)
    } else {
        (p - mul_div_ceil(amount, two_96(), liquidity)) as nat
    }
}

/// A liquidity shifted left by 96 bits fits in 224 bits.
pub proof fn lemma_numerator1(liquidity: nat)
    requires
        liquidity < two_128(),
    ensures
        liquidity * two_96() < two_256(),
        liquidity * two_96() < two_128() * two_96(),
        (liquidity * vstd::arithmetic::power2::pow2(96)) % two_256() == liquidity * two_96(),
{
    lemma_named_powers();
    lemma_two_256_pos();
    assert(liquidity * two_96() < two_128() * two_96() && two_128() * two_96() < two_128()
        * two_128()) by (nonlinear_arith)
        requires
            liquidity < two_128(),
            0 < two_96() < two_128(),
    ;
    lemma_small_mod(liquidity * two_96(), two_256());
}

/// The price after adding or removing `amount` of token0.
pub fn get_next_sqrt_price_from_amount0_rounding_up(
    sqrt_px96: U160,
    liquidity: u128,
    amount: U256,
    add: bool,
) -> (r: U160)
    requires
        amount0_step_defined(sqrt_px96@, liquidity as nat, amount@, add),
    ensures
        r@ == next_sqrt_price_from_amount0(sqrt_px96@, liquidity as nat, amount@, add),
{
    if amount.is_zero() {
        return sqrt_px96;
    }
    let numerator1 = U256::from_u128(liquidity).shl(96);
    proof {
        lemma_numerator1(liquidity as nat);
        lemma_view_bound(amount);
        lemma_view_bound(sqrt_px96);
        lemma_two_256_pos();
    }
    let product_opt = amount.checked_mul(sqrt_px96);
    if add {
        if let Some(product) = product_opt {
            let denominator = numerator1.wrapping_add(product);
            proof {
                if numerator1@ + product@ < two_256() {
                    lemma_mod_of_shifted(
                        (numerator1@ + product@) as int,
                        (numerator1@ + product@) as int,
                        0,
                    );
                } else {
                    lemma_mod_of_shifted(
                        (numerator1@ + product@) as int,
                        numerator1@ + product@ - two_256(),
                        1,
                    );
                }
            }
            if denominator.is_ge(numerator1) {
                proof {
                    assert(numerator1@ * sqrt_px96@ <= sqrt_px96@ * denominator@)
                        by (nonlinear_arith)
                        requires
                            numerator1@ <= denominator@,
                    ;
                    lemma_div_ceil_le(numerator1@ * sqrt_px96@, denominator@, sqrt_px96@);
                    crate::num160::lemma_as_u160_small(
                        mul_div_ceil(numerator1@, sqrt_px96@, denominator@),
                    );
                }
                return FullMath::mul_div_rounding_up(numerator1, sqrt_px96, denominator).as_u160();
            }
        }
        let denominator = numerator1.div(sqrt_px96).wrapping_add(amount);
        proof {
            lemma_small_mod(numerator1@ / sqrt_px96@ + amount@, two_256());
            crate::num160::lemma_as_u160_small(div_ceil(numerator1@, denominator@));
        }
        FullMath::unsafe_div_rounding_up(numerator1, denominator).as_u160()
    } else {
        let product = product_opt.unwrap();
        let denominator = numerator1.wrapping_sub(product);
        proof {
            lemma_mod_of_shifted(numerator1@ - product@, numerator1@ - product@, 0);
            crate::num160::lemma_as_u160_small(
                mul_div_ceil(numerator1@, sqrt_px96@, denominator@),
            );
        }
        FullMath::mul_div_rounding_up(numerator1, sqrt_px96, denominator).as_u160()
    }
}

/// The price after adding or removing `amount` of token1.
pub fn get_next_sqrt_price_from_amount1_rounding_down(
    sqrt_px96: U160,
    liquidity: u128,
    amount: U256,
    add: bool,
) -> (r: U160)
    requires
        amount1_step_defined(sqrt_px96@, liquidity as nat, amount@, add),
    ensures
        r@ == next_sqrt_price_from_amount1(sqrt_px96@, liquidity as nat, amount@, add),
{
    let small = amount.is_le(crate::num160::Constants::get_u160_max());
    let wide_liquidity = U256::from_u128(liquidity);
    proof {
        lemma_named_powers();
        lemma_two_256_pos();
        lemma_view_bound(sqrt_px96);
        if small {
            assert(amount@ * two_96() < two_256()) by (nonlinear_arith)
                requires
                    amount@ < two_160(),
                    two_160() == two_128() * 0x1_0000_0000,
                    two_96() == 0x1_0000_0000_0000_0000_0000_0000,
                    two_256() == two_128() * two_128(),
                    two_128() == 0x1_0000_0000 * 0x1_0000_0000_0000_0000_0000_0000,
            ;
            lemma_small_mod(amount@ * two_96(), two_256());
        }
    }
    if add {
        let quotient = if small {
            amount.shl(96).div(wide_liquidity)
        } else {
            FullMath::mul_div(amount, get_q96(), wide_liquidity)
        };
        proof {
            crate::num160::lemma_as_u160_small(sqrt_px96@);
            crate::num160::lemma_as_u160_small(quotient@);
            crate::num160::lemma_as_u160_small(sqrt_px96@ + quotient@);
        }
        sqrt_px96.add160(quotient)
    } else {
        let quotient = if small {
            FullMath::unsafe_div_rounding_up(amount.shl(96), wide_liquidity)
        } else {
            FullMath::mul_div_rounding_up(amount, get_q96(), wide_liquidity)
        };
        let difference = sqrt_px96.wrapping_sub(quotient);
        proof {
            lemma_view_bound(sqrt_px96);
            lemma_mod_of_shifted(sqrt_px96@ - quotient@, sqrt_px96@ - quotient@, 0);
            crate::num160::lemma_as_u160_small(difference@);
        }
        difference.as_u160()
    }
}

/// The price after swapping in `amount_in` of token0 (`zero_for_one`) or of
/// token1. Price and liquidity must not be zero.
pub fn get_next_sqrt_price_from_input(
    sqrt_px96: U160,
    liquidity: u128,
    amount_in: U256,
    zero_for_one: bool,
) -> (r: U160)
    requires
        sqrt_px96@ > 0,
        liquidity > 0,
        zero_for_one ==> amount0_step_defined(sqrt_px96@, liquidity as nat, amount_in@, true),
        !zero_for_one ==> amount1_step_defined(sqrt_px96@, liquidity as nat, amount_in@, true),
    ensures
        r@ == (if zero_for_one {
            next_sqrt_price_from_amount0(sqrt_px96@, liquidity as nat, amount_in@, true)
        } else {
            next_sqrt_price_from_amount1(sqrt_px96@, liquidity as nat, amount_in@, true)
        }),
{
    if zero_for_one {
        get_next_sqrt_price_from_amount0_rounding_up(sqrt_px96, liquidity, amount_in, true)
    } else {
        get_next_sqrt_price_from_amount1_rounding_down(sqrt_px96, liquidity, amount_in, true)
    }
}

/// The price after swapping out `amount_out` of token1 (`zero_for_one`) or of
/// token0. Price and liquidity must not be zero.
pub fn get_next_sqrt_price_from_output(
    sqrt_px96: U160,
    liquidity: u128,
    amount_out: U256,
    zero_for_one: bool,
) -> (r: U160)
    requires
        sqrt_px96@ > 0,
        liquidity > 0,
        zero_for_one ==> amount1_step_defined(sqrt_px96@, liquidity as nat, amount_out@, false),
        !zero_for_one ==> amount0_step_defined(sqrt_px96@, liquidity as nat, amount_out@, false),
    ensures
        r@ == (if zero_for_one {
            next_sqrt_price_from_amount1(sqrt_px96@, liquidity as nat, amount_out@, false)
        } else {
            next_sqrt_price_from_amount0(sqrt_px96@, liquidity as nat, amount_out@, false)
        }),
{
    if zero_for_one {
        get_next_sqrt_price_from_amount1_rounding_down(sqrt_px96, liquidity, amount_out, false)
    } else {
        get_next_sqrt_price_from_amount0_rounding_up(sqrt_px96, liquidity, amount_out, false)
    }
}

/// The price after adding or removing `amount` of token0, or `None` where
/// there is none.
pub fn checked_get_next_sqrt_price_from_amount0_rounding_up(
    sqrt_px96: U160,
    liquidity: u128,
    amount: U256,
    add: bool,
) -> (r: Option<U160>)
    ensures
        amount0_step_defined(sqrt_px96@, liquidity as nat, amount@, add) ==> r.is_some()
            && r.unwrap()@ == next_sqrt_price_from_amount0(
            sqrt_px96@,
            liquidity as nat,
            amount@,
            add,
        ),
        !amount0_step_defined(sqrt_px96@, liquidity as nat, amount@, add) ==> r.is_none(),
{
    if amount.is_zero() {
        return Some(sqrt_px96);
    }
    let numerator1 = U256::from_u128(liquidity).shl(96);
    proof {
        lemma_numerator1(liquidity as nat);
        lemma_view_bound(amount);
        lemma_view_bound(sqrt_px96);
        lemma_two_256_pos();
    }
    let product_opt = amount.checked_mul(sqrt_px96);
    let quotient = if add {
        let exact = match product_opt {
            Some(product) => numerator1.checked_add(product),
            None => None,
        };
        match exact {
            Some(denominator) => {
                if denominator.is_zero() {
                    return None;
                }
                proof {
                    assert(numerator1@ * sqrt_px96@ <= sqrt_px96@ * denominator@)
                        by (nonlinear_arith)
                        requires
                            numerator1@ <= denominator@,
                    ;
                    lemma_div_ceil_le(numerator1@ * sqrt_px96@, denominator@, sqrt_px96@);
                }
                FullMath::mul_div_rounding_up(numerator1, sqrt_px96, denominator)
            },
            None => {
                if sqrt_px96.is_zero() {
                    return None;
                }
                match numerator1.div(sqrt_px96).checked_add(amount) {
                    Some(denominator) => FullMath::unsafe_div_rounding_up(numerator1, denominator),
                    None => {
                        return None;
                    },
                }
            },
        }
    } else {
        let product = match product_opt {
            Some(product) => product,
            None => {
                return None;
            },
        };
        if product.is_ge(numerator1) {
            return None;
        }
        let denominator = numerator1.wrapping_sub(product);
        proof {
            lemma_mod_of_shifted(numerator1@ - product@, numerator1@ - product@, 0);
        }
        match FullMath::checked_mul_div_rounding_up(numerator1, sqrt_px96, denominator) {
            Some(quotient) => quotient,
            None => {
                return None;
            },
        }
    };
    if quotient.is_le(crate::num160::Constants::get_u160_max()) {
        Some(quotient)
    } else {
        None
    }
}

/// The price after adding or removing `amount` of token1, or `None` where
/// there is none.
pub fn checked_get_next_sqrt_price_from_amount1_rounding_down(
    sqrt_px96: U160,
    liquidity: u128,
    amount: U256,
    add: bool,
) -> (r: Option<U160>)
    ensures
        amount1_step_defined(sqrt_px96@, liquidity as nat, amount@, add) ==> r.is_some()
            && r.unwrap()@ == next_sqrt_price_from_amount1(
            sqrt_px96@,
            liquidity as nat,
            amount@,
            add,
        ),
        !amount1_step_defined(sqrt_px96@, liquidity as nat, amount@, add) ==> r.is_none(),
{
    if liquidity == 0 {
        return None;
    }
    let wide_liquidity = U256::from_u128(liquidity);
    proof {
        lemma_two_256_pos();
        lemma_view_bound(sqrt_px96);
    }
    let price = if add {
        let quotient = match FullMath::checked_mul_div(amount, get_q96(), wide_liquidity) {
            Some(quotient) => quotient,
            None => {
                return None;
            },
        };
        match sqrt_px96.checked_add(quotient) {
            Some(sum) => sum,
            None => {
                return None;
            },
        }
    } else {
        let quotient = match FullMath::checked_mul_div_rounding_up(
            amount,
            get_q96(),
            wide_liquidity,
        ) {
            Some(quotient) => quotient,
            None => {
                return None;
            },
        };
        match sqrt_px96.checked_sub(quotient) {
            Some(difference) => {
                if difference.is_zero() {
                    return None;
                }
                difference
            },
            None => {
                return None;
            },
        }
    };
    if price.is_le(crate::num160::Constants::get_u160_max()) {
        Some(price)
    } else {
        None
    }
}

/// Whether swapping in `amount_in` at price `p` has a next price: price and
/// liquidity are not zero, and adding the amount of token0 (`zero_for_one`)
/// or of token1 has one.
pub open spec fn input_step_defined(p: nat, liquidity: nat, amount_in: nat, zero_for_one: bool)
    -> bool {
    p > 0 && liquidity > 0 && (if zero_for_one {
        amount0_step_defined(p, liquidity, amount_in, true)
    } else {
        amount1_step_defined(p, liquidity, amount_in, true)
    })
}

/// Whether swapping out `amount_out` at price `p` has a next price: price
/// and liquidity are not zero, and removing the amount of token1
/// (`zero_for_one`) or of token0 has one.
pub open spec fn output_step_defined(p: nat, liquidity: nat, amount_out: nat, zero_for_one: bool)
    -> bool {
    p > 0 && liquidity > 0 && (if zero_for_one {
        amount1_step_defined(p, liquidity, amount_out, false)
    } else {
        amount0_step_defined(p, liquidity, amount_out, false)
    })
}

/// The price after swapping in `amount_in` of token0 (`zero_for_one`) or of
/// token1, or `None` where price or liquidity is zero or the next price is
/// out of bounds.
pub fn checked_get_next_sqrt_price_from_input(
    sqrt_px96: U160,
    liquidity: u128,
    amount_in: U256,
    zero_for_one: bool,
) -> (r: Option<U160>)
    ensures
        input_step_defined(sqrt_px96@, liquidity as nat, amount_in@, zero_for_one) ==> r.is_some()
            && r.unwrap()@ == (if zero_for_one {
            next_sqrt_price_from_amount0(sqrt_px96@, liquidity as nat, amount_in@, true)
        } else {
            next_sqrt_price_from_amount1(sqrt_px96@, liquidity as nat, amount_in@, true)
        }),
        !input_step_defined(sqrt_px96@, liquidity as nat, amount_in@, zero_for_one)
            ==> r.is_none(),
{
    if sqrt_px96.is_zero() || liquidity == 0 {
        return None;
    }
    if zero_for_one {
        checked_get_next_sqrt_price_from_amount0_rounding_up(sqrt_px96, liquidity, amount_in, true)
    } else {
        checked_get_next_sqrt_price_from_amount1_rounding_down(
            sqrt_px96,
            liquidity,
            amount_in,
            true,
        )
    }
}

/// The price after swapping out `amount_out` of token1 (`zero_for_one`) or
/// of token0, or `None` where price or liquidity is zero or the next price
/// is out of bounds.
pub fn checked_get_next_sqrt_price_from_output(
    sqrt_px96: U160,
    liquidity: u128,
    amount_out: U256,
    zero_for_one: bool,
) -> (r: Option<U160>)
    ensures
        output_step_defined(sqrt_px96@, liquidity as nat, amount_out@, zero_for_one)
            ==> r.is_some() && r.unwrap()@ == (if zero_for_one {
            next_sqrt_price_from_amount1(sqrt_px96@, liquidity as nat, amount_out@, false)
        } else {
            next_sqrt_price_from_amount0(sqrt_px96@, liquidity as nat, amount_out@, false)
        }),
        !output_step_defined(sqrt_px96@, liquidity as nat, amount_out@, zero_for_one)
            ==> r.is_none(),
{
    if sqrt_px96.is_zero() || liquidity == 0 {
        return None;
    }
    if zero_for_one {
        checked_get_next_sqrt_price_from_amount1_rounding_down(
            sqrt_px96,
            liquidity,
            amount_out,
            false,
        )
    } else {
        checked_get_next_sqrt_price_from_amount0_rounding_up(sqrt_px96, liquidity, amount_out, false)
    }
}

/// The token0 amount never exceeds the liquidity shifted left by 96 bits.
pub proof fn lemma_amount0_bound(a: nat, b: nat, liquidity: nat, round_up: bool)
    requires
        a > 0,
        b > 0,
    ensures
        amount0_delta(a, b, liquidity, round_up) <= liquidity * two_96(),
        mul_div_ceil(liquidity * two_96(), (greater(a, b) - lesser(a, b)) as nat, greater(a, b))
            <= liquidity * two_96(),
        mul_div_floor(liquidity * two_96(), (greater(a, b) - lesser(a, b)) as nat, greater(a, b))
            <= liquidity * two_96(),
{
    let lo = lesser(a, b);
    let hi = greater(a, b);
    let n1 = liquidity * two_96();
    let n2 = (hi - lo) as nat;
    assert(n1 * n2 <= n1 * hi) by (nonlinear_arith)
        requires
            n2 <= hi,
    ;
    lemma_div_ceil_le(n1 * n2, hi, n1);
    lemma_div_ceil_bounds(n1 * n2, hi);
    let c = mul_div_ceil(n1, n2, hi);
    let f = mul_div_floor(n1, n2, hi);
    assert(c <= c * lo) by (nonlinear_arith)
        requires
            lo >= 1,
    ;
    lemma_div_ceil_le(c, lo, c);
    lemma_div_floor_bounds(f, lo);
    assert(f / lo <= f) by (nonlinear_arith)
        requires
            (f / lo) * lo <= f,
            lo >= 1,
    ;
}

/// Between prices of at most 160 bits, the token1 amount fits in 192 bits.
pub proof fn lemma_amount1_bound(a: nat, b: nat, liquidity: nat, round_up: bool)
    requires
        a < two_160(),
        b < two_160(),
        liquidity < two_128(),
    ensures
        amount1_delta(a, b, liquidity, round_up) <= two_128() * 0x1_0000_0000_0000_0000,
        amount1_delta(a, b, liquidity, round_up) < two_255(),
        amount1_delta(a, b, liquidity, round_up) < two_256(),
{
    let lo = lesser(a, b);
    let hi = greater(a, b);
    let d = (hi - lo) as nat;
    let bound: nat = two_128() * 0x1_0000_0000_0000_0000;
    lemma_two_256_pos();
    assert(liquidity * d <= bound * two_96()) by (nonlinear_arith)
        requires
            liquidity < two_128(),
            d < two_160(),
            two_160() == two_128() * 0x1_0000_0000,
            two_96() == 0x1_0000_0000_0000_0000_0000_0000,
            bound == two_128() * 0x1_0000_0000_0000_0000,
            two_128() == 0x1_0000_0000_0000_0000 * 0x1_0000_0000_0000_0000,
    ;
    lemma_div_ceil_le(liquidity * d, two_96(), bound);
    lemma_div_ceil_bounds(liquidity * d, two_96());
    assert(bound < two_255() && two_255() < two_256()) by (nonlinear_arith)
        requires
            bound == two_128() * 0x1_0000_0000_0000_0000,
            two_255() == 0x8000_0000_0000_0000_0000_0000_0000_0000 * two_128(),
            two_256() == two_128() * two_128(),
            two_128() == 0xffff_ffff_ffff_ffff_ffff_ffff_ffff_ffff + 1,
    ;
}

/// The amount of token0 between two prices at a liquidity. Neither price may
/// be zero.
pub fn get_amount0_delta(
    sqrt_ratio_a_x96: U160,
    sqrt_ratio_b_x96: U160,
    liquidity: u128,
    round_up: bool,
) -> (r: U256)
    requires
        sqrt_ratio_a_x96@ > 0,
        sqrt_ratio_b_x96@ > 0,
    ensures
        r@ == amount0_delta(sqrt_ratio_a_x96@, sqrt_ratio_b_x96@, liquidity as nat, round_up),
{
    let (lo, hi) = if sqrt_ratio_a_x96.is_gt(sqrt_ratio_b_x96) {
        (sqrt_ratio_b_x96, sqrt_ratio_a_x96)
    } else {
        (sqrt_ratio_a_x96, sqrt_ratio_b_x96)
    };
    let numerator1 = U256::from_u128(liquidity).shl(96);
    let numerator2 = hi.wrapping_sub(lo);
    proof {
        lemma_numerator1(liquidity as nat);
        lemma_view_bound(hi);
        lemma_mod_of_shifted(hi@ - lo@, hi@ - lo@, 0);
        lemma_amount0_bound(sqrt_ratio_a_x96@, sqrt_ratio_b_x96@, liquidity as nat, round_up);
    }
    if round_up {
        FullMath::unsafe_div_rounding_up(
            FullMath::mul_div_rounding_up(numerator1, numerator2, hi),
            lo,
        )
    } else {
        FullMath::mul_div(numerator1, numerator2, hi).div(lo)
    }
}

/// The amount of token1 between two prices at a liquidity. Neither price may
/// be zero, and the amount must fit in 256 bits, as it does between prices
/// of at most 160 bits.
pub fn get_amount1_delta(
    sqrt_ratio_a_x96: U160,
    sqrt_ratio_b_x96: U160,
    liquidity: u128,
    round_up: bool,
) -> (r: U256)
    requires
        sqrt_ratio_a_x96@ > 0,
        sqrt_ratio_b_x96@ > 0,
        amount1_delta(sqrt_ratio_a_x96@, sqrt_ratio_b_x96@, liquidity as nat, round_up)
            < two_256(),
    ensures
        r@ == amount1_delta(sqrt_ratio_a_x96@, sqrt_ratio_b_x96@, liquidity as nat, round_up),
{
    let (lo, hi) = if sqrt_ratio_a_x96.is_gt(sqrt_ratio_b_x96) {
        (sqrt_ratio_b_x96, sqrt_ratio_a_x96)
    } else {
        (sqrt_ratio_a_x96, sqrt_ratio_b_x96)
    };
    let difference = hi.wrapping_sub(lo);
    proof {
        lemma_view_bound(hi);
        lemma_mod_of_shifted(hi@ - lo@, hi@ - lo@, 0);
    }
    if round_up {
        FullMath::mul_div_rounding_up(U256::from_u128(liquidity), difference, get_q96())
    } else {
        FullMath::mul_div(U256::from_u128(liquidity), difference, get_q96())
    }
}

/// The absolute value of a liquidity change, as an unsigned number.
fn liquidity_magnitude(liquidity: i128) -> (r: u128)
    ensures
        r as nat == magnitude(liquidity as int),
{
    if liquidity == i128::MIN {
        0x8000_0000_0000_0000_0000_0000_0000_0000
    } else if liquidity < 0 {
        (-liquidity) as u128
    } else {
        liquidity as u128
    }
}

/// The signed amount of token0 for a liquidity change between two prices.
/// Neither price may be zero.
pub fn get_amount0_delta_signed(sqrt_ratio_a_x96: U160, sqrt_ratio_b_x96: U160, liquidity: i128)
    -> (r: I256)
    requires
        sqrt_ratio_a_x96@ > 0,
        sqrt_ratio_b_x96@ > 0,
    ensures
        r@ == amount0_delta_signed(sqrt_ratio_a_x96@, sqrt_ratio_b_x96@, liquidity as int),
{
    let size = liquidity_magnitude(liquidity);
    proof {
        lemma_amount0_bound(sqrt_ratio_a_x96@, sqrt_ratio_b_x96@, size as nat, liquidity >= 0);
        lemma_numerator1(size as nat);
        assert(two_128() * two_96() < two_255()) by (nonlinear_arith)
            requires
                two_255() == 0x8000_0000_0000_0000_0000_0000_0000_0000 * two_128(),
                two_96() == 0x1_0000_0000_0000_0000_0000_0000,
        ;
    }
    if liquidity < 0 {
        I256::from_bits(get_amount0_delta(sqrt_ratio_a_x96, sqrt_ratio_b_x96, size, false)).neg()
    } else {
        I256::from_bits(get_amount0_delta(sqrt_ratio_a_x96, sqrt_ratio_b_x96, size, true))
    }
}

/// The signed amount of token1 for a liquidity change between two prices.
/// Neither price may be zero, and the amount must fit in 255 bits, as it
/// does between prices of at most 160 bits.
pub fn get_amount1_delta_signed(sqrt_ratio_a_x96: U160, sqrt_ratio_b_x96: U160, liquidity: i128)
    -> (r: I256)
    requires
        sqrt_ratio_a_x96@ > 0,
        sqrt_ratio_b_x96@ > 0,
        amount1_delta(
            sqrt_ratio_a_x96@,
            sqrt_ratio_b_x96@,
            magnitude(liquidity as int),
            liquidity >= 0,
        ) < two_255(),
    ensures
        r@ == amount1_delta_signed(sqrt_ratio_a_x96@, sqrt_ratio_b_x96@, liquidity as int),
{
    let size = liquidity_magnitude(liquidity);
    proof {
        crate::int256::lemma_sign_bit(U256 { hi: 0, lo: 0 });
    }
    if liquidity < 0 {
        I256::from_bits(get_amount1_delta(sqrt_ratio_a_x96, sqrt_ratio_b_x96, size, false)).neg()
    } else {
        I256::from_bits(get_amount1_delta(sqrt_ratio_a_x96, sqrt_ratio_b_x96, size, true))
    }
}

} // verus!
