use std::str::FromStr;
use zswap::full_math::MathOps;
use zswap::num256::U256;
use zswap::sqrt_price_math::checked_get_next_sqrt_price_from_amount0_rounding_up;
use zswap::sqrt_price_math::checked_get_next_sqrt_price_from_amount1_rounding_down;
use zswap::sqrt_price_math::checked_get_next_sqrt_price_from_input;
use zswap::sqrt_price_math::checked_get_next_sqrt_price_from_output;
use zswap::sqrt_price_math::get_amount0_delta;
use zswap::sqrt_price_math::get_amount0_delta_signed;
use zswap::sqrt_price_math::get_amount1_delta;
use zswap::sqrt_price_math::get_amount1_delta_signed;
use zswap::sqrt_price_math::get_next_sqrt_price_from_amount0_rounding_up;
use zswap::sqrt_price_math::get_next_sqrt_price_from_amount1_rounding_down;
use zswap::sqrt_price_math::get_next_sqrt_price_from_input;
use zswap::sqrt_price_math::get_next_sqrt_price_from_output;
use zswap::int256::I256;
use zswap::utils::encode_price_sqrt_u128;
use zswap::utils::expand_to_18_decimals;

fn dec(text: &str) -> U256 {
    let (hi, lo) = ethnum::U256::from_str(text).unwrap().into_words();
    U256::from_words(hi, lo)
}

fn n(value: u128) -> U256 {
    U256::from_u128(value)
}

#[test]
fn test_get_next_sqrt_price_from_input() {
    // fails if price is zero
    assert_eq!(
        checked_get_next_sqrt_price_from_input(
            U256::zero(),
            0,
            MathOps::div(expand_to_18_decimals(1), n(10)),
            false
        ),
        None
    );
    // fails if liquidity is zero
    assert_eq!(
        checked_get_next_sqrt_price_from_input(
            U256::one(),
            0,
            MathOps::div(expand_to_18_decimals(1), n(10)),
            true
        ),
        None
    );
    // fails if input amount overflows the price
    {
        let price = n(1).shl(160).wrapping_sub(n(1));
        assert_eq!(checked_get_next_sqrt_price_from_input(price, 1024, n(1024), false), None);
    }
    // returns input price if amount in is zero and zeroForOne = true
    {
        let price = encode_price_sqrt_u128(1, 1);
        assert_eq!(
            get_next_sqrt_price_from_input(
                price,
                MathOps::div(expand_to_18_decimals(1), n(10)).low_u128(),
                U256::zero(),
                true
            ),
            price,
        );
    }
    // returns input price if amount in is zero and zeroForOne = false
    {
        let price = encode_price_sqrt_u128(1, 1);
        assert_eq!(
            get_next_sqrt_price_from_input(
                price,
                MathOps::div(expand_to_18_decimals(1), n(10)).low_u128(),
                U256::zero(),
                false
            ),
            price,
        );
    }
    // returns the minimum price for max inputs
    {
        let sqrt_p = n(1).shl(160).wrapping_sub(n(1));
        let liquidity = n(u128::MAX);
        let max_amount_no_overflow = U256::max_value().wrapping_sub(liquidity.shl(96).div(sqrt_p));
        assert_eq!(
            get_next_sqrt_price_from_input(sqrt_p, liquidity.low_u128(), max_amount_no_overflow, true),
            n(1)
        );
    }
    // input amount of 0.1 token1
    {
        let sqrt_q = get_next_sqrt_price_from_input(
            encode_price_sqrt_u128(1, 1),
            expand_to_18_decimals(1).low_u128(),
            MathOps::div(expand_to_18_decimals(1), n(10)),
            false,
        );
        assert_eq!(sqrt_q, dec("87150978765690771352898345369"));
    }
    // input amount of 0.1 token0
    {
        let sqrt_q = get_next_sqrt_price_from_input(
            encode_price_sqrt_u128(1, 1),
            expand_to_18_decimals(1).low_u128(),
            MathOps::div(expand_to_18_decimals(1), n(10)),
            true,
        );
        assert_eq!(sqrt_q, dec("72025602285694852357767227579"));
    }
    // amountIn > type(uint96).max and zeroForOne = true
    assert_eq!(
        get_next_sqrt_price_from_input(
            encode_price_sqrt_u128(1, 1),
            expand_to_18_decimals(10).low_u128(),
            n(1).shl(100),
            true,
        ),
        dec("624999999995069620")
    );
    // can return 1 with enough amountIn and zeroForOne = true
    assert_eq!(
        get_next_sqrt_price_from_input(
            encode_price_sqrt_u128(1, 1),
            1,
            U256::max_value().div(n(2)),
            true,
        ),
        n(1)
    );
}

#[test]
fn test_get_next_sqrt_price_from_output() {
    // fails if price is zero
    assert_eq!(
        checked_get_next_sqrt_price_from_output(
            U256::zero(),
            0,
            expand_to_18_decimals(1).div(n(10)),
            false
        ),
        None
    );
    // fails if liquidity is zero
    assert_eq!(
        checked_get_next_sqrt_price_from_output(
            U256::one(),
            0,
            expand_to_18_decimals(1).div(n(10)),
            true
        ),
        None
    );
    {
        let price = dec("20282409603651670423947251286016");
        // fails if output amount is exactly the virtual reserves of token0
        assert_eq!(checked_get_next_sqrt_price_from_output(price, 1024, n(4), false), None);
        // fails if output amount is greater than virtual reserves of token1
        assert_eq!(checked_get_next_sqrt_price_from_output(price, 1024, n(262145), true), None);
        // fails if output amount is exactly the virtual reserves of token1
        assert_eq!(checked_get_next_sqrt_price_from_output(price, 1024, n(262144), true), None);
        // succeeds if output amount is just less than the virtual reserves of token1
        assert_eq!(
            checked_get_next_sqrt_price_from_output(price, 1024, n(262143), true),
            Some(dec("77371252455336267181195264"))
        );
    }
    // fails if amountOut is impossible in zero for one direction
    assert_eq!(
        checked_get_next_sqrt_price_from_output(
            encode_price_sqrt_u128(1, 1),
            1,
            U256::max_value(),
            true
        ),
        None
    );
    // fails if amountOut is impossible in one for zero direction
    assert_eq!(
        checked_get_next_sqrt_price_from_output(
            encode_price_sqrt_u128(1, 1),
            1,
            U256::max_value(),
            false
        ),
        None
    );
    // succeeds if output amount is just less than the virtual reserves of token1
    {
        let price = dec("20282409603651670423947251286016");
        let liquidity = 1024 as u128;
        let amount_out = n(262143);
        assert_eq!(
            get_next_sqrt_price_from_output(price, liquidity, amount_out, true),
            dec("77371252455336267181195264")
        );
    }
    // returns input price if amount in is zero and zeroForOne = true
    {
        let price = encode_price_sqrt_u128(1, 1);
        let liquidity = expand_to_18_decimals(1).div(n(10)).low_u128();
        assert_eq!(get_next_sqrt_price_from_output(price, liquidity, n(0), true), price);
    }
    // returns input price if amount in is zero and zeroForOne = false
    {
        let price = encode_price_sqrt_u128(1, 1);
        let liquidity = expand_to_18_decimals(1).div(n(10)).low_u128();
        assert_eq!(get_next_sqrt_price_from_output(price, liquidity, n(0), false), price);
    }
    // output amount of 0.1 token0
    {
        let price = encode_price_sqrt_u128(1, 1);
        let liquidity = expand_to_18_decimals(1).low_u128();
        let amount_out = expand_to_18_decimals(1).div(n(10));
        assert_eq!(
            get_next_sqrt_price_from_output(price, liquidity, amount_out, false),
            dec("88031291682515930659493278152")
        );
    }
    // output amount of 0.1 token1
    {
        let price = encode_price_sqrt_u128(1, 1);
        let liquidity = expand_to_18_decimals(1).low_u128();
        let amount_out = expand_to_18_decimals(1).div(n(10));
        assert_eq!(
            get_next_sqrt_price_from_output(price, liquidity, amount_out, true),
            dec("71305346262837903834189555302")
        );
    }
}

#[test]
fn test_get_amount0_delta() {
    // returns 0 if liquidity is 0
    assert_eq!(
        get_amount0_delta(encode_price_sqrt_u128(1, 1), encode_price_sqrt_u128(2, 1), 0, true),
        U256::zero()
    );
    // returns 0 if prices are equal
    assert_eq!(
        get_amount0_delta(encode_price_sqrt_u128(1, 1), encode_price_sqrt_u128(1, 1), 0, true),
        U256::zero()
    );
    {
        // returns 0.1 amount0 for price of 1 to 1.21
        let amount0 = get_amount0_delta(
            encode_price_sqrt_u128(1, 1),
            encode_price_sqrt_u128(121, 100),
            expand_to_18_decimals(1).low_u128(),
            true,
        );
        assert_eq!(amount0, n(90909090909090910));
        let amount0_rounded_down = get_amount0_delta(
            encode_price_sqrt_u128(1, 1),
            encode_price_sqrt_u128(121, 100),
            expand_to_18_decimals(1).low_u128(),
            false,
        );
        assert_eq!(amount0_rounded_down, amount0.wrapping_sub(n(1)));
    }
    {
        // works for prices that overflow
        let amount0_up = get_amount0_delta(
            encode_price_sqrt_u128(2_u128.pow(90), 1),
            encode_price_sqrt_u128(2_u128.pow(96), 1),
            expand_to_18_decimals(1).low_u128(),
            true,
        );
        let amount0_down = get_amount0_delta(
            encode_price_sqrt_u128(2_u128.pow(90), 1),
            encode_price_sqrt_u128(2_u128.pow(96), 1),
            expand_to_18_decimals(1).low_u128(),
            false,
        );
        assert_eq!(amount0_up, amount0_down.wrapping_add(n(1)));
    }
}

#[test]
fn test_get_amount1_delta() {
    // returns 0 if liquidity is 0
    assert_eq!(
        get_amount1_delta(encode_price_sqrt_u128(1, 1), encode_price_sqrt_u128(2, 1), 0, true),
        U256::zero()
    );
    // returns 0 if prices are equal
    assert_eq!(
        get_amount0_delta(encode_price_sqrt_u128(1, 1), encode_price_sqrt_u128(1, 1), 0, true),
        U256::zero()
    );
    // returns 0.1 amount1 for price of 1 to 1.21
    {
        let amount1 = get_amount1_delta(
            encode_price_sqrt_u128(1, 1),
            encode_price_sqrt_u128(121, 100),
            expand_to_18_decimals(1).low_u128(),
            true,
        );
        assert_eq!(amount1, n(100000000000000000));
        let amount1_rounded_down = get_amount1_delta(
            encode_price_sqrt_u128(1, 1),
            encode_price_sqrt_u128(121, 100),
            expand_to_18_decimals(1).low_u128(),
            false,
        );
        assert_eq!(amount1_rounded_down, amount1.wrapping_sub(n(1)));
    }
}

#[test]
fn test_swap_computation() {
    let sqrt_p = dec("1025574284609383690408304870162715216695788925244");
    let liquidity = 50015962439936049619261659728067971248_u128;
    let zero_for_one = true;
    let amount_in = n(406);

    let sqrt_q = get_next_sqrt_price_from_input(sqrt_p, liquidity, amount_in, zero_for_one);
    assert_eq!(sqrt_q, dec("1025574284609383582644711336373707553698163132913"));

    let amount0_delta = get_amount0_delta(sqrt_q, sqrt_p, liquidity, true);
    assert_eq!(amount0_delta, amount_in);
}

#[test]
fn signed_deltas_follow_the_sign_of_the_liquidity() {
    let a = encode_price_sqrt_u128(1, 1);
    let b = encode_price_sqrt_u128(121, 100);
    let liquidity = expand_to_18_decimals(1).low_u128() as i128;
    assert_eq!(get_amount0_delta_signed(a, b, liquidity), I256::from_i128(90909090909090910));
    assert_eq!(get_amount0_delta_signed(a, b, -liquidity), I256::from_i128(-90909090909090909));
    assert_eq!(get_amount1_delta_signed(a, b, liquidity), I256::from_i128(100000000000000000));
    assert_eq!(get_amount1_delta_signed(a, b, -liquidity), I256::from_i128(-99999999999999999));
}

#[test]
fn next_price_from_each_token() {
    let price = encode_price_sqrt_u128(1, 1);
    let liquidity = expand_to_18_decimals(1).low_u128();
    let tenth = expand_to_18_decimals(1).div(n(10));
    assert_eq!(
        get_next_sqrt_price_from_amount0_rounding_up(price, liquidity, tenth, true),
        dec("72025602285694852357767227579")
    );
    assert_eq!(
        get_next_sqrt_price_from_amount1_rounding_down(price, liquidity, tenth, true),
        dec("87150978765690771352898345369")
    );
    assert_eq!(
        get_next_sqrt_price_from_amount0_rounding_up(price, liquidity, tenth, false),
        dec("88031291682515930659493278152")
    );
    assert_eq!(
        get_next_sqrt_price_from_amount1_rounding_down(price, liquidity, tenth, false),
        dec("71305346262837903834189555302")
    );
}

#[test]
fn encoded_prices() {
    assert_eq!(encode_price_sqrt_u128(1, 1), n(1u128 << 96));
    assert_eq!(encode_price_sqrt_u128(4, 1), n(2u128 << 96));
    assert_eq!(encode_price_sqrt_u128(100, 1), n(10u128 << 96));
    assert_eq!(expand_to_18_decimals(3), n(3_000_000_000_000_000_000));
}

#[test]
fn next_prices_beyond_160_bits_are_refused() {
    // adding token1: the price would be 4295128739 + 2^160
    assert_eq!(
        checked_get_next_sqrt_price_from_amount1_rounding_down(
            n(4295128739),
            1,
            n(1u128 << 64),
            true
        ),
        None
    );
    // one unit less of token1 leaves the price within 160 bits
    assert_eq!(
        checked_get_next_sqrt_price_from_amount1_rounding_down(
            n(4295128739),
            1,
            n((1u128 << 64) - 1),
            true
        ),
        Some(n(4295128739).wrapping_add(n((1u128 << 64) - 1).shl(96)))
    );
    // removing token0: the price would be 2^160
    assert_eq!(
        checked_get_next_sqrt_price_from_amount0_rounding_up(
            n(1).shl(159),
            1u128 << 64,
            n(1),
            false
        ),
        None
    );
    // the checked forms agree with the others where a next price exists
    let price = encode_price_sqrt_u128(1, 1);
    let liquidity = expand_to_18_decimals(1).low_u128();
    let tenth = expand_to_18_decimals(1).div(n(10));
    for add in [true, false] {
        assert_eq!(
            checked_get_next_sqrt_price_from_amount0_rounding_up(price, liquidity, tenth, add),
            Some(get_next_sqrt_price_from_amount0_rounding_up(price, liquidity, tenth, add))
        );
        assert_eq!(
            checked_get_next_sqrt_price_from_amount1_rounding_down(price, liquidity, tenth, add),
            Some(get_next_sqrt_price_from_amount1_rounding_down(price, liquidity, tenth, add))
        );
    }
    assert_eq!(
        checked_get_next_sqrt_price_from_input(price, liquidity, tenth, true),
        Some(dec("72025602285694852357767227579"))
    );
}
