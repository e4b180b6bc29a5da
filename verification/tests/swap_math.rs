use std::str::FromStr;
use zswap::full_math::FullMath;
use zswap::int256::I256;
use zswap::num24::AsU24;
use zswap::num256::U256;
use zswap::sqrt_price_math::get_next_sqrt_price_from_input;
use zswap::sqrt_price_math::get_next_sqrt_price_from_output;
use zswap::swap_math::compute_swap_step;
use zswap::utils::encode_price_sqrt_u128;
use zswap::utils::expand_to_18_decimals;

fn dec(text: &str) -> U256 {
    let (hi, lo) = ethnum::U256::from_str(text).unwrap().into_words();
    U256::from_words(hi, lo)
}

fn n(value: u128) -> U256 {
    U256::from_u128(value)
}

#[test]
fn test_compute_swap_step() {
    // exact amount in that gets capped at price target in one for zero
    {
        let price = encode_price_sqrt_u128(1, 1);
        let price_target = encode_price_sqrt_u128(101, 100);
        let liquidity = expand_to_18_decimals(2);
        let amount = I256::from_bits(expand_to_18_decimals(1));
        let fee = 600_u128.as_u24();
        let zero_for_one = false;

        let (sqrt_q, amount_in, amount_out, fee_amount) =
            compute_swap_step(price, price_target, liquidity.low_u128(), amount, fee);

        assert_eq!(amount_in, n(9975124224178055));
        assert_eq!(fee_amount, n(5988667735148));
        assert_eq!(amount_out, n(9925619580021728));
        assert!(amount_in.wrapping_add(fee_amount).is_lt(amount.as_u256()));

        let price_after_whole_input_amount = get_next_sqrt_price_from_input(
            price,
            liquidity.low_u128(),
            amount.as_u256(),
            zero_for_one,
        );
        // price is capped at price target
        assert_eq!(sqrt_q, price_target);
        // price is less than price after whole input amount
        assert!(sqrt_q.is_lt(price_after_whole_input_amount));
    }
    // exact amount out that gets capped at price target in one for zero
    {
        let price = encode_price_sqrt_u128(1, 1);
        let price_target = encode_price_sqrt_u128(101, 100);
        let liquidity = expand_to_18_decimals(2);
        let amount = I256::from_bits(expand_to_18_decimals(1)).neg();
        let fee = 600_u128.as_u24();
        let zero_for_one = false;

        let (sqrt_q, amount_in, amount_out, fee_amount) =
            compute_swap_step(price, price_target, liquidity.low_u128(), amount, fee);

        assert_eq!(amount_in, n(9975124224178055));
        assert_eq!(fee_amount, n(5988667735148));
        assert_eq!(amount_out, n(9925619580021728));
        assert!(amount_out.is_lt(amount.unsigned_abs()));

        let price_after_whole_output_amount = get_next_sqrt_price_from_output(
            price,
            liquidity.low_u128(),
            amount.unsigned_abs(),
            zero_for_one,
        );
        assert_eq!(sqrt_q, price_target);
        assert!(sqrt_q.is_lt(price_after_whole_output_amount));
    }
    // exact amount in that is fully spent in one for zero
    {
        let price = encode_price_sqrt_u128(1, 1);
        let price_target = encode_price_sqrt_u128(1000, 100);
        let liquidity = expand_to_18_decimals(2);
        let amount = I256::from_bits(expand_to_18_decimals(1));
        let fee = 600_u128.as_u24();
        let zero_for_one = false;

        let (sqrt_q, amount_in, amount_out, fee_amount) =
            compute_swap_step(price, price_target, liquidity.low_u128(), amount, fee);

        assert_eq!(amount_in, n(999400000000000000));
        assert_eq!(fee_amount, n(600000000000000));
        assert_eq!(amount_out, n(666399946655997866));
        assert_eq!(amount_in.wrapping_add(fee_amount), amount.as_u256());

        let price_after_whole_input_amount_less_fee = get_next_sqrt_price_from_input(
            price,
            liquidity.low_u128(),
            amount.as_u256().wrapping_sub(fee_amount),
            zero_for_one,
        );
        assert!(sqrt_q.is_lt(price_target));
        assert_eq!(sqrt_q, price_after_whole_input_amount_less_fee);
    }
    // exact amount out that is fully received in one for zero
    {
        let price = encode_price_sqrt_u128(1, 1);
        let price_target = encode_price_sqrt_u128(10000, 100);
        let liquidity = expand_to_18_decimals(2);
        let amount = I256::from_bits(expand_to_18_decimals(1)).neg();
        let fee = 600_u128.as_u24();
        let zero_for_one = false;

        let (sqrt_q, amount_in, amount_out, fee_amount) =
            compute_swap_step(price, price_target, liquidity.low_u128(), amount, fee);

        assert_eq!(amount_in, n(2000000000000000000));
        assert_eq!(fee_amount, n(1200720432259356));
        assert_eq!(amount_out, amount.unsigned_abs());

        let price_after_whole_output_amount = get_next_sqrt_price_from_output(
            price,
            liquidity.low_u128(),
            amount.unsigned_abs(),
            zero_for_one,
        );
        assert!(sqrt_q.is_lt(price_target));
        assert_eq!(sqrt_q, price_after_whole_output_amount);
    }
    // amount out is capped at the desired amount out
    {
        let price = dec("417332158212080721273783715441582");
        let price_target = dec("1452870262520218020823638996");
        let liquidity = dec("159344665391607089467575320103");
        let amount = I256::from_i128(-1);
        let fee = 1_u128.as_u24();

        let (sqrt_q, amount_in, amount_out, fee_amount) =
            compute_swap_step(price, price_target, liquidity.low_u128(), amount, fee);

        assert_eq!(amount_in, n(1));
        assert_eq!(fee_amount, n(1));
        assert_eq!(amount_out, n(1));
        assert_eq!(sqrt_q, dec("417332158212080721273783715441581"));
    }
    // target price of 1 uses partial input amount
    {
        let price = dec("2");
        let price_target = dec("1");
        let liquidity = dec("1");
        let amount = I256::from_bits(dec("3915081100057732413702495386755767"));
        let fee = 1_u128.as_u24();

        let (sqrt_q, amount_in, amount_out, fee_amount) =
            compute_swap_step(price, price_target, liquidity.low_u128(), amount, fee);

        assert_eq!(amount_in, dec("39614081257132168796771975168"));
        assert_eq!(fee_amount, dec("39614120871253040049813"));
        assert!(amount_in
            .wrapping_add(fee_amount)
            .is_le(dec("3915081100057732413702495386755767")));
        assert_eq!(amount_out, dec("0"));
        assert_eq!(sqrt_q, dec("1"));
    }
    // entire input amount taken as fee
    {
        let price = dec("2413");
        let price_target = dec("79887613182836312");
        let liquidity = dec("1985041575832132834610021537970");
        let amount = I256::from_i128(10);
        let fee = 1872_u128.as_u24();

        let (sqrt_q, amount_in, amount_out, fee_amount) =
            compute_swap_step(price, price_target, liquidity.low_u128(), amount, fee);
        assert_eq!(amount_in, dec("0"));
        assert_eq!(fee_amount, dec("10"));
        assert_eq!(amount_out, dec("0"));
        assert_eq!(sqrt_q, dec("2413"));
    }
    // handles intermediate insufficient liquidity in zero for one exact output case
    {
        let sqrt_p = dec("20282409603651670423947251286016");
        let sqrt_p_target = FullMath::mul_div(sqrt_p, n(11), n(10));
        let liquidity = n(1024);
        let amount_remaining = I256::from_i128(-4);
        let fee_pips = 3000_u128.as_u24();

        let (sqrt_q, amount_in, amount_out, fee_amount) = compute_swap_step(
            sqrt_p,
            sqrt_p_target,
            liquidity.low_u128(),
            amount_remaining,
            fee_pips,
        );
        assert_eq!(amount_out, dec("0"));
        assert_eq!(sqrt_q, sqrt_p_target);
        assert_eq!(amount_in, dec("26215"));
        assert_eq!(fee_amount, dec("79"));
    }
    // handles intermediate insufficient liquidity in one for zero exact output case
    {
        let sqrt_p = dec("20282409603651670423947251286016");
        let sqrt_p_target = FullMath::mul_div(sqrt_p, n(9), n(10));
        let liquidity = n(1024);
        let amount_remaining = I256::from_i128(-263000);
        let fee_pips = 3000_u128.as_u24();

        let (sqrt_q, amount_in, amount_out, fee_amount) = compute_swap_step(
            sqrt_p,
            sqrt_p_target,
            liquidity.low_u128(),
            amount_remaining,
            fee_pips,
        );
        assert_eq!(amount_out, dec("26214"));
        assert_eq!(sqrt_q, sqrt_p_target);
        assert_eq!(amount_in, dec("1"));
        assert_eq!(fee_amount, dec("1"));
    }
}

#[test]
fn swap_step_keeps_input_and_fee_within_the_amount() {
    let price = encode_price_sqrt_u128(1, 1);
    let liquidity = expand_to_18_decimals(2).low_u128();
    for (target, amount) in [
        (encode_price_sqrt_u128(101, 100), 1_000_000_000_000_000_000u128),
        (encode_price_sqrt_u128(1000, 100), 1_000_000_000_000_000_000u128),
        (encode_price_sqrt_u128(100, 101), 12_345u128),
        (encode_price_sqrt_u128(1, 4), 7u128),
    ] {
        let (sqrt_q, amount_in, _, fee_amount) =
            compute_swap_step(price, target, liquidity, I256::from_u128(amount), 3000);
        assert!(amount_in.wrapping_add(fee_amount).is_le(n(amount)));
        if sqrt_q != target {
            assert_eq!(amount_in.wrapping_add(fee_amount), n(amount));
        }
    }
}
