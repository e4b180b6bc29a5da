use std::str::FromStr;
use zswap::fixed_point_128::get_q128;
use zswap::full_math::FullMath;
use zswap::full_math::MathOps;
use zswap::num256::U256;

fn dec(text: &str) -> U256 {
    let (hi, lo) = ethnum::U256::from_str(text).unwrap().into_words();
    U256::from_words(hi, lo)
}

fn n(value: u128) -> U256 {
    U256::from_u128(value)
}

#[test]
fn test_mulmod() {
    assert_eq!(MathOps::mulmod(n(314159265), n(314159265), n(314159265)), n(0));
    assert_eq!(
        MathOps::mulmod(n(3141592653589793232), n(2718281828459045233), n(987234987230498234234)),
        n(878515112163912297716)
    );
    assert_eq!(
        MathOps::mulmod(n(123456789), n(101112131415), n(981238791623981726391827)),
        n(12482979073441926435)
    );
    assert_eq!(
        MathOps::mulmod(
            dec("11579208923731619542357098500868790785326998466564056403945758400791312963993"),
            dec("57896044618658097711785492504343953926634992332820282019728792003956564819968"),
            dec("7257920892373161954235709850086879078532699846656405640394575840079131296399")
        ),
        dec("6027955390367321265543803621229480096361388853679971715171647694262792444634")
    );
}

#[test]
fn test_mul_div() {
    // refused if the denominator is 0
    assert!(FullMath::checked_mul_div(get_q128(), n(5), n(0)).is_none());
    // refused if the denominator is 0 and the numerator overflows
    assert!(FullMath::checked_mul_div(get_q128(), get_q128(), n(0)).is_none());
    assert_eq!(FullMath::mul_div(get_q128(), get_q128(), U256::max_value()), n(1));
    // overflow
    assert!(FullMath::checked_mul_div(
        U256::max_value(),
        U256::max_value(),
        U256::max_value().wrapping_sub(n(1))
    )
    .is_none());
    // all max inputs
    assert_eq!(
        FullMath::mul_div(U256::max_value(), U256::max_value(), U256::max_value()),
        U256::max_value()
    );
    // accurate without phantom overflow
    {
        let x = get_q128();
        let y = FullMath::mul_div(n(50), get_q128(), n(100));
        let modulo = FullMath::mul_div(n(150), get_q128(), n(100));
        let answer = get_q128().div(n(3));
        assert_eq!(FullMath::mul_div(x, y, modulo), answer);
    }
    // accurate with phantom overflow
    {
        let x = get_q128();
        let y = x.wrapping_mul(n(35));
        let modulo = x.wrapping_mul(n(8));
        let answer = n(4375).wrapping_mul(get_q128()).div(n(1000));
        assert_eq!(FullMath::mul_div(x, y, modulo), answer);
    }
    // accurate with phantom overflow and repeating decimal
    {
        let x = get_q128();
        let y = x.wrapping_mul(n(1000));
        let modulo = x.wrapping_mul(n(3000));
        let answer = n(1).wrapping_mul(get_q128()).div(n(3));
        assert_eq!(FullMath::mul_div(x, y, modulo), answer);
    }
}

#[test]
fn test_mul_div_rounding_up() {
    // refused if the denominator is 0
    assert!(FullMath::checked_mul_div_rounding_up(get_q128(), n(5), n(0)).is_none());
    // refused if the denominator is 0 and the numerator overflows
    assert!(FullMath::checked_mul_div_rounding_up(get_q128(), get_q128(), n(0)).is_none());
    // refused if the output overflows 256 bits
    assert!(FullMath::checked_mul_div_rounding_up(get_q128(), get_q128(), n(1)).is_none());
    // refused on overflow with all max inputs
    assert!(FullMath::checked_mul_div_rounding_up(
        U256::max_value(),
        U256::max_value(),
        U256::max_value().wrapping_sub(n(1))
    )
    .is_none());
    // refused if the quotient overflows 256 bits after rounding up
    assert!(FullMath::checked_mul_div_rounding_up(
        n(535006138814359),
        dec("432862656469423142931042426214547535783388063929571229938474969"),
        n(2)
    )
    .is_none());
    // refused if the quotient overflows 256 bits after rounding up, case 2
    assert!(FullMath::checked_mul_div_rounding_up(
        dec("115792089237316195423570985008687907853269984659341747863450311749907997002549"),
        dec("115792089237316195423570985008687907853269984659341747863450311749907997002550"),
        dec("115792089237316195423570985008687907853269984653042931687443039491902864365164")
    )
    .is_none());
    // all max inputs
    {
        let x = U256::max_value();
        assert_eq!(FullMath::mul_div_rounding_up(x, x, x), x);
    }
    // accurate without phantom overflow
    {
        let x = get_q128();
        let y = FullMath::mul_div(n(50), get_q128(), n(100));
        let modulo = FullMath::mul_div(n(150), get_q128(), n(100));
        let answer = get_q128().div(n(3)).wrapping_add(n(1));
        assert_eq!(FullMath::mul_div_rounding_up(x, y, modulo), answer);
    }
    // accurate with phantom overflow
    {
        let x = get_q128();
        let y = x.wrapping_mul(n(35));
        let modulo = x.wrapping_mul(n(8));
        let answer = n(4375).wrapping_mul(get_q128()).div(n(1000));
        assert_eq!(FullMath::mul_div_rounding_up(x, y, modulo), answer);
    }
    // accurate with phantom overflow and repeating decimal
    {
        let x = get_q128();
        let y = x.wrapping_mul(n(1000));
        let modulo = x.wrapping_mul(n(3000));
        let answer = n(1).wrapping_mul(get_q128()).div(n(3)).wrapping_add(n(1));
        assert_eq!(FullMath::mul_div_rounding_up(x, y, modulo), answer);
    }
    // the rounded-down quotient of the inputs whose rounded-up quotient overflows
    assert_eq!(
        FullMath::checked_mul_div(
            n(535006138814359),
            dec("432862656469423142931042426214547535783388063929571229938474969"),
            n(2)
        ),
        Some(U256::max_value())
    );
}

fn pseudo_random_big_number(seed: U256) -> U256 {
    let mut res = U256::zero();
    let mut tmp = seed;
    for i in 0..100u128 {
        res = res.wrapping_add(tmp);
        tmp = tmp.wrapping_mul(tmp.wrapping_add(n(i)));
    }
    let _ = res;
    tmp
}

#[test]
fn check_random_inputs() {
    let mut tests = Vec::new();
    for i in 2..3u128 {
        let x = pseudo_random_big_number(n(i).wrapping_add(pseudo_random_big_number(n(1))));
        let y = pseudo_random_big_number(n(i).wrapping_add(pseudo_random_big_number(n(2))));
        let d = pseudo_random_big_number(n(i).wrapping_add(pseudo_random_big_number(n(3))));
        tests.push((x, y, d));
    }
    for (x, y, d) in tests {
        if d.is_zero() {
            assert!(FullMath::checked_mul_div(x, y, d).is_none());
        } else if x.is_zero() || y.is_zero() {
            assert_eq!(FullMath::mul_div(x, y, d), U256::zero());
            assert_eq!(FullMath::mul_div_rounding_up(x, y, d), U256::zero());
        } else if let Some(floored) = FullMath::checked_mul_div(x, y, d) {
            let remainder = MathOps::mulmod(x, y, d);
            if remainder.is_zero() {
                assert_eq!(FullMath::mul_div_rounding_up(x, y, d), floored);
            } else if floored != U256::max_value() {
                assert_eq!(
                    FullMath::mul_div_rounding_up(x, y, d),
                    floored.wrapping_add(n(1))
                );
            }
        }
    }
}

#[test]
fn checked_rounding_up_agrees_where_it_fits() {
    assert_eq!(FullMath::checked_mul_div_rounding_up(n(7), n(11), n(5)), Some(n(16)));
    assert_eq!(FullMath::checked_mul_div_rounding_up(n(7), n(10), n(5)), Some(n(14)));
    assert_eq!(
        FullMath::checked_mul_div_rounding_up(U256::max_value(), n(2), n(2)),
        Some(U256::max_value())
    );
    assert_eq!(FullMath::checked_mul_div_rounding_up(U256::max_value(), n(3), n(2)), None);
}

#[test]
fn mul_div_brackets_the_product() {
    // floor(7 * 11 / 5) = 15 and 15 * 5 <= 77 < 16 * 5
    assert_eq!(FullMath::mul_div(n(7), n(11), n(5)), n(15));
    assert_eq!(FullMath::mul_div_rounding_up(n(7), n(11), n(5)), n(16));
    assert_eq!(FullMath::mul_div_rounding_up(n(7), n(10), n(5)), n(14));
    assert_eq!(FullMath::unsafe_div_rounding_up(n(7), n(2)), n(4));
    assert_eq!(FullMath::unsafe_div_rounding_up(n(8), n(2)), n(4));
}

#[test]
fn wide_product_of_large_numbers() {
    let (high, low) = FullMath::wide_product(U256::max_value(), U256::max_value());
    // (2^256 - 1)^2 = (2^256 - 2) * 2^256 + 1
    assert_eq!(high, U256::max_value().wrapping_sub(n(1)));
    assert_eq!(low, n(1));
}

#[test]
fn arithmetic_on_words_matches_the_numbers() {
    let a = U256::from_words(3, 5);
    let b = U256::from_words(1, u128::MAX);
    assert_eq!(a.wrapping_add(b), U256::from_words(5, 4));
    assert_eq!(a.wrapping_sub(b), U256::from_words(1, 6));
    assert_eq!(b.wrapping_sub(a), U256::from_words(u128::MAX - 1, u128::MAX - 5));
    assert_eq!(n(6).wrapping_mul(n(7)), n(42));
    assert_eq!(n(43).div(n(7)), n(6));
    assert_eq!(n(43).rem(n(7)), n(1));
    assert_eq!(n(1).shl(128), U256::from_words(1, 0));
    assert_eq!(U256::from_words(1, 0).shr(127), n(2));
    assert_eq!(a.checked_mul(U256::from_words(1, 0)), None);
    assert_eq!(n(3).checked_mul(U256::from_words(1, 0)), Some(U256::from_words(3, 0)));
    assert_eq!(U256::max_value().checked_add(n(1)), None);
    assert_eq!(n(1).checked_sub(n(2)), None);
    assert_eq!(MathOps::addmod(U256::max_value(), U256::max_value(), n(10)), n(0));
    assert_eq!(MathOps::gt(n(2), n(1)), n(1));
    assert_eq!(MathOps::lt(n(2), n(1)), n(0));
}

fn wide(value: U256) -> ethnum::U256 {
    ethnum::U256::from_words(value.hi, value.lo)
}

fn narrow(value: ethnum::U256) -> U256 {
    let (hi, lo) = value.into_words();
    U256::from_words(hi, lo)
}

#[test]
fn words_agree_with_wide_integers() {
    let mut x = dec("57896044618658097711785492504343953926634992332820282019728792004938939802342");
    let mut y = dec("1606938044259977626524336601268507632356953233627996783863721");
    for round in 0..200u128 {
        assert_eq!(x.wrapping_add(y), narrow(wide(x).wrapping_add(wide(y))));
        assert_eq!(x.wrapping_sub(y), narrow(wide(x).wrapping_sub(wide(y))));
        assert_eq!(y.wrapping_sub(x), narrow(wide(y).wrapping_sub(wide(x))));
        assert_eq!(x.is_lt(y), wide(x) < wide(y));
        assert_eq!(x.is_le(y), wide(x) <= wide(y));
        assert_eq!(x.not(), narrow(!wide(x)));
        assert_eq!(x.bitand(y), narrow(wide(x) & wide(y)));
        assert_eq!(x.bitor(y), narrow(wide(x) | wide(y)));
        assert_eq!(x.bitxor(y), narrow(wide(x) ^ wide(y)));
        assert_eq!(x.checked_add(y).map(wide), wide(x).checked_add(wide(y)));
        assert_eq!(x.checked_sub(y).map(wide), wide(x).checked_sub(wide(y)));
        assert_eq!(x.checked_mul(y).map(wide), wide(x).checked_mul(wide(y)));
        if !y.is_zero() {
            let residue = wide(x) % wide(y);
            let doubled = if residue >= wide(y) - residue {
                residue - (wide(y) - residue)
            } else {
                residue + residue
            };
            assert_eq!(MathOps::addmod(x, x, y), narrow(doubled));
            // where the product fits, the quotient is that of the wide integers
            let small_x = x.shr(130);
            let small_y = y.shr(130);
            assert_eq!(
                FullMath::mul_div(small_x, small_y, y),
                narrow(wide(small_x) * wide(small_y) / wide(y))
            );
            assert_eq!(
                MathOps::mulmod(small_x, small_y, y),
                narrow(wide(small_x) * wide(small_y) % wide(y))
            );
        }
        // the next pair
        x = x.wrapping_mul(y).wrapping_add(n(round));
        y = y.wrapping_mul(n(6364136223846793005)).wrapping_add(x.shr(67));
    }
}
