use std::str::FromStr;
use zswap::bit_math::BitMath;
use zswap::num256::U256;

fn dec(text: &str) -> U256 {
    let (hi, lo) = ethnum::U256::from_str(text).unwrap().into_words();
    U256::from_words(hi, lo)
}

#[allow(non_snake_case)]
#[test]
fn BitMath_test_bit_math() {
    let value = U256::from_u128(1234567890u128);
    assert_eq!(BitMath::most_significant_bit(value), 30);
    assert_eq!(BitMath::least_significant_bit(value), 1);
}

#[test]
fn bit_math_test_bit_math() {
    let values = [
        U256::from_u128(1234567890u128),
        dec("57896044618658097711785492504343953926634992332820282019728792004938939802342"),
        dec("1606938044259977626524336601268507632356953233627996783863721"),
        dec("1037042214541001286141"),
        U256::max_value(),
        dec("97896044618658097711785492504343953926634992332820282019728792004938939802342"),
    ];
    for x in values {
        let mut lsb = 0;
        let mut msb = 0;
        for j in 0..=255u32 {
            if x.shr(j).is_odd() {
                lsb = j;
                break;
            }
        }
        for j in 0..=255u32 {
            if x.shr(j).is_odd() {
                msb = j;
            }
        }
        assert_eq!(lsb, BitMath::least_significant_bit(x) as u32);
        assert_eq!(msb, BitMath::most_significant_bit(x) as u32);
    }
}

#[test]
fn bit_scans_at_the_ends() {
    assert_eq!(BitMath::most_significant_bit(U256::one()), 0);
    assert_eq!(BitMath::least_significant_bit(U256::one()), 0);
    assert_eq!(BitMath::most_significant_bit(U256::from_words(1u128 << 127, 0)), 255);
    assert_eq!(BitMath::least_significant_bit(U256::from_words(1u128 << 127, 0)), 255);
    assert_eq!(BitMath::least_significant_bit(U256::from_words(1, 0)), 128);
}
