use std::str::FromStr;
use zswap::int256::AsI256;
use zswap::int256::ToU256;
use zswap::int256::I256;
use zswap::num160::AsI160;
use zswap::num160::AsU160;
use zswap::num160::Num160Trait;
use zswap::num24::AsI24;
use zswap::num24::AsU24;
use zswap::num24::Num24Trait;
use zswap::num256::U256;
use zswap::num56::AsI56;
use zswap::num56::AsU56;
use zswap::num56::Num56Trait;

fn dec(text: &str) -> U256 {
    let (hi, lo) = ethnum::U256::from_str(text).unwrap().into_words();
    U256::from_words(hi, lo)
}

fn signed(text: &str) -> I256 {
    let (hi, lo) = ethnum::I256::from_str(text).unwrap().into_words();
    I256::from_bits(U256::from_words(hi as u128, lo as u128))
}

#[test]
fn test_to160bit() {
    assert_eq!(
        signed("-23498273401982347190234691872346918723461234").as_i160(),
        signed("-23498273401982347190234691872346918723461234")
    );
    assert_eq!(
        signed("-982734092364982734698273649283746928736496873469").as_i160(),
        signed("478767544965920183505411183432536090919435669507")
    );
    assert_eq!(
        signed("-1082734092364982342734698273649283746928736496873469").as_i160(),
        signed("238620897216719654232187393481970636309517471747")
    );
    assert_eq!(
        signed("23498273401982347190234691872346918723461234").as_i160(),
        signed("23498273401982347190234691872346918723461234")
    );
    assert_eq!(
        signed("982734092364982734698273649283746928736496873469").as_i160(),
        signed("-478767544965920183505411183432536090919435669507")
    );
    assert_eq!(
        signed("1082734092364982342734698273649283746928736496873469").as_i160(),
        signed("-238620897216719654232187393481970636309517471747")
    );

    assert_eq!(
        dec("823498273401982347190234691872346918723461234").as_u160(),
        dec("823498273401982347190234691872346918723461234").as_u160()
    );
    assert_eq!(
        dec("1082734092364982342734698273649283746928736496873469").as_u160(),
        dec("1222880740114183263971497439234312383346415071229").as_u160()
    );
    assert_eq!(
        dec("982734092364982734698273649283746928736496873469").as_u160(),
        dec("982734092364982734698273649283746928736496873469").as_u160()
    );
    assert_eq!(
        dec("1239876193874612398476123784969871623498716234987612").as_u160(),
        dec("522805418006723839399046826463622830485438543964").as_u160()
    );
    assert_eq!(
        dec("6774691723649127834918235491823549126345912378401234501").as_u160(),
        dec("265913065858983492300335843895976173678848908869").as_u160()
    );
    assert_eq!(
        dec("54789234659871623407126349875123497180162340162340098162").as_u160(),
        dec("906594975575087378705533173710149549372504772722").as_u160()
    );
}

#[test]
fn test_to24bit() {
    assert_eq!(signed("-23498273401982347190234691872346918723461234").as_i24(), 6872974);
    assert_eq!(signed("-982734092364982734698273649283746928736496873469").as_i24(), 6721539);
    assert_eq!(signed("-1082734092364982342734698273649283746928736496873469").as_i24(), 6721539);
    assert_eq!(signed("23498273401982347190234691872346918723461234").as_i24(), -6872974);
    assert_eq!(signed("982734092364982734698273649283746928736496873469").as_i24(), -6721539);
    assert_eq!(signed("1082734092364982342734698273649283746928736496873469").as_i24(), -6721539);

    assert_eq!(
        dec("823498273401982347190234691872346918723461234").as_u24(),
        dec("9904242").as_u24()
    );
    assert_eq!(
        dec("1082734092364982342734698273649283746928736496873469").as_u24(),
        dec("10055677").as_u24()
    );
    assert_eq!(
        dec("982734092364982734698273649283746928736496873469").as_u24(),
        dec("10055677").as_u24()
    );
    assert_eq!(
        dec("1239876193874612398476123784969871623498716234987612").as_u24(),
        dec("16070748").as_u24()
    );
    assert_eq!(
        dec("6774691723649127834918235491823549126345912378401234501").as_u24(),
        dec("6037061").as_u24()
    );
    assert_eq!(
        dec("54789234659871623407126349875123497180162340162340098162").as_u24(),
        dec("16748658").as_u24()
    );
}

#[test]
fn test_to56bit() {
    assert_eq!(
        signed("-23498273401982347190234691872346918723461234").as_i56(),
        9649415604723598
    );
    assert_eq!(
        signed("-982734092364982734698273649283746928736496873469").as_i56(),
        32816923106775043
    );
    assert_eq!(
        signed("-1082734092364982342734698273649283746928736496873469").as_i56(),
        -9830521594540029
    );
    assert_eq!(
        signed("23498273401982347190234691872346918723461234").as_i56(),
        -9649415604723598
    );
    assert_eq!(
        signed("982734092364982734698273649283746928736496873469").as_i56(),
        -32816923106775043
    );
    assert_eq!(
        signed("1082734092364982342734698273649283746928736496873469").as_i56(),
        9830521594540029
    );

    assert_eq!(
        dec("823498273401982347190234691872346918723461234").as_u56(),
        dec("55793516480503922").as_u56()
    );
    assert_eq!(
        dec("1082734092364982342734698273649283746928736496873469").as_u56(),
        dec("9830521594540029").as_u56()
    );
    assert_eq!(
        dec("982734092364982734698273649283746928736496873469").as_u56(),
        dec("39240670931152893").as_u56()
    );
    assert_eq!(
        dec("1239876193874612398476123784969871623498716234987612").as_u56(),
        dec("15640935760476252").as_u56()
    );
    assert_eq!(
        dec("6774691723649127834918235491823549126345912378401234501").as_u56(),
        dec("38319641664953925").as_u56()
    );
    assert_eq!(
        dec("54789234659871623407126349875123497180162340162340098162").as_u56(),
        dec("46021751246655602").as_u56()
    );
}

#[test]
fn truncated_values_are_exact() {
    assert_eq!(dec("9904242").as_u24(), 9904242);
    assert_eq!(0x1_00_0005u32.as_u24(), 5);
    assert_eq!(0xff_ffffu128.as_u24(), 0xff_ffff);
    assert_eq!((-1i32).as_i24(), -1);
    assert_eq!(0x80_0000i32.as_i24(), -0x80_0000);
    assert_eq!((-0x80_0001i128).as_i24(), 0x7f_ffff);
    assert_eq!((1u128 << 56 | 7).as_u56(), 7);
    assert_eq!((1i128 << 55).as_i56(), -(1i128 << 55));
    assert_eq!(dec("55793516480503922").as_u56(), 55793516480503922);
}

#[test]
fn sums_within_the_width() {
    assert_eq!(7u32.add24(8), 15);
    assert_eq!((-7i32).add24(3), -4);
    assert_eq!(7u128.add56(8), 15);
    assert_eq!((-7i128).add56(3), -4);
    assert_eq!(
        U256::from_u128(7).add160(U256::from_u128(8)),
        U256::from_u128(15)
    );
    assert_eq!(I256::from_i128(-7).add160(I256::from_i128(3)), I256::from_i128(-4));
    assert_eq!(
        zswap::num160::Constants::get_i160_max(),
        signed("730750818665451459101842416358141509827966271486")
    );
    assert_eq!(
        zswap::num160::Constants::get_u160_max(),
        dec("1461501637330902918203684832716283019655932542975")
    );
    assert_eq!(
        signed("982734092364982734698273649283746928736496873469")
            .add160(I256::from_i128(1)),
        signed("-478767544965920183505411183432536090919435669506")
    );
}

#[test]
fn signed_and_unsigned_readings() {
    assert_eq!(U256::from_u128(5).as_i256(), I256::from_i128(5));
    assert_eq!(I256::from_i128(5).to_u256(), U256::from_u128(5));
    assert_eq!(I256::from_i128(-5).unsigned_abs(), U256::from_u128(5));
    assert_eq!(I256::from_i128(-5).neg(), I256::from_i128(5));
    assert!(I256::from_i128(-1).is_negative());
    assert_eq!(I256::from_i128(-1).as_u256(), U256::max_value());
    assert_eq!(I256::from_i128(i128::MIN).checked_as_i128(), Some(i128::MIN));
    assert_eq!(I256::from_u128(u128::MAX).checked_as_i128(), None);
}
