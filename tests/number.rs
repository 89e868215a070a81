use json_number::number::{decimal_power, Number};

#[test]
fn equality_is_by_value() {
    assert!(Number::from_parts(true, 500, -1) == Number::from_parts(true, 50, 0));
    assert!(Number::from_parts(true, 50, 0) == Number::from_parts(true, 500, -1));
    assert!(Number::from_parts(true, 5, 1) == Number::from_parts(true, 50, 0));
    assert!(Number::from_parts(true, 5, 1) != Number::from_parts(false, 50, 0));
    assert!(Number::from_parts(true, 0, 7) == Number::from_parts(false, 0, -3));
    assert!(Number::from_parts(true, 51, 0) != Number::from_parts(true, 5, 1));
}

#[test]
fn nan_equals_only_itself() {
    let nan = Number::nan();
    assert!(nan == nan);
    assert!(nan == Number::nan());
    assert!(nan != Number::from_parts(true, 0, 0));
    assert!(nan != Number::from_parts(false, 1, 0));
    assert!(Number::from_parts(true, 1, 0) != nan);
    assert!(nan.is_nan());
    assert!(nan.is_empty());
    assert!(!nan.is_zero());
}

#[test]
fn parts_round_trip() {
    let pi = Number::from_parts(true, 3141592653589793, -15);
    assert_eq!(pi.as_parts(), (true, 3141592653589793, -15));
    assert!(pi.is_sign_positive());
    let n = Number::from_parts(false, 0, 2);
    assert!(n.is_zero());
    assert!(n.is_empty());
    assert!(!n.is_nan());
}

#[test]
fn fixed_point_extraction() {
    assert_eq!(Number::from_f64_bits(5.99f64.to_bits()).unwrap().as_fixed_point_u64(2), Some(599));
    assert_eq!(Number::from_f64_bits(10.2f64.to_bits()).unwrap().as_fixed_point_u64(2), Some(1020));
    assert_eq!(Number::from(7u64).as_fixed_point_u64(2), Some(700));
    assert_eq!(Number::from_f64_bits((-1.49f64).to_bits()).unwrap().as_fixed_point_i64(2), Some(-149));
    assert_eq!(Number::from(42i64).as_fixed_point_i64(2), Some(4200));
    assert_eq!(Number::from_parts(false, 5, 0).as_fixed_point_u64(2), None);
    assert_eq!(Number::nan().as_fixed_point_u64(2), None);
    assert_eq!(Number::nan().as_fixed_point_i64(2), None);
    assert_eq!(Number::from_parts(true, 12345, -4).as_fixed_point_u64(1), Some(12));
    assert_eq!(Number::from_parts(false, 12345, -4).as_fixed_point_i64(1), Some(-12));
    assert_eq!(Number::from_parts(true, 12345, -30).as_fixed_point_u64(0), Some(0));
}

#[test]
fn integer_round_trip() {
    for i in [0i64, 1, -1, 42, -42, i64::MAX, i64::MIN, 1 << 40] {
        assert_eq!(i64::from(Number::from(i)), i);
    }
    for u in [0u64, 1, 42, u64::MAX] {
        assert_eq!(u64::from(Number::from(u)), u);
    }
}

#[test]
fn integer_conversion_truncates_and_wraps() {
    assert_eq!(i64::from(Number::from_parts(true, 599, -2)), 5);
    assert_eq!(i64::from(Number::from_parts(false, 599, -2)), -5);
    assert_eq!(i64::from(Number::from_parts(true, 12, 3)), 12000);
    assert_eq!(i64::from(Number::nan()), 0);
    assert_eq!(u64::from(Number::from_parts(true, 1, 19)), 10000000000000000000);
    assert_eq!(u64::from(Number::from_parts(true, 1, 20)), 7766279631452241920);
    assert_eq!(u64::from(Number::from_parts(false, 1, 0)), u64::MAX);
}

#[test]
fn from_float_bits() {
    let n = Number::from_f64_bits(3.141592653589793f64.to_bits()).unwrap();
    assert_eq!(n.as_parts(), (true, 3141592653589793, -15));
    assert!(Number::from_f64_bits(f64::NAN.to_bits()).unwrap().is_nan());
    assert!(Number::from_f64_bits(f64::INFINITY.to_bits()).unwrap().is_nan());
    assert_eq!(Number::from_f64_bits((-0.0f64).to_bits()).unwrap().as_parts(), (false, 0, 0));
    assert_eq!(Number::from_f64_bits(1e21f64.to_bits()).unwrap().as_parts(), (true, 1, 21));
}

#[test]
fn powers_of_ten() {
    assert_eq!(decimal_power(0), 1);
    assert_eq!(decimal_power(19), 10000000000000000000);
    assert_eq!(decimal_power(20), 7766279631452241920);
    assert_eq!(decimal_power(64), 0);
}

#[test]
fn negation_flips_the_sign() {
    let n = -Number::from_parts(true, 5, 0);
    assert_eq!(n.as_parts(), (false, 5, 0));
    assert_eq!((-n).as_parts(), (true, 5, 0));
    assert!((-Number::nan()).is_nan());
}

#[test]
fn narrow_integer_conversions() {
    assert_eq!(i32::from(Number::from(-7i32)), -7);
    assert_eq!(u8::from(Number::from(300u32)), 44);
    assert_eq!(i8::from(Number::from(200u32)), -56);
    assert_eq!(u16::from(Number::from_parts(true, 70000, 0)), 4464);
    assert_eq!(i16::from(Number::from_parts(false, 12345, -2)), -123);
    assert_eq!(u32::from(Number::from(7usize)), 7);
    assert_eq!(i64::from(Number::from(-3isize)), -3);
}

#[test]
fn integer_equality() {
    assert!(Number::from_parts(true, 42, 0) == 42i64);
    assert!(42u8 == Number::from_parts(true, 420, -1));
    assert!(Number::from_parts(false, 1, 0) == -1i32);
    assert!(Number::from_parts(false, 1, 0) != 1u64);
    assert!(Number::nan() != 0u64);
}
