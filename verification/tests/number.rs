use calcrux::number::{Number, DEFAULT_PREC};
use calcrux::EngineError;

fn r(n: i64, d: i64) -> Number {
    Number::from_i64(n).div(Number::from_i64(d), DEFAULT_PREC).unwrap()
}

#[test]
fn parse_integer() {
    let n = Number::parse_decimal("42").unwrap();
    assert_eq!(n, Number::from_i64(42));
}

#[test]
fn parse_decimal_point() {
    let n = Number::parse_decimal("3.14").unwrap();
    assert_eq!(n, r(314, 100));
}

#[test]
fn parse_leading_dot() {
    let n = Number::parse_decimal(".5").unwrap();
    assert_eq!(n, r(1, 2));
}

#[test]
fn parse_scientific_pos() {
    let n = Number::parse_decimal("1.5e3").unwrap();
    assert_eq!(n, Number::from_i64(1500));
}

#[test]
fn parse_scientific_neg() {
    let n = Number::parse_decimal("25e-2").unwrap();
    assert_eq!(n, r(1, 4));
}

#[test]
fn third_times_three_is_one() {
    // Exactly one, no floating epsilon.
    let third = Number::one().div(Number::from_i64(3), DEFAULT_PREC).unwrap();
    let product = third.mul(Number::from_i64(3), DEFAULT_PREC);
    assert_eq!(product, Number::one());
}

#[test]
fn add_sub_mul_div_rational_closed() {
    let a = Number::parse_decimal("0.1").unwrap();
    let b = Number::parse_decimal("0.2").unwrap();
    let c = a.add(b, DEFAULT_PREC);
    assert_eq!(c, Number::parse_decimal("0.3").unwrap());
}

#[test]
fn division_by_zero() {
    let err = Number::one().div(Number::zero(), DEFAULT_PREC).unwrap_err();
    assert_eq!(err, EngineError::DivisionByZero);
}

#[test]
fn integer_power_positive() {
    let two = Number::from_i64(2);
    assert_eq!(two.pow_int(10).unwrap(), Number::from_i64(1024));
}

#[test]
fn integer_power_negative() {
    let two = Number::from_i64(2);
    assert_eq!(two.pow_int(-3).unwrap(), r(1, 8));
}

#[test]
fn negate() {
    assert_eq!(Number::from_i64(5).neg(), Number::from_i64(-5));
}

#[test]
fn display_integer() {
    assert_eq!(Number::from_i64(42).to_decimal_string(18), "42");
}

#[test]
fn display_rational() {
    let half = r(1, 2);
    assert_eq!(half.to_decimal_string(18), "0.5");
}

#[test]
fn to_real_roundtrip() {
    let r = Number::from_i64(42);
    let real = Number::Real(r.to_real(DEFAULT_PREC));
    // The formatter normalises "4.2e+1" to "42".
    assert_eq!(real.to_decimal_string(18), "42");
}

// --- further cases --------------------------------------------------------

#[test]
fn parse_rejects_dot_alone() {
    assert_eq!(Number::parse_decimal(".").unwrap_err(), EngineError::InvalidNumber(".".to_string()));
}

#[test]
fn parse_rejects_bad_exponent() {
    assert_eq!(
        Number::parse_decimal("1e+").unwrap_err(),
        EngineError::InvalidNumber("1e+".to_string())
    );
}

#[test]
fn parse_uppercase_exponent_with_plus() {
    assert_eq!(Number::parse_decimal("2E+2").unwrap(), Number::from_i64(200));
}

#[test]
fn zero_to_negative_integer_power_has_no_rational_result() {
    assert!(Number::zero().pow_int(-1).is_none());
}

#[test]
fn real_base_has_no_rational_power() {
    let real = Number::Real(Number::from_i64(2).to_real(DEFAULT_PREC));
    assert!(real.pow_int(2).is_none());
}

#[test]
fn mixing_rational_and_real_gives_real() {
    let real = Number::Real(Number::from_i64(2).to_real(DEFAULT_PREC));
    let sum = Number::from_i64(1).add(real, DEFAULT_PREC);
    assert!(matches!(sum, Number::Real(_)));
    assert_eq!(sum.to_decimal_string(18), "3");
}

#[test]
fn is_zero_of_rational_and_real() {
    assert!(Number::zero().is_zero());
    assert!(!Number::one().is_zero());
    assert!(Number::Real(Number::zero().to_real(DEFAULT_PREC)).is_zero());
}

#[test]
fn display_repeating_fraction_rounds_to_digits() {
    assert_eq!(r(1, 3).to_decimal_string(18), "0.333333333333333333");
    assert_eq!(r(2, 3).to_decimal_string(18), "0.666666666666666667");
}

#[test]
fn display_rounding_carries_into_new_digit() {
    // 9.99 with two significant digits is 10.
    assert_eq!(r(999, 100).to_decimal_string(2), "10");
}

#[test]
fn display_small_and_negative_values() {
    assert_eq!(r(1, 100).to_decimal_string(18), "0.01");
    assert_eq!(r(-1, 8).to_decimal_string(18), "-0.125");
    assert_eq!(Number::from_i64(-7).to_decimal_string(18), "-7");
}

#[test]
fn display_large_real_pads_with_zeros() {
    let n = Number::parse_decimal("1e30").unwrap();
    let real = Number::Real(n.to_real(DEFAULT_PREC));
    assert_eq!(real.to_decimal_string(18), "1000000000000000000000000000000");
}

#[test]
fn texts_of_rational_and_real_parts() {
    match r(-3, 4) {
        Number::Rational(q) => assert_eq!(q.to_text(), "-3/4"),
        Number::Real(_) => panic!("expected a rational"),
    }
    match Number::Real(Number::from_i64(42).to_real(DEFAULT_PREC)) {
        Number::Real(f) => {
            let t = f.to_text();
            assert!(t.starts_with("4.2") && t.ends_with("e+1"), "{t}");
        }
        Number::Rational(_) => panic!("expected a real"),
    }
}

#[test]
fn integer_display_at_the_extremes() {
    assert_eq!(Number::from_i64(i64::MIN).to_decimal_string(18), "-9223372036854775808");
    let min128 = Number::from_i64(-2).pow_int(127).unwrap();
    assert_eq!(min128.to_decimal_string(18), "-170141183460469231731687303715884105728");
    assert_eq!(Number::zero().to_decimal_string(18), "0");
}

#[test]
fn exponent_digits_are_read_exactly() {
    assert_eq!(Number::parse_decimal("1e+00000000000000000000005").unwrap(), Number::from_i64(100000));
    assert_eq!(
        Number::parse_decimal("1e18446744073709551616").unwrap_err(),
        EngineError::InvalidNumber("1e18446744073709551616".to_string())
    );
}
