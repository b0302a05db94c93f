use calcrux::api::{calc_eval, calcrux_version, CalcError, ConvertError, FfiLoanError};

#[test]
fn eval_addition() {
    assert_eq!(calc_eval("1+2".into(), false).unwrap(), "3");
}

#[test]
fn eval_sin_90_deg() {
    let r: f64 = calc_eval("sin(90)".into(), true).unwrap().parse().unwrap();
    assert!((r - 1.0).abs() < 1e-10);
}

#[test]
fn eval_error_propagates() {
    assert!(calc_eval("1/0".into(), false).is_err());
}

#[test]
fn version_non_empty() {
    assert!(!calcrux_version().is_empty());
}

// --- further cases ---------------------------------------------------------

#[test]
fn eval_error_carries_the_engine_message() {
    assert_eq!(
        calc_eval("1/0".into(), false).unwrap_err(),
        CalcError::Eval("division by zero".to_string())
    );
    assert_eq!(
        calc_eval("1 @ 2".into(), false).unwrap_err(),
        CalcError::Eval("unexpected character at position 2: '@'".to_string())
    );
    assert_eq!(
        calc_eval("(1+2".into(), false).unwrap_err(),
        CalcError::Eval("expected closing parenthesis".to_string())
    );
    assert_eq!(
        calc_eval("√(-1)".into(), false).unwrap_err(),
        CalcError::Eval("domain error: sqrt of negative number".to_string())
    );
}

#[test]
fn eval_result_is_decimal_with_eighteen_digits() {
    assert_eq!(calc_eval("1/3".into(), false).unwrap(), "0.333333333333333333");
    assert_eq!(calc_eval("10/4".into(), false).unwrap(), "2.5");
}

#[test]
fn version_is_the_package_version() {
    assert_eq!(calcrux_version(), "0.1.4");
    assert_eq!(calcrux::fx::version(), "0.1.4");
    assert_eq!(calcrux::loan::version(), "0.1.4");
    assert_eq!(calcrux::units::version(), "0.1.4");
}

#[test]
fn error_messages_are_the_carried_text() {
    assert_eq!(CalcError::Eval("x".into()).message(), "x");
    assert_eq!(ConvertError::Convert("y".into()).message(), "y");
    assert_eq!(FfiLoanError::Loan("z".into()).message(), "z");
}

#[test]
fn eval_sin_pi_is_zero() {
    assert_eq!(calc_eval("sin(π)".into(), false).unwrap(), "0");
}
