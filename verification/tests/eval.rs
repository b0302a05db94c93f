use astro_float::{BigFloat, Consts, Radix, RoundingMode};
use calcrux::eval::{AngleMode, Evaluator};
use calcrux::number::{Number, DEFAULT_PREC};
use calcrux::EngineError;

fn eval(s: &str) -> Number {
    Evaluator::default().eval_str(s).expect(s)
}

fn eval_deg(s: &str) -> Number {
    Evaluator::new(AngleMode::Degrees).eval_str(s).expect(s)
}

fn big(s: &str) -> BigFloat {
    let mut cc = Consts::new().unwrap();
    BigFloat::parse(s, Radix::Dec, 512, RoundingMode::ToEven, &mut cc)
}

/// Assert that two numbers are within `tol` of each other.
fn approx_eq(a: &Number, b: &Number, tol: &str) {
    let a_f = big(&a.to_decimal_string(120));
    let b_f = big(&b.to_decimal_string(120));
    let diff = a_f.sub(&b_f, 512, RoundingMode::ToEven).abs();
    assert!(
        matches!(diff.cmp(&big(tol)), Some(n) if n < 0),
        "expected |{} - {}| < {tol}, got {diff}",
        a.to_decimal_string(30),
        b.to_decimal_string(30)
    );
}

// --- basic arithmetic ------------------------------------------------------

#[test]
fn add() {
    assert_eq!(eval("1+2"), Number::from_i64(3));
}

#[test]
fn sub() {
    assert_eq!(eval("5-3"), Number::from_i64(2));
}

#[test]
fn mul() {
    assert_eq!(eval("3*4"), Number::from_i64(12));
}

#[test]
fn div() {
    assert_eq!(eval("10/4"), Number::parse_decimal("2.5").unwrap());
}

#[test]
fn third_times_three_is_exactly_one() {
    // Exact, not approximately 1.
    let r = eval("1/3*3");
    assert_eq!(r, Number::one());
}

#[test]
fn point_one_plus_point_two_is_point_three() {
    assert_eq!(eval("0.1+0.2"), Number::parse_decimal("0.3").unwrap());
}

#[test]
fn unary_neg() {
    assert_eq!(eval("-7"), Number::from_i64(-7));
}

#[test]
fn nested_neg() {
    assert_eq!(eval("--7"), Number::from_i64(7));
}

#[test]
fn implicit_mul_pi() {
    // 2π equals 2 * π.
    let a = eval("2π");
    let b = eval("2*π");
    approx_eq(&a, &b, "1e-50");
}

// --- power -----------------------------------------------------------------

#[test]
fn integer_power() {
    assert_eq!(eval("2^10"), Number::from_i64(1024));
}

#[test]
fn negative_power() {
    assert_eq!(eval("2^-3"), Number::parse_decimal("0.125").unwrap());
}

#[test]
fn fractional_power_sqrt() {
    // 4^0.5 = 2
    let r = eval("4^0.5");
    approx_eq(&r, &Number::from_i64(2), "1e-70");
}

#[test]
fn right_assoc_power() {
    // 2^2^3 = 2^(2^3) = 2^8 = 256
    assert_eq!(eval("2^2^3"), Number::from_i64(256));
}

// --- factorial -------------------------------------------------------------

#[test]
fn factorial_5() {
    assert_eq!(eval("5!"), Number::from_i64(120));
}

#[test]
fn factorial_0() {
    assert_eq!(eval("0!"), Number::from_i64(1));
}

#[test]
fn factorial_10() {
    assert_eq!(eval("10!"), Number::from_i64(3628800));
}

// --- percent ---------------------------------------------------------------

#[test]
fn percent_50() {
    assert_eq!(eval("50%"), Number::parse_decimal("0.5").unwrap());
}

#[test]
fn percent_binary_phone_semantics() {
    // a ± b% → a × (1 ± b/100)
    assert_eq!(eval("100+10%"), Number::from_i64(110));
    assert_eq!(eval("100-10%"), Number::from_i64(90));
    assert_eq!(eval("200*50%"), Number::from_i64(100));
    assert_eq!(eval("200/50%"), Number::from_i64(400));
    assert_eq!(eval("50+50%"), Number::parse_decimal("75").unwrap());
    // Chained: (1000+5%)+5% = 1050+5% = 1102.5
    assert_eq!(eval("1000+5%+5%"), Number::parse_decimal("1102.5").unwrap());
}

#[test]
fn zero_to_negative_power_is_div_zero() {
    let err = Evaluator::default().eval_str("0^-1").unwrap_err();
    assert_eq!(err, EngineError::DivisionByZero);
    let err = Evaluator::default().eval_str("0^(-2)").unwrap_err();
    assert_eq!(err, EngineError::DivisionByZero);
}

#[test]
fn zero_to_positive_is_zero() {
    assert_eq!(eval("0^5"), Number::zero());
}

#[test]
fn negative_base_odd_root() {
    let r = eval("(-8)^(1/3)");
    approx_eq(&r, &Number::from_i64(-2), "1e-50");
    let r = eval("(-8)^(2/3)");
    approx_eq(&r, &Number::from_i64(4), "1e-50");
    let r = eval("(-32)^(1/5)");
    approx_eq(&r, &Number::from_i64(-2), "1e-40");
}

#[test]
fn negative_base_even_root_errors() {
    let err = Evaluator::default().eval_str("(-8)^(1/2)").unwrap_err();
    assert!(matches!(err, EngineError::Domain(_)));
    let err = Evaluator::default().eval_str("(-1)^0.5").unwrap_err();
    assert!(matches!(err, EngineError::Domain(_)));
}

#[test]
fn tan_pole_errors() {
    let err = Evaluator::new(AngleMode::Degrees).eval_str("tan(90)").unwrap_err();
    assert!(matches!(err, EngineError::Domain(_)));
    let err = Evaluator::default().eval_str("tan(π/2)").unwrap_err();
    assert!(matches!(err, EngineError::Domain(_)));
}

#[test]
fn number_juxtaposition_does_not_eval() {
    assert!(Evaluator::default().eval_str("1..2").is_err());
    assert!(Evaluator::default().eval_str(".5.5").is_err());
}

// --- sqrt ------------------------------------------------------------------

#[test]
fn sqrt_4() {
    let r = eval("√4");
    approx_eq(&r, &Number::from_i64(2), "1e-70");
}

#[test]
fn sqrt_2_precision() {
    // √2 ≈ 1.41421356237...
    let r = eval("√2");
    let expected =
        Number::parse_decimal("1.41421356237309504880168872420969807856967187537694").unwrap();
    approx_eq(&r, &expected, "1e-48");
}

#[test]
fn sqrt_negative_error() {
    let err = Evaluator::default().eval_str("√(-1)").unwrap_err();
    assert!(matches!(err, EngineError::Domain(_)));
}

// --- trig (radians) --------------------------------------------------------

#[test]
fn sin_zero() {
    let r = eval("sin(0)");
    approx_eq(&r, &Number::zero(), "1e-70");
}

#[test]
fn cos_zero() {
    let r = eval("cos(0)");
    approx_eq(&r, &Number::one(), "1e-70");
}

#[test]
fn sin_pi_near_zero() {
    // sin(π) is not exactly 0 but is tiny at 256-bit precision.
    let r = eval("sin(π)");
    approx_eq(&r, &Number::zero(), "1e-50");
}

#[test]
fn cos_pi() {
    let r = eval("cos(π)");
    approx_eq(&r, &Number::from_i64(-1), "1e-70");
}

// --- trig (degrees) --------------------------------------------------------

#[test]
fn sin_90_deg() {
    let r = eval_deg("sin(90)");
    approx_eq(&r, &Number::one(), "1e-70");
}

#[test]
fn cos_180_deg() {
    let r = eval_deg("cos(180)");
    approx_eq(&r, &Number::from_i64(-1), "1e-70");
}

#[test]
fn asin_1_deg() {
    // asin(1) in degrees is 90.
    let r = eval_deg("asin(1)");
    approx_eq(&r, &Number::from_i64(90), "1e-50");
}

// --- logarithms ------------------------------------------------------------

#[test]
fn ln_e() {
    let r = eval("ln(e)");
    approx_eq(&r, &Number::one(), "1e-70");
}

#[test]
fn ln_1() {
    let r = eval("ln(1)");
    approx_eq(&r, &Number::zero(), "1e-70");
}

#[test]
fn log_100() {
    let r = eval("log(100)");
    approx_eq(&r, &Number::from_i64(2), "1e-70");
}

#[test]
fn log_1000() {
    let r = eval("log(1000)");
    approx_eq(&r, &Number::from_i64(3), "1e-70");
}

// --- precision / big numbers -----------------------------------------------

#[test]
fn large_number_no_overflow() {
    // (1e100 + 1) − 1e100 is exactly 1.
    let r = eval("(1e100+1)-1e100");
    assert_eq!(r, Number::one());
}

#[test]
fn division_by_zero_error() {
    let err = Evaluator::default().eval_str("1/0").unwrap_err();
    assert_eq!(err, EngineError::DivisionByZero);
}

#[test]
fn legacy_repeating_strings_do_not_eval_to_zero() {
    let e = Evaluator::default();
    for bad in ["0.(3)", "2.(3)", "0.1(6)", "-0.(3)"] {
        let err = e.eval_str(bad).expect_err(bad);
        assert!(matches!(err, EngineError::InvalidNumber(_)), "{bad} must error, got {err:?}");
    }
}

// --- further cases ---------------------------------------------------------

#[test]
fn default_evaluator_settings() {
    let e = Evaluator::default();
    assert_eq!(e.angle_mode, AngleMode::Radians);
    assert_eq!(e.precision, DEFAULT_PREC);
    assert_eq!(AngleMode::default(), AngleMode::Radians);
    let d = Evaluator::new(AngleMode::Degrees);
    assert_eq!(d.angle_mode, AngleMode::Degrees);
    assert_eq!(d.precision, DEFAULT_PREC);
}

#[test]
fn factorial_domain_and_overflow() {
    let e = Evaluator::default();
    assert_eq!(
        e.eval_str("(-1)!").unwrap_err(),
        EngineError::Domain("factorial requires a non-negative integer")
    );
    assert_eq!(
        e.eval_str("(1/2)!").unwrap_err(),
        EngineError::Domain("factorial requires a non-negative integer")
    );
    assert_eq!(e.eval_str("10001!").unwrap_err(), EngineError::Overflow);
}

#[test]
fn factorial_of_integral_real() {
    // √4 is the real 2; its factorial is exact.
    assert_eq!(eval("(√4)!"), Number::from_i64(2));
}

#[test]
fn factorial_of_twenty_is_exact() {
    assert_eq!(eval("20!").to_decimal_string(30), "2432902008176640000");
}

#[test]
fn power_of_zero_to_zero_is_one() {
    assert_eq!(eval("0^0"), Number::one());
}

#[test]
fn negative_power_then_positive_power_is_one() {
    assert_eq!(eval("3^-4*3^4"), Number::one());
}

#[test]
fn percent_divide_by_zero_percent() {
    assert_eq!(
        Evaluator::default().eval_str("5/0%").unwrap_err(),
        EngineError::DivisionByZero
    );
}

#[test]
fn percent_of_negative() {
    assert_eq!(eval("-50%"), Number::parse_decimal("-0.5").unwrap());
    assert_eq!(eval("80-25%"), Number::from_i64(60));
}

#[test]
fn domain_errors_of_logs_and_inverse_trig() {
    let e = Evaluator::default();
    assert_eq!(e.eval_str("ln(0)").unwrap_err(), EngineError::Domain("ln domain is (0, ∞)"));
    assert_eq!(e.eval_str("log(-1)").unwrap_err(), EngineError::Domain("log domain is (0, ∞)"));
    assert_eq!(e.eval_str("asin(2)").unwrap_err(), EngineError::Domain("asin domain is [-1, 1]"));
    assert_eq!(e.eval_str("acos(-2)").unwrap_err(), EngineError::Domain("acos domain is [-1, 1]"));
    assert_eq!(e.eval_str("√(-4)").unwrap_err(), EngineError::Domain("sqrt of negative number"));
}

#[test]
fn abs_keeps_rationals_exact() {
    assert_eq!(eval("abs(-3/4)"), Number::parse_decimal("0.75").unwrap());
}

#[test]
fn atan_one_in_degrees() {
    let r = eval_deg("atan(1)");
    approx_eq(&r, &Number::from_i64(45), "1e-50");
}

#[test]
fn exp_one_is_euler() {
    let r = eval("exp(1)");
    approx_eq(&r, &eval("e"), "1e-70");
}

#[test]
fn half_power_is_square_root() {
    let r = eval("4^(1/2)");
    approx_eq(&r, &Number::from_i64(2), "1e-70");
}

#[test]
fn negative_half_power_is_reciprocal_square_root() {
    let r = eval("4^(-1/2)");
    approx_eq(&r, &Number::parse_decimal("0.5").unwrap(), "1e-70");
}

#[test]
fn irrational_exponent_of_negative_base_errors() {
    assert_eq!(
        Evaluator::default().eval_str("(-2)^π").unwrap_err(),
        EngineError::Domain("base must be non-negative for non-rational exponent")
    );
}

#[test]
fn power_of_zero_with_irrational_exponent() {
    assert_eq!(eval("0^π"), Number::zero());
}

#[test]
fn parse_errors_pass_through() {
    assert_eq!(Evaluator::default().eval_str("(1").unwrap_err(), EngineError::MissingCloseParen);
}

#[test]
fn display_hundredth_not_thousandth() {
    assert_eq!(eval("0.01").to_display_string(18), "0.01");
    assert_eq!(eval("1/100").to_display_string(18), "0.01");
    assert_eq!(eval("1e-2").to_display_string(18), "0.01");
    assert_eq!(eval("0.1^2").to_display_string(18), "0.01");
    assert_eq!(eval("0.1^2").to_refeed_string(18), "0.01");
}

#[test]
fn hundredth_decimal_string() {
    assert_eq!(eval("0.01").to_decimal_string(18), "0.01");
    assert_eq!(eval("1/100").to_decimal_string(18), "0.01");
    assert_eq!(eval("1e-2").to_decimal_string(18), "0.01");
    assert_eq!(eval("0.1^2").to_decimal_string(18), "0.01");
}

#[test]
fn tan_45_deg_is_one_not_point_one() {
    let r = eval_deg("tan(45)");
    approx_eq(&r, &Number::one(), "1e-50");
    assert_eq!(r.to_display_string(18), "1");
}

#[test]
fn sin_over_cos_45_deg_displays_one() {
    let r = eval_deg("sin(45)/cos(45)");
    approx_eq(&r, &Number::one(), "1e-50");
    assert_eq!(r.to_display_string(18), "1");
}

#[test]
fn tan_45_deg_displays_one() {
    let r = eval_deg("tan(45)");
    assert_eq!(r.to_decimal_string(18), "1");
    assert_eq!(eval_deg("sin(45)/cos(45)").to_decimal_string(18), "1");
}

#[test]
fn huge_integer_exponent_takes_the_real_power() {
    // 2^63 does not fit an i64, so the power is taken on reals and overflows.
    assert_eq!(eval("2^(2^63)").to_decimal_string(18), "Inf");
}

#[test]
fn decimal_literals_are_exact() {
    assert_eq!(eval("0.1*10"), Number::one());
    assert_eq!(eval("1.5e3"), Number::from_i64(1500));
    assert_eq!(eval("0.125*8"), Number::one());
}

#[test]
fn factorial_of_non_integral_real_is_a_domain_error() {
    assert_eq!(
        Evaluator::default().eval_str("(√2)!").unwrap_err(),
        EngineError::Domain("factorial requires a non-negative integer")
    );
}

#[test]
fn repeated_postfix_factorial_applies_twice() {
    // 3!! is (3!)! = 720, not a double factorial.
    assert_eq!(eval("3!!"), Number::from_i64(720));
}

#[test]
fn sin_pi_displays_as_zero() {
    let d = eval("sin(π)").to_display_string(18);
    assert_eq!(d, "0", "trig underflow must snap for display, got {d}");
    let d = eval("cos(π/2)").to_display_string(18);
    assert_eq!(d, "0", "cos(π/2) display must be 0, got {d}");
}

#[test]
fn sin_pi_decimal_string_is_zero() {
    assert_eq!(eval("sin(π)").to_decimal_string(18), "0");
    assert_eq!(eval("cos(π/2)").to_decimal_string(18), "0");
}

// --- display / refeed safety -----------------------------------------

#[test]
fn refeed_round_trip_repeating_rationals() {
    let e = Evaluator::default();
    for src in ["1/3", "1/6", "1/7", "7/3", "-1/3", "1+1/3", "2/3", "1/8"] {
        let n = e.eval_str(src).expect(src);
        let refeed = n.to_refeed_string(18);
        let again = e
            .eval_str(&refeed)
            .unwrap_or_else(|err| panic!("refeed of {src:?} = {refeed:?} failed: {err:?}"));
        assert_eq!(n, again, "round-trip mismatch for {src} via {refeed}");
    }
}

#[test]
fn refeed_chain_third_times_three() {
    let e = Evaluator::default();
    let third = e.eval_str("1/3").unwrap();
    let chained = format!("{}*3", third.to_refeed_string(18));
    assert_eq!(e.eval_str(&chained).unwrap(), Number::one());
}

#[test]
fn refeed_chain_two_thirds_squared() {
    // Bare `2/3^2` would be 2/9; atom refeed must yield (2/3)^2 = 4/9.
    let e = Evaluator::default();
    let two_thirds = e.eval_str("2/3").unwrap();
    let chained = format!("{}^2", two_thirds.to_refeed_string(18));
    let expected = e.eval_str("(2/3)^2").unwrap();
    assert_eq!(e.eval_str(&chained).unwrap(), expected);
    assert_eq!(expected, e.eval_str("4/9").unwrap());
}

#[test]
fn refeed_chain_neg_third_squared() {
    let e = Evaluator::default();
    let n = e.eval_str("-1/3").unwrap();
    let chained = format!("{}^2", n.to_refeed_string(18));
    assert_eq!(e.eval_str(&chained).unwrap(), e.eval_str("1/9").unwrap());
}

#[test]
fn display_third_uses_overline_not_parens() {
    let n = eval("1/3");
    let d = n.to_display_string(18);
    assert!(!d.contains('('), "display must not use parens: {d}");
    assert!(d.contains('\u{0305}'), "display must use overline: {d}");
}

#[test]
fn refeed_texts() {
    assert_eq!(eval("7").to_refeed_string(18), "7");
    assert_eq!(eval("0").to_refeed_string(18), "0");
    assert_eq!(eval("-7").to_refeed_string(18), "(-7)");
    assert_eq!(eval("1/3").to_refeed_string(18), "(1/3)");
    assert_eq!(eval("-1/3").to_refeed_string(18), "(-1/3)");
    assert_eq!(eval("7/3").to_refeed_string(18), "(7/3)");
    assert_eq!(eval("1/8").to_refeed_string(18), "0.125");
    assert_eq!(eval("-1/8").to_refeed_string(18), "(-0.125)");
    assert_eq!(eval("-5/2").to_refeed_string(18), "(-2.5)");
    assert_eq!(eval("1/1024").to_refeed_string(18), "0.0009765625");
    // Twenty decimal places are more than eighteen: written as a fraction.
    assert_eq!(eval("1/2^20").to_refeed_string(18), "(1/1048576)");
    assert_eq!(eval("1/2^20").to_refeed_string(20), "0.00000095367431640625");
}

#[test]
fn refeed_round_trips_decimals_and_integers() {
    let e = Evaluator::default();
    for src in ["0", "42", "-42", "1/8", "-1/8", "123/1000", "-7/4", "1/2^20", "10^30/7"] {
        let n = e.eval_str(src).expect(src);
        for digits in [0usize, 3, 18, 40] {
            let again = e.eval_str(&n.to_refeed_string(digits)).expect(src);
            assert_eq!(n, again, "round trip of {src} with {digits} digits");
        }
    }
}

#[test]
fn refeed_of_a_real_is_its_decimal_display() {
    let r = eval("√2");
    assert_eq!(r.to_refeed_string(18), r.to_decimal_string(18));
}

#[test]
fn display_marks_the_period() {
    assert_eq!(eval("1/3").to_display_string(18), "0.3\u{0305}");
    assert_eq!(eval("1/6").to_display_string(18), "0.16\u{0305}");
    assert_eq!(eval("2/3").to_display_string(18), "0.6\u{0305}");
    assert_eq!(
        eval("-1/7").to_display_string(18),
        "-0.1\u{0305}4\u{0305}2\u{0305}8\u{0305}5\u{0305}7\u{0305}"
    );
    assert_eq!(
        eval("22/7").to_display_string(18),
        "3.1\u{0305}4\u{0305}2\u{0305}8\u{0305}5\u{0305}7\u{0305}"
    );
    assert_eq!(eval("7/12").to_display_string(18), "0.583\u{0305}");
}

#[test]
fn display_without_a_short_period_is_the_decimal_string() {
    // Terminating decimals and integers.
    assert_eq!(eval("1/8").to_display_string(18), "0.125");
    assert_eq!(eval("42").to_display_string(18), "42");
    // 1/97 repeats every 96 digits: more than 18.
    assert_eq!(eval("1/97").to_display_string(18), eval("1/97").to_decimal_string(18));
    // With only one digit allowed, 1/6 has no period in reach.
    assert_eq!(eval("1/6").to_display_string(1), eval("1/6").to_decimal_string(1));
}

#[test]
fn small_values_above_the_snap_threshold_still_show() {
    // Exact rationals never snap.
    let tiny = eval("1e-70").to_decimal_string(18);
    assert_eq!(tiny.len(), 72);
    assert!(tiny.starts_with("0.000") && tiny.ends_with('1'));
    // A real of about 3e-30 is far above 10^-64.
    assert!(eval("π*1e-30").to_decimal_string(18).starts_with("0.000000000000000000000000000003141"));
}

#[test]
fn reals_compare_by_their_display() {
    assert_eq!(eval("sqrt(4)"), eval("√4"));
    assert_ne!(eval("√4"), Number::from_i64(2));
    assert_ne!(eval("√4"), eval("√9"));
}

#[test]
fn percent_multiply_and_divide_forms() {
    assert_eq!(eval("80*25%"), Number::from_i64(20));
    assert_eq!(eval("80/25%"), Number::from_i64(320));
    assert_eq!(eval("3^-2"), Number::one().div(Number::from_i64(9), DEFAULT_PREC).unwrap());
}

#[test]
fn asin_and_acos_domain_edges() {
    let e = Evaluator::default();
    assert!(e.eval_str("asin(1)").is_ok());
    assert!(e.eval_str("acos(-1)").is_ok());
    assert!(e.eval_str("asin(0.9999999)").is_ok());
    assert_eq!(
        e.eval_str("asin(1+10^-60)").unwrap_err(),
        EngineError::Domain("asin domain is [-1, 1]")
    );
    assert_eq!(
        e.eval_str("acos(-1-10^-60)").unwrap_err(),
        EngineError::Domain("acos domain is [-1, 1]")
    );
}
