use calcrux::parser::{parse, BinOp, Expr, UnaryFn};
use calcrux::EngineError;

fn num(s: &str) -> Expr {
    Expr::Number(s.to_string())
}
fn bin(l: Expr, op: BinOp, r: Expr) -> Expr {
    Expr::BinOp(Box::new(l), op, Box::new(r))
}
fn plus(l: Expr, r: Expr) -> Expr {
    bin(l, BinOp::Add, r)
}
fn minus(l: Expr, r: Expr) -> Expr {
    bin(l, BinOp::Sub, r)
}
fn times(l: Expr, r: Expr) -> Expr {
    bin(l, BinOp::Mul, r)
}
fn over(l: Expr, r: Expr) -> Expr {
    bin(l, BinOp::Div, r)
}
fn pow(b: Expr, e: Expr) -> Expr {
    Expr::Pow(Box::new(b), Box::new(e))
}
fn neg(e: Expr) -> Expr {
    Expr::Negate(Box::new(e))
}
fn fact(e: Expr) -> Expr {
    Expr::Factorial(Box::new(e))
}
fn pct(e: Expr) -> Expr {
    Expr::Percent(Box::new(e))
}
fn f(func: UnaryFn, arg: Expr) -> Expr {
    Expr::UnaryFn(func, Box::new(arg))
}

#[test]
fn simple_addition() {
    assert_eq!(parse("1+2").unwrap(), plus(num("1"), num("2")));
}

#[test]
fn precedence_mul_before_add() {
    // 1 + 2 * 3 → 1 + (2*3)
    assert_eq!(parse("1+2*3").unwrap(), plus(num("1"), times(num("2"), num("3"))));
}

#[test]
fn precedence_parens_override() {
    // (1+2) * 3
    assert_eq!(parse("(1+2)*3").unwrap(), times(plus(num("1"), num("2")), num("3")));
}

#[test]
fn unary_negation() {
    assert_eq!(parse("-3").unwrap(), neg(num("3")));
}

#[test]
fn double_negation() {
    assert_eq!(parse("--3").unwrap(), neg(neg(num("3"))));
}

#[test]
fn power_right_assoc() {
    // 2^3^4 → 2^(3^4)
    assert_eq!(parse("2^3^4").unwrap(), pow(num("2"), pow(num("3"), num("4"))));
}

#[test]
fn factorial() {
    assert_eq!(parse("5!").unwrap(), fact(num("5")));
}

#[test]
fn percent() {
    assert_eq!(parse("50%").unwrap(), pct(num("50")));
}

#[test]
fn function_with_parens() {
    assert_eq!(parse("sin(1)").unwrap(), f(UnaryFn::Sin, num("1")));
}

#[test]
fn sqrt_bare_arg() {
    assert_eq!(parse("√4").unwrap(), f(UnaryFn::Sqrt, num("4")));
}

#[test]
fn sqrt_with_parens() {
    assert_eq!(parse("sqrt(9)").unwrap(), f(UnaryFn::Sqrt, num("9")));
}

#[test]
fn implicit_mul_number_constant() {
    // 2π → 2 * π
    assert_eq!(parse("2π").unwrap(), times(num("2"), Expr::Pi));
}

#[test]
fn implicit_mul_paren() {
    // 2(3+4) → 2 * (3+4)
    assert_eq!(parse("2(3+4)").unwrap(), times(num("2"), plus(num("3"), num("4"))));
}

#[test]
fn constants_pi_and_e() {
    assert_eq!(parse("π+e").unwrap(), plus(Expr::Pi, Expr::Euler));
}

#[test]
fn nested_functions() {
    // sin(cos(0))
    assert_eq!(parse("sin(cos(0))").unwrap(), f(UnaryFn::Sin, f(UnaryFn::Cos, num("0"))));
}

#[test]
fn complex_expression() {
    // -1 + 2 * (3 - 4) / 5
    let expected = plus(neg(num("1")), over(times(num("2"), minus(num("3"), num("4"))), num("5")));
    assert_eq!(parse("-1+2*(3-4)/5").unwrap(), expected);
}

#[test]
fn missing_close_paren() {
    assert!(matches!(parse("(1+2").unwrap_err(), EngineError::MissingCloseParen));
}

#[test]
fn empty_input() {
    assert!(matches!(parse("").unwrap_err(), EngineError::UnexpectedEof));
}

#[test]
fn unexpected_operator() {
    assert!(parse("+1").is_err());
}

#[test]
fn unicode_operators_parsed() {
    // 7 × 8 ÷ 2
    assert_eq!(parse("7 × 8 ÷ 2").unwrap(), over(times(num("7"), num("8")), num("2")));
}

#[test]
fn number_after_number_is_rejected() {
    assert_eq!(parse("1..2").unwrap_err(), EngineError::UnexpectedToken { pos: 2 });
    assert!(parse(".5.5").is_err());
}

#[test]
fn decimal_before_paren_is_invalid_number() {
    assert_eq!(parse("0.(3)").unwrap_err(), EngineError::InvalidNumber("0.".to_string()));
}

#[test]
fn trailing_operator_is_unexpected_eof() {
    assert_eq!(parse("1+").unwrap_err(), EngineError::UnexpectedEof);
}

#[test]
fn leftover_token_is_reported_at_its_byte_offset() {
    assert_eq!(parse("1)").unwrap_err(), EngineError::UnexpectedToken { pos: 1 });
    assert_eq!(parse("π)").unwrap_err(), EngineError::UnexpectedToken { pos: 2 });
    assert_eq!(parse("1 @ 2").unwrap_err(), EngineError::UnexpectedChar { pos: 2, ch: '@' });
    assert_eq!(parse("   ").unwrap_err(), EngineError::UnexpectedEof);
}
