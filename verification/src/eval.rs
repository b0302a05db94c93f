//! Expression evaluator.
//!
//! Walks the AST from [`crate::parser`] and produces a [`Number`]. Sums,
//! differences, products, quotients and integer powers of rationals stay
//! exact; transcendental functions are computed by `astro_float` at the
//! evaluator's working precision (default 256 bits ≈ 77 decimal digits).
use vstd::prelude::*;
use crate::error::{EngineError, EngineErrorV};
use crate::number::{
    Number, NumV, DEFAULT_PREC, to_real_spec, num_is_zero, num_neg, num_add, num_sub, num_mul,
    num_div, num_pow_int, parse_decimal_spec,
};
use crate::parser::{Expr, ExprV, BinOp, UnaryFn, parse, parse_spec};
use crate::bigfloat::{
    Real, RealV, real_is_zero, real_is_negative, real_is_nan, real_is_inf, real_abs_spec,
    real_neg_spec, bf_sub, bf_mul, bf_div, bf_pow, bf_sqrt, bf_ln, bf_log2, bf_exp, bf_sin,
    bf_cos, bf_asin, bf_acos, bf_atan, bf_floor, bf_compare, bf_from_i128, bf_parse, bf_pi,
    bf_display, real_sub, real_mul, real_div, real_pow, real_sqrt, real_ln, real_log2, real_exp,
    real_sin, real_cos, real_asin, real_acos, real_atan, real_floor, real_compare, real_from_i128,
    real_parse, real_pi, real_to_string, real_vs_int, lemma_order_with_int, real_order,
};
use crate::rational::{abs, int_dec, rat_abs, rat_from_i64, rat_mul, i128_to_string};
use crate::text::{collect_chars, push_range, string_of};

verus! {

broadcast use vstd::string::group_string_axioms;

/// How trigonometric arguments and inverse-trigonometric results are read.
#[derive(Debug, Clone, Copy, PartialEq, Eq, Structural)]
pub enum AngleMode {
    Radians,
    Degrees,
}

impl Default for AngleMode {
    fn default() -> (m: AngleMode)
        ensures
            m == AngleMode::Radians,
    {
        AngleMode::Radians
    }
}

/// Evaluation settings: the angle unit and the working precision in bits.
#[derive(Debug, Clone)]
pub struct Evaluator {
    pub angle_mode: AngleMode,
    pub precision: usize,
}

impl Default for Evaluator {
    fn default() -> (e: Evaluator)
        ensures
            e.angle_mode == AngleMode::Radians,
            e.precision == DEFAULT_PREC,
    {
        Evaluator { angle_mode: AngleMode::Radians, precision: DEFAULT_PREC }
    }
}

/// Sign of an exponent, as the power of zero needs it.
#[derive(Debug, Clone, Copy, PartialEq, Eq, Structural)]
pub enum ExpSign {
    Positive,
    Zero,
    Negative,
    Unknown,
}

// ---------------------------------------------------------------------------
// Specification
// ---------------------------------------------------------------------------

pub open spec fn factorial(n: nat) -> nat
    decreases n,
{
    if n <= 1 {
        1
    } else {
        n * factorial((n - 1) as nat)
    }
}

/// Number of nodes of an expression.
pub open spec fn expr_size(e: ExprV) -> nat
    decreases e,
{
    match e {
        ExprV::Number(_) | ExprV::Pi | ExprV::Euler => 1,
        ExprV::Negate(x) | ExprV::UnaryFn(_, x) | ExprV::Factorial(x) | ExprV::Percent(x) => 1
            + expr_size(*x),
        ExprV::BinOp(l, _, r) | ExprV::Pow(l, r) => 1 + expr_size(*l) + expr_size(*r),
    }
}

/// The outcome `r` of an evaluation is the one that `s` describes.
pub open spec fn outcome(r: Result<Number, EngineError>, s: Result<NumV, EngineErrorV>) -> bool {
    match s {
        Ok(v) => r matches Ok(n) && n@ == v,
        Err(e) => r matches Err(x) && x@ == e,
    }
}

pub open spec fn hundred() -> NumV {
    NumV::Rational((100, 1))
}

pub open spec fn num_is_negative(n: NumV) -> bool {
    match n {
        NumV::Rational(r) => r.0 < 0,
        NumV::Real(f) => real_is_negative(f),
    }
}

pub open spec fn exp_sign_spec(n: NumV) -> ExpSign {
    match n {
        NumV::Rational(r) => if r.0 == 0 {
            ExpSign::Zero
        } else if r.0 > 0 {
            ExpSign::Positive
        } else {
            ExpSign::Negative
        },
        NumV::Real(f) => if real_is_nan(f) || real_is_inf(f) {
            ExpSign::Unknown
        } else if real_is_zero(f) {
            ExpSign::Zero
        } else if real_is_negative(f) {
            ExpSign::Negative
        } else {
            ExpSign::Positive
        },
    }
}

/// A real is an integer when it is finite and equals its floor.
pub open spec fn is_integer_real(f: RealV, p: int) -> bool {
    !real_is_nan(f) && !real_is_inf(f) && real_is_zero(bf_sub(f, bf_floor(f), p))
}

/// The value of an integral rational whose magnitude fits an `i64`.
pub open spec fn rat_i64(r: (int, int)) -> Option<i64> {
    if r.1 == 1 && abs(r.0) <= i64::MAX {
        Some(r.0 as i64)
    } else {
        None
    }
}

/// An integral real as an `i64`, read back from its decimal display.
pub open spec fn real_i64_spec(f: RealV) -> Result<i64, EngineErrorV> {
    match parse_decimal_spec(bf_display(f)) {
        Ok(r) => if r.1 == 1 && i64::MIN <= r.0 <= i64::MAX {
            Ok(r.0 as i64)
        } else {
            Err(EngineErrorV::Overflow)
        },
        Err(_) => Err(EngineErrorV::Overflow),
    }
}

/// `e^(x · ln b)`.
pub open spec fn exp_ln(x: RealV, b: RealV, p: int) -> RealV {
    bf_exp(bf_mul(x, bf_ln(b, p), p), p)
}

/// The integer-exponent fast path: an exact power when the exponent is an
/// integer that fits an `i64` and the base is rational.
pub open spec fn int_exponent_power(base: NumV, exp: NumV) -> Option<NumV> {
    match exp {
        NumV::Rational(r) => match rat_i64(r) {
            Some(n) => num_pow_int(base, n as int),
            None => None,
        },
        NumV::Real(_) => None,
    }
}

/// A negative base with an exponent that is not a small integer.
pub open spec fn pow_negative_base_spec(bf: RealV, exp: NumV, ef: RealV, p: int) -> Result<
    NumV,
    EngineErrorV,
> {
    match exp {
        NumV::Real(_) => Err(
            EngineErrorV::Domain("base must be non-negative for non-rational exponent"@),
        ),
        NumV::Rational(r) => if is_integer_real(ef, p) {
            Ok(NumV::Real(bf_pow(bf, ef, p)))
        } else if r.1 % 2 != 1 {
            Err(EngineErrorV::Domain("base must be non-negative for even-root exponent"@))
        } else {
            let mag0 = exp_ln(real_abs_spec(ef), real_abs_spec(bf), p);
            let mag = if abs(r.0) % 2 == 1 {
                real_neg_spec(mag0)
            } else {
                mag0
            };
            if r.0 < 0 {
                if real_is_zero(mag) {
                    Err(EngineErrorV::DivisionByZero)
                } else {
                    Ok(NumV::Real(bf_div(bf_from_i128(1i128, p), mag, p)))
                }
            } else {
                Ok(NumV::Real(mag))
            }
        },
    }
}

/// `base ^ exp`.
pub open spec fn pow_values(base: NumV, exp: NumV, p: int) -> Result<NumV, EngineErrorV> {
    if num_is_zero(base) {
        match exp_sign_spec(exp) {
            ExpSign::Positive => Ok(NumV::Rational((0, 1))),
            ExpSign::Zero => Ok(NumV::Rational((1, 1))),
            ExpSign::Negative => Err(EngineErrorV::DivisionByZero),
            ExpSign::Unknown => Err(EngineErrorV::Domain("undefined power of zero"@)),
        }
    } else if int_exponent_power(base, exp) is Some {
        Ok(int_exponent_power(base, exp)->0)
    } else {
        let bf = to_real_spec(base, p);
        let ef = to_real_spec(exp, p);
        if real_is_negative(bf) {
            pow_negative_base_spec(bf, exp, ef, p)
        } else {
            Ok(
                NumV::Real(
                    match exp {
                        NumV::Rational(r) => if r.0 == 1 && r.1 == 2 {
                            bf_sqrt(bf, p)
                        } else if r.1 == 1 {
                            bf_pow(bf, ef, p)
                        } else {
                            exp_ln(ef, bf, p)
                        },
                        NumV::Real(_) => exp_ln(ef, bf, p),
                    },
                ),
            )
        }
    }
}

pub open spec fn factorial_domain() -> EngineErrorV {
    EngineErrorV::Domain("factorial requires a non-negative integer"@)
}

/// `n!` for an integer `0 ≤ n ≤ 10000`, computed exactly.
pub open spec fn factorial_value(n: NumV, p: int) -> Result<NumV, EngineErrorV> {
    let k: Result<i64, EngineErrorV> = match n {
        NumV::Rational(r) => match rat_i64(r) {
            Some(k) => Ok(k),
            None => Err(factorial_domain()),
        },
        NumV::Real(f) => if !is_integer_real(f, p) {
            Err(factorial_domain())
        } else {
            real_i64_spec(f)
        },
    };
    match k {
        Err(e) => Err(e),
        Ok(k) => if k < 0 {
            Err(factorial_domain())
        } else if k > 10000 {
            Err(EngineErrorV::Overflow)
        } else {
            Ok(NumV::Rational((factorial(k as nat) as int, 1)))
        },
    }
}

/// `a op b`.
pub open spec fn binop_values(op: BinOp, a: NumV, b: NumV, p: int) -> Result<NumV, EngineErrorV> {
    match op {
        BinOp::Add => Ok(num_add(a, b, p)),
        BinOp::Sub => Ok(num_sub(a, b, p)),
        BinOp::Mul => Ok(num_mul(a, b, p)),
        BinOp::Div => num_div(a, b, p),
    }
}

/// Phone-calculator percent: `a + b%` is `a + a·(b/100)`, `a − b%` is
/// `a − a·(b/100)`, `a × b%` is `a·(b/100)` and `a ÷ b%` is `a ÷ (b/100)`.
pub open spec fn percent_values(op: BinOp, base: NumV, pct: NumV, p: int) -> Result<
    NumV,
    EngineErrorV,
> {
    match num_div(pct, hundred(), p) {
        Err(e) => Err(e),
        Ok(fraction) => match op {
            BinOp::Add => Ok(num_add(base, num_mul(base, fraction, p), p)),
            BinOp::Sub => Ok(num_sub(base, num_mul(base, fraction, p), p)),
            BinOp::Mul => Ok(num_mul(base, fraction, p)),
            BinOp::Div => num_div(base, fraction, p),
        },
    }
}

/// The argument of a trigonometric function, in radians.
pub open spec fn to_radians_spec(m: AngleMode, v: NumV, p: int) -> RealV {
    let f = to_real_spec(v, p);
    if m == AngleMode::Radians {
        f
    } else {
        bf_mul(f, bf_div(bf_pi(p), bf_from_i128(180i128, p), p), p)
    }
}

/// A result in radians, converted to the evaluator's angle unit.
pub open spec fn from_radians_spec(m: AngleMode, v: NumV, p: int) -> NumV {
    if m == AngleMode::Radians {
        v
    } else {
        NumV::Real(bf_mul(to_real_spec(v, p), bf_div(bf_from_i128(180i128, p), bf_pi(p), p), p))
    }
}

/// Exponent `m` of the tangent-pole threshold `10^(−m)`: a quarter of the
/// precision, at least 12.
pub open spec fn pole_digits(p: usize) -> i32 {
    if ((p / 4) as i32) < 12 {
        12
    } else {
        (p / 4) as i32
    }
}

/// The decimal text `1e-m`.
pub open spec fn pole_text(p: usize) -> Seq<char> {
    seq!['1', 'e', '-'] + int_dec(pole_digits(p) as int)
}

/// `|c|` is at most `10^(−m)`: the cosine counts as zero (a tangent pole).
pub open spec fn cos_near_zero_spec(c: RealV, p: usize) -> bool {
    real_is_zero(c) || match bf_compare(real_abs_spec(c), bf_parse(pole_text(p), p as int)) {
        Some(n) => n <= 0,
        None => false,
    }
}

/// `−1 ≤ f ≤ 1`.
pub open spec fn in_unit_range(f: RealV, p: int) -> bool {
    (match bf_compare(f, bf_from_i128(-1i128, p)) {
        Some(n) => n >= 0,
        None => false,
    }) && (match bf_compare(f, bf_from_i128(1i128, p)) {
        Some(n) => n <= 0,
        None => false,
    })
}

pub open spec fn domain(msg: &str) -> EngineErrorV {
    EngineErrorV::Domain(msg@)
}

/// A unary function applied to `v`.
pub open spec fn fn_value(m: AngleMode, p: usize, func: UnaryFn, v: NumV) -> Result<
    NumV,
    EngineErrorV,
> {
    let q = p as int;
    match func {
        UnaryFn::Sqrt => if num_is_negative(v) {
            Err(domain("sqrt of negative number"))
        } else {
            Ok(NumV::Real(bf_sqrt(to_real_spec(v, q), q)))
        },
        UnaryFn::Abs => match v {
            NumV::Rational(r) => Ok(NumV::Rational((abs(r.0) as int, r.1))),
            NumV::Real(f) => Ok(NumV::Real(real_abs_spec(f))),
        },
        UnaryFn::Sin => Ok(NumV::Real(bf_sin(to_radians_spec(m, v, q), q))),
        UnaryFn::Cos => Ok(NumV::Real(bf_cos(to_radians_spec(m, v, q), q))),
        UnaryFn::Tan => {
            let angle = to_radians_spec(m, v, q);
            let c = bf_cos(angle, q);
            if cos_near_zero_spec(c, p) {
                Err(domain("tan undefined at this angle"))
            } else {
                Ok(NumV::Real(bf_div(bf_sin(angle, q), c, q)))
            }
        },
        UnaryFn::Asin => {
            let f = to_real_spec(v, q);
            if !in_unit_range(f, q) {
                Err(domain("asin domain is [-1, 1]"))
            } else {
                Ok(from_radians_spec(m, NumV::Real(bf_asin(f, q)), q))
            }
        },
        UnaryFn::Acos => {
            let f = to_real_spec(v, q);
            if !in_unit_range(f, q) {
                Err(domain("acos domain is [-1, 1]"))
            } else {
                Ok(from_radians_spec(m, NumV::Real(bf_acos(f, q)), q))
            }
        },
        UnaryFn::Atan => Ok(from_radians_spec(m, NumV::Real(bf_atan(to_real_spec(v, q), q)), q)),
        UnaryFn::Ln => {
            let f = to_real_spec(v, q);
            if real_is_negative(f) || real_is_zero(f) {
                Err(domain("ln domain is (0, ∞)"))
            } else {
                Ok(NumV::Real(bf_ln(f, q)))
            }
        },
        UnaryFn::Log => {
            let f = to_real_spec(v, q);
            if real_is_negative(f) || real_is_zero(f) {
                Err(domain("log domain is (0, ∞)"))
            } else {
                Ok(NumV::Real(bf_div(bf_log2(f, q), bf_log2(bf_from_i128(10i128, q), q), q)))
            }
        },
        UnaryFn::Exp => Ok(NumV::Real(bf_exp(to_real_spec(v, q), q))),
    }
}

/// The value of an expression under angle mode `m` at precision `p`;
/// sub-expressions are evaluated left to right and the first error wins.
pub open spec fn eval_spec(m: AngleMode, p: usize, e: ExprV) -> Result<NumV, EngineErrorV>
    decreases e,
{
    let q = p as int;
    match e {
        ExprV::Number(s) => match parse_decimal_spec(s) {
            Ok(v) => Ok(NumV::Rational(v)),
            Err(x) => Err(x),
        },
        ExprV::Pi => Ok(NumV::Real(bf_pi(q))),
        ExprV::Euler => Ok(NumV::Real(bf_exp(bf_from_i128(1i128, q), q))),
        ExprV::Negate(x) => match eval_spec(m, p, *x) {
            Ok(v) => Ok(num_neg(v)),
            Err(x) => Err(x),
        },
        ExprV::BinOp(l, op, r) => match *r {
            ExprV::Percent(inner) => match eval_spec(m, p, *l) {
                Err(x) => Err(x),
                Ok(a) => match eval_spec(m, p, *inner) {
                    Err(x) => Err(x),
                    Ok(b) => percent_values(op, a, b, q),
                },
            },
            _ => match eval_spec(m, p, *l) {
                Err(x) => Err(x),
                Ok(a) => match eval_spec(m, p, *r) {
                    Err(x) => Err(x),
                    Ok(b) => binop_values(op, a, b, q),
                },
            },
        },
        ExprV::Pow(b, x) => match eval_spec(m, p, *b) {
            Err(y) => Err(y),
            Ok(a) => match eval_spec(m, p, *x) {
                Err(y) => Err(y),
                Ok(c) => pow_values(a, c, q),
            },
        },
        ExprV::Factorial(x) => match eval_spec(m, p, *x) {
            Err(y) => Err(y),
            Ok(v) => factorial_value(v, q),
        },
        ExprV::Percent(x) => match eval_spec(m, p, *x) {
            Err(y) => Err(y),
            Ok(v) => num_div(v, hundred(), q),
        },
        ExprV::UnaryFn(f, x) => match eval_spec(m, p, *x) {
            Err(y) => Err(y),
            Ok(v) => fn_value(m, p, f, v),
        },
    }
}

/// Parse `src`, then evaluate it.
pub open spec fn eval_str_spec(m: AngleMode, p: usize, src: Seq<char>) -> Result<
    NumV,
    EngineErrorV,
> {
    match parse_spec(src) {
        Err(e) => Err(e),
        Ok(e) => eval_spec(m, p, e),
    }
}

// ---------------------------------------------------------------------------
// Small helpers
// ---------------------------------------------------------------------------

impl Number {
    /// The value is below zero (a real with a negative sign counts).
    pub fn is_negative_real(&self) -> (b: bool)
        ensures
            b == num_is_negative(self@),
    {
        match self {
            Number::Rational(r) => r.is_negative(),
            Number::Real(f) => f.is_negative(),
        }
    }
}

fn is_integer_bigfloat(f: &Real, prec: usize) -> (b: bool)
    ensures
        b == is_integer_real(f@, prec as int),
{
    if f.is_nan() || f.is_inf() {
        return false;
    }
    let floored = real_floor(f);
    let diff = real_sub(f, &floored, prec);
    diff.is_zero()
}

/// `|c|` at most `10^(−m)`, `m` a quarter of the precision but at least 12,
/// counts as a tangent pole (it covers the noise of `cos(π/2)`, well below
/// a legitimate `tan(89.999°)`). The threshold is the decimal `1e-m` read at
/// the working precision; no `f64` is involved, so it is the real nearest
/// `10^(−m)`, not the binary double nearest it.
fn cos_near_zero(c: &Real, prec: usize) -> (b: bool)
    ensures
        b == cos_near_zero_spec(c@, prec),
        !real_is_nan(c@) && !real_is_nan(bf_parse(pole_text(prec), prec as int)) ==> (b <==> (
        real_is_zero(c@) || real_order(real_abs_spec(c@), bf_parse(pole_text(prec), prec as int))
            <= 0)),
{
    if c.is_zero() {
        return true;
    }
    let magnitude = c.abs();
    let quarter: i32 = (prec / 4) as i32;
    let m: i32 = if quarter < 12 {
        12
    } else {
        quarter
    };
    let digits = collect_chars(i128_to_string(m as i128).as_str());
    let mut text: Vec<char> = Vec::new();
    text.push('1');
    text.push('e');
    text.push('-');
    push_range(&mut text, &digits, 0, digits.len());
    proof {
        assert(digits@.subrange(0, digits@.len() as int) =~= digits@);
        assert(text@ =~= pole_text(prec));
    }
    let thresh = real_parse(string_of(&text).as_str(), prec);
    magnitude.check_wf();
    thresh.check_wf();
    match real_compare(&magnitude, &thresh) {
        Some(n) => n <= 0,
        None => false,
    }
}

fn in_neg1_pos1(f: &Real, p: usize) -> (b: bool)
    ensures
        b == in_unit_range(f@, p as int),
        128 <= p < 0x3FFF_FFFF_7FFF_FFFF ==> (b <==> !real_is_nan(f@) && real_vs_int(f@, -1) >= 0
            && real_vs_int(f@, 1) <= 0),
{
    let pos1 = real_from_i128(1, p);
    let neg1 = real_from_i128(-1, p);
    f.check_wf();
    pos1.check_wf();
    neg1.check_wf();
    proof {
        if 128 <= p < 0x3FFF_FFFF_7FFF_FFFF && !real_is_nan(f@) {
            lemma_order_with_int(f@, neg1@, -1);
            lemma_order_with_int(f@, pos1@, 1);
        }
    }
    let above = match real_compare(f, &neg1) {
        Some(n) => n >= 0,
        None => false,
    };
    let below = match real_compare(f, &pos1) {
        Some(n) => n <= 0,
        None => false,
    };
    above && below
}

fn exp_sign(exp: &Number) -> (s: ExpSign)
    ensures
        s == exp_sign_spec(exp@),
{
    match exp {
        Number::Rational(r) => {
            if r.is_zero() {
                ExpSign::Zero
            } else if !r.is_negative() {
                ExpSign::Positive
            } else {
                ExpSign::Negative
            }
        },
        Number::Real(f) => {
            if f.is_nan() || f.is_inf() {
                ExpSign::Unknown
            } else if f.is_zero() {
                ExpSign::Zero
            } else if f.is_negative() {
                ExpSign::Negative
            } else {
                ExpSign::Positive
            }
        },
    }
}

/// An integral real as an `i64`: its decimal display read back exactly.
fn real_to_i64(f: &Real) -> (r: Result<i64, EngineError>)
    ensures
        match real_i64_spec(f@) {
            Ok(k) => r == Ok::<i64, EngineError>(k),
            Err(e) => r matches Err(x) && x@ == e,
        },
{
    let s = real_to_string(f);
    match Number::parse_decimal(s.as_str()) {
        Ok(Number::Rational(q)) => match q.try_i128() {
            Some(k) => {
                if -0x8000_0000_0000_0000 <= k && k <= 0x7fff_ffff_ffff_ffff {
                    Ok(k as i64)
                } else {
                    Err(EngineError::Overflow)
                }
            },
            None => Err(EngineError::Overflow),
        },
        _ => Err(EngineError::Overflow),
    }
}

// ---------------------------------------------------------------------------
// Evaluator
// ---------------------------------------------------------------------------

impl Evaluator {
    pub fn new(angle_mode: AngleMode) -> (e: Self)
        ensures
            e.angle_mode == angle_mode,
            e.precision == DEFAULT_PREC,
    {
        Evaluator { angle_mode, precision: DEFAULT_PREC }
    }

    /// Evaluate a pre-parsed expression.
    pub fn eval(&self, expr: &Expr) -> (r: Result<Number, EngineError>)
        ensures
            outcome(r, eval_spec(self.angle_mode, self.precision, expr@)),
            // asin and acos of a value fail exactly when it is NaN or outside [−1, 1]
            match expr@ {
                ExprV::UnaryFn(f, x) => (f == UnaryFn::Asin || f == UnaryFn::Acos) && 128
                    <= self.precision < 0x3FFF_FFFF_7FFF_FFFF ==> match eval_spec(
                    self.angle_mode,
                    self.precision,
                    *x,
                ) {
                    Ok(v) => {
                        let g = to_real_spec(v, self.precision as int);
                        r is Err <==> (real_is_nan(g) || real_vs_int(g, -1) < 0 || real_vs_int(g, 1)
                            > 0)
                    },
                    Err(_) => r is Err,
                },
                _ => true,
            },
        decreases expr_size(expr@), 1nat,
    {
        match expr {
            Expr::Number(s) => Number::parse_decimal(s.as_str()),
            Expr::Pi => Ok(Number::Real(self.pi())),
            Expr::Euler => Ok(Number::Real(self.euler_e())),
            Expr::Negate(e) => Ok(self.eval(e)?.neg()),
            Expr::BinOp(l, op, r) => self.eval_binop(l, *op, r),
            Expr::Pow(base, exp) => self.eval_pow(base, exp),
            Expr::Factorial(e) => self.eval_factorial(e),
            Expr::Percent(e) => {
                // Bare / postfix percent: x% = x / 100
                let v = self.eval(e)?;
                v.div(Number::from_i64(100), self.precision)
            },
            Expr::UnaryFn(func, arg) => self.eval_fn(*func, arg),
        }
    }

    /// Binary operators, with the phone-calculator percent forms.
    fn eval_binop(&self, l: &Expr, op: BinOp, r: &Expr) -> (res: Result<Number, EngineError>)
        ensures
            outcome(
                res,
                eval_spec(
                    self.angle_mode,
                    self.precision,
                    ExprV::BinOp(Box::new(l@), op, Box::new(r@)),
                ),
            ),
        decreases expr_size(l@) + expr_size(r@) + 1, 0nat,
    {
        if let Expr::Percent(inner) = r {
            let base = self.eval(l)?;
            let pct = self.eval(inner)?;  // the number before `%`
            let hundred = Number::from_i64(100);
            let fraction = pct.div(hundred, self.precision)?;
            return match op {
                BinOp::Add => {
                    // base + base*(pct/100)
                    let delta = base.duplicate().mul(fraction, self.precision);
                    Ok(base.add(delta, self.precision))
                },
                BinOp::Sub => {
                    let delta = base.duplicate().mul(fraction, self.precision);
                    Ok(base.sub(delta, self.precision))
                },
                BinOp::Mul => Ok(base.mul(fraction, self.precision)),
                BinOp::Div => base.div(fraction, self.precision),
            };
        }
        let lv = self.eval(l)?;
        let rv = self.eval(r)?;
        match op {
            BinOp::Add => Ok(lv.add(rv, self.precision)),
            BinOp::Sub => Ok(lv.sub(rv, self.precision)),
            BinOp::Mul => Ok(lv.mul(rv, self.precision)),
            BinOp::Div => lv.div(rv, self.precision),
        }
    }

    /// Parse `src` and evaluate it.
    pub fn eval_str(&self, src: &str) -> (r: Result<Number, EngineError>)
        ensures
            outcome(r, eval_str_spec(self.angle_mode, self.precision, src@)),
    {
        let expr = parse(src)?;
        self.eval(&expr)
    }

    fn pi(&self) -> (f: Real)
        ensures
            f@ == bf_pi(self.precision as int),
    {
        real_pi(self.precision)
    }

    fn euler_e(&self) -> (f: Real)
        ensures
            f@ == bf_exp(bf_from_i128(1i128, self.precision as int), self.precision as int),
    {
        let one = real_from_i128(1, self.precision);
        real_exp(&one, self.precision)
    }
}

impl Evaluator {
    // --- power -----------------------------------------------------------

    fn eval_pow(&self, base_expr: &Expr, exp_expr: &Expr) -> (r: Result<Number, EngineError>)
        ensures
            outcome(
                r,
                eval_spec(
                    self.angle_mode,
                    self.precision,
                    ExprV::Pow(Box::new(base_expr@), Box::new(exp_expr@)),
                ),
            ),
        decreases expr_size(base_expr@) + expr_size(exp_expr@) + 1, 0nat,
    {
        let base = self.eval(base_expr)?;
        let exp = self.eval(exp_expr)?;
        let p = self.precision;

        // 0^e: positive → 0, zero → 1 (convention), negative → division by zero.
        if base.is_zero() {
            return match exp_sign(&exp) {
                ExpSign::Positive => Ok(Number::zero()),
                ExpSign::Zero => Ok(Number::one()),
                ExpSign::Negative => Err(EngineError::DivisionByZero),
                ExpSign::Unknown => Err(EngineError::Domain("undefined power of zero")),
            };
        }
        // Integer exponent fast path (stays rational).
        if let Number::Rational(r) = &exp {
            if let Some(n) = r.try_i64() {
                if let Some(result) = base.pow_int(n) {
                    return Ok(result);
                }
            }
        }
        let base_f = base.to_real(p);
        let exp_f = exp.to_real(p);

        // Negative base: only defined for integer exponents or rational
        // exponents with an odd denominator (a real odd root exists).
        if base_f.is_negative() {
            return self.eval_pow_negative_base(base_f, &exp, exp_f, p);
        }
        let result = match &exp {
            Number::Rational(r) => {
                if r.is_one_half() {
                    // x^(1/2) → sqrt(x)
                    real_sqrt(&base_f, p)
                } else if r.is_integer() {
                    // Integer exponent that did not fit i64: general power.
                    real_pow(&base_f, &exp_f, p)
                } else {
                    // General rational exponent: exp(e · ln(base)).
                    let ln_base = real_ln(&base_f, p);
                    let product = real_mul(&exp_f, &ln_base, p);
                    real_exp(&product, p)
                }
            },
            Number::Real(_) => {
                let ln_base = real_ln(&base_f, p);
                let product = real_mul(&exp_f, &ln_base, p);
                real_exp(&product, p)
            },
        };
        Ok(Number::Real(result))
    }

    /// `base < 0` with an exponent that is not a small integer.
    fn eval_pow_negative_base(&self, base_f: Real, exp: &Number, exp_f: Real, p: usize) -> (r:
        Result<Number, EngineError>)
        ensures
            outcome(r, pow_negative_base_spec(base_f@, exp@, exp_f@, p as int)),
    {
        let r = match exp {
            Number::Rational(r) => r,
            Number::Real(_) => {
                return Err(
                    EngineError::Domain("base must be non-negative for non-rational exponent"),
                );
            },
        };
        if is_integer_bigfloat(&exp_f, p) {
            // Large integer that missed the i64 fast path.
            return Ok(Number::Real(real_pow(&base_f, &exp_f, p)));
        }
        // Reduced a/b: a real b-th root of a negative number exists iff b is odd.
        if !r.denominator_is_odd() {
            return Err(EngineError::Domain("base must be non-negative for even-root exponent"));
        }
        let abs_base = base_f.abs();
        let abs_exp = exp_f.abs();
        // |base|^|exp| via exp(|exp| · ln|base|)
        let ln_abs = real_ln(&abs_base, p);
        let product = real_mul(&abs_exp, &ln_abs, p);
        let mut mag = real_exp(&product, p);
        // x^(a/b) for x < 0, b odd: negative iff a is odd.
        if r.numerator_is_odd() {
            mag = mag.neg();
        }
        // Negative exponent → reciprocal (sign already applied).
        if r.is_negative() {
            if mag.is_zero() {
                return Err(EngineError::DivisionByZero);
            }
            let one = real_from_i128(1, p);
            mag = real_div(&one, &mag, p);
        }
        Ok(Number::Real(mag))
    }

    // --- factorial -------------------------------------------------------

    fn eval_factorial(&self, e: &Expr) -> (r: Result<Number, EngineError>)
        ensures
            outcome(
                r,
                eval_spec(self.angle_mode, self.precision, ExprV::Factorial(Box::new(e@))),
            ),
        decreases expr_size(e@) + 1, 0nat,
    {
        let n = self.eval(e)?;
        let n_i64: i64 = match &n {
            Number::Rational(r) => match r.try_i64() {
                Some(k) => k,
                None => {
                    return Err(EngineError::Domain("factorial requires a non-negative integer"));
                },
            },
            Number::Real(f) => {
                if !is_integer_bigfloat(f, self.precision) {
                    return Err(EngineError::Domain("factorial requires a non-negative integer"));
                }
                real_to_i64(f)?
            },
        };
        if n_i64 < 0 {
            return Err(EngineError::Domain("factorial requires a non-negative integer"));
        }
        if n_i64 > 10_000 {
            return Err(EngineError::Overflow);
        }
        // Iterative factorial, exact.
        let top: u64 = n_i64 as u64;
        let mut acc = rat_from_i64(1);
        let mut i: u64 = 2;
        while i <= top
            invariant
                2 <= i <= top + 1 || (i == 2 && top < 2),
                top <= 10_000,
                acc@ == (factorial((i - 1) as nat) as int, 1int),
            decreases top + 1 - i,
        {
            let factor = rat_from_i64(i as i64);
            proof {
                lemma_mul_integers(factorial((i - 1) as nat) as int, i as int);
                assert(factorial(i as nat) == i * factorial((i - 1) as nat));
                assert((factorial((i - 1) as nat) as int) * (i as int) == (i as int) * (factorial(
                    (i - 1) as nat,
                ) as int)) by (nonlinear_arith);
            }
            acc = rat_mul(&acc, &factor);
            i = i + 1;
        }
        proof {
            assert(factorial(top as nat) == factorial((i - 1) as nat));
        }
        Ok(Number::Rational(acc))
    }

    // --- transcendentals -------------------------------------------------

    fn eval_fn(&self, func: UnaryFn, arg: &Expr) -> (r: Result<Number, EngineError>)
        ensures
            outcome(
                r,
                eval_spec(self.angle_mode, self.precision, ExprV::UnaryFn(func, Box::new(arg@))),
            ),
            // asin and acos fail exactly outside [−1, 1]
            (func == UnaryFn::Asin || func == UnaryFn::Acos) && 128 <= self.precision
                < 0x3FFF_FFFF_7FFF_FFFF ==> match eval_spec(self.angle_mode, self.precision, arg@) {
                Ok(v) => {
                    let g = to_real_spec(v, self.precision as int);
                    r is Err <==> (real_is_nan(g) || real_vs_int(g, -1) < 0 || real_vs_int(g, 1) > 0)
                },
                Err(_) => r is Err,
            },
        decreases expr_size(arg@) + 1, 0nat,
    {
        let v = self.eval(arg)?;
        let p = self.precision;
        match func {
            UnaryFn::Sqrt => {
                if v.is_negative_real() {
                    return Err(EngineError::Domain("sqrt of negative number"));
                }
                let f = v.to_real(p);
                Ok(Number::Real(real_sqrt(&f, p)))
            },
            UnaryFn::Abs => Ok(
                match v {
                    Number::Rational(r) => Number::Rational(rat_abs(&r)),
                    Number::Real(f) => Number::Real(f.abs()),
                },
            ),
            UnaryFn::Sin => {
                let angle = self.to_radians(v, p);
                Ok(Number::Real(real_sin(&angle, p)))
            },
            UnaryFn::Cos => {
                let angle = self.to_radians(v, p);
                Ok(Number::Real(real_cos(&angle, p)))
            },
            UnaryFn::Tan => {
                let angle = self.to_radians(v, p);
                let s = real_sin(&angle, p);
                let c = real_cos(&angle, p);
                // Near odd multiples of π/2 the cosine is tiny noise rather
                // than exactly zero: treat it as a pole.
                if cos_near_zero(&c, p) {
                    return Err(EngineError::Domain("tan undefined at this angle"));
                }
                Ok(Number::Real(real_div(&s, &c, p)))
            },
            UnaryFn::Asin => {
                let f = v.to_real(p);
                if !in_neg1_pos1(&f, p) {
                    return Err(EngineError::Domain("asin domain is [-1, 1]"));
                }
                Ok(self.from_radians(Number::Real(real_asin(&f, p)), p))
            },
            UnaryFn::Acos => {
                let f = v.to_real(p);
                if !in_neg1_pos1(&f, p) {
                    return Err(EngineError::Domain("acos domain is [-1, 1]"));
                }
                Ok(self.from_radians(Number::Real(real_acos(&f, p)), p))
            },
            UnaryFn::Atan => {
                let f = v.to_real(p);
                Ok(self.from_radians(Number::Real(real_atan(&f, p)), p))
            },
            UnaryFn::Ln => {
                let f = v.to_real(p);
                if f.is_negative() || f.is_zero() {
                    return Err(EngineError::Domain("ln domain is (0, ∞)"));
                }
                Ok(Number::Real(real_ln(&f, p)))
            },
            UnaryFn::Log => {
                let f = v.to_real(p);
                if f.is_negative() || f.is_zero() {
                    return Err(EngineError::Domain("log domain is (0, ∞)"));
                }
                let r = real_log2(&f, p);
                // log₁₀(x) = log₂(x) / log₂(10)
                let log2_10 = real_log2(&real_from_i128(10, p), p);
                Ok(Number::Real(real_div(&r, &log2_10, p)))
            },
            UnaryFn::Exp => {
                let f = v.to_real(p);
                Ok(Number::Real(real_exp(&f, p)))
            },
        }
    }

    // --- angle helpers ---------------------------------------------------

    /// `v` in radians (degrees are scaled by π/180).
    fn to_radians(&self, v: Number, prec: usize) -> (f: Real)
        requires
            prec == self.precision,
        ensures
            f@ == to_radians_spec(self.angle_mode, v@, prec as int),
    {
        let f = v.to_real(prec);
        if self.angle_mode == AngleMode::Radians {
            return f;
        }
        // degrees · π / 180
        let pi = self.pi();
        let scale = real_div(&pi, &real_from_i128(180, prec), prec);
        real_mul(&f, &scale, prec)
    }

    /// A radian result in the evaluator's angle unit.
    fn from_radians(&self, v: Number, prec: usize) -> (n: Number)
        requires
            prec == self.precision,
        ensures
            n@ == from_radians_spec(self.angle_mode, v@, prec as int),
    {
        if self.angle_mode == AngleMode::Radians {
            return v;
        }
        let f = v.to_real(prec);
        let pi = self.pi();
        let scale = real_div(&real_from_i128(180, prec), &pi, prec);
        Number::Real(real_mul(&f, &scale, prec))
    }
}

/// `a/1 · b/1 = ab/1`.
#[verifier::spinoff_prover]
proof fn lemma_mul_integers(a: int, b: int)
    ensures
        crate::rational::rat_mul_spec((a, 1), (b, 1)) == (a * b, 1int),
{
    let p = a * b;
    let n = abs(p);
    assert(abs(1int) == 1);
    assert(n % 1 == 0);
    assert(crate::rational::gcd(1, 0) == 1);
    assert(crate::rational::gcd(n, 1) == crate::rational::gcd(1, n % 1));
    assert(crate::rational::gcd(n, 1) == 1);
    assert(p / 1 == p);
    assert(1int / 1 == 1);
    assert(crate::rational::canon(p, 1) == (p, 1int));
    assert(1int * 1int == 1);
}

} // verus!
