//! Properties of the arithmetic and of evaluation that hold for all inputs.
use vstd::prelude::*;
use crate::rational::{rat_add_spec, rat_sub_spec, rat_mul_spec, rat_div_spec, rat_pow_spec, canon};
use crate::fraction::{canonical, same_value, lemma_canon, lemma_canonical_unique};
use crate::number::{
    NumV, num_add, num_sub, num_mul, num_div, num_pow_int, parse_decimal_spec, exp_mark_from,
    ten_pow,
};
use crate::text::index_from;
use crate::rational::{gcd, digits_val, all_digits};
use vstd::arithmetic::power::pow;
use crate::error::EngineErrorV;
use crate::parser::{
    ExprV, BinOp, parse_tokens, span_start, p_add, p_mul, p_unary, p_pow, p_postfix, p_atom,
    p_postfix_rest, p_mul_rest, p_add_rest,
};
use crate::lexer::TokenV;
use crate::eval::{AngleMode, eval_spec, percent_values, pow_values, factorial_value, factorial};
use crate::display::decimal_string_spec;
use crate::rational::int_dec;
use crate::units::{CategoryV, Leg, route_spec, find_rule, find_from};

verus! {

/// `x·k = y·k` with `k ≠ 0` gives `x = y`.
proof fn lemma_cancel(x: int, y: int, k: int)
    requires
        k != 0,
        x * k == y * k,
    ensures
        x == y,
{
    assert(x == y) by (nonlinear_arith)
        requires
            k != 0,
            x * k == y * k,
    ;
}

/// Sums, differences, products and quotients of fractions in lowest terms
/// are exact: each is in lowest terms and has the value of the exact
/// result.
#[verifier::spinoff_prover]
pub proof fn law_rational_ops_exact(a: (int, int), b: (int, int))
    requires
        canonical(a),
        canonical(b),
    ensures
        canonical(rat_add_spec(a, b)),
        same_value(rat_add_spec(a, b), (a.0 * b.1 + b.0 * a.1, a.1 * b.1)),
        canonical(rat_sub_spec(a, b)),
        same_value(rat_sub_spec(a, b), (a.0 * b.1 - b.0 * a.1, a.1 * b.1)),
        canonical(rat_mul_spec(a, b)),
        same_value(rat_mul_spec(a, b), (a.0 * b.0, a.1 * b.1)),
        b.0 != 0 ==> canonical(rat_div_spec(a, b)),
        b.0 != 0 ==> same_value(rat_div_spec(a, b), (a.0 * b.1, a.1 * b.0)),
{
    assert(a.1 * b.1 > 0) by (nonlinear_arith)
        requires
            a.1 > 0,
            b.1 > 0,
    ;
    lemma_canon(a.0 * b.1 + b.0 * a.1, a.1 * b.1);
    lemma_canon(a.0 * b.1 - b.0 * a.1, a.1 * b.1);
    lemma_canon(a.0 * b.0, a.1 * b.1);
    if b.0 != 0 {
        assert(a.1 * b.0 != 0) by (nonlinear_arith)
            requires
                a.1 > 0,
                b.0 != 0,
        ;
        lemma_canon(a.0 * b.1, a.1 * b.0);
    }
}

/// Dividing by a nonzero rational and multiplying back gives the starting
/// rational exactly (`1/3 × 3 = 1`).
#[verifier::spinoff_prover]
pub proof fn law_divide_then_multiply(a: (int, int), b: (int, int))
    requires
        canonical(a),
        canonical(b),
        b.0 != 0,
    ensures
        rat_mul_spec(rat_div_spec(a, b), b) == a,
{
    let q = rat_div_spec(a, b);
    law_rational_ops_exact(a, b);
    law_rational_ops_exact(q, b);
    let r = rat_mul_spec(q, b);
    // q·(a1·b0) = a0·b1·q1 and r·(q1·b1) = q0·b0·r1, hence r·a1 = a0·r1.
    let e1 = q.0 * (a.1 * b.0);
    let e2 = r.0 * (q.1 * b.1);
    assert(e1 == (a.0 * b.1) * q.1);
    assert(e2 == (q.0 * b.0) * r.1);
    assert(r.0 * a.1 * (q.1 * b.1) == a.1 * e2) by (nonlinear_arith)
        requires
            e2 == r.0 * (q.1 * b.1),
    ;
    assert(a.1 * ((q.0 * b.0) * r.1) == r.1 * e1) by (nonlinear_arith)
        requires
            e1 == q.0 * (a.1 * b.0),
    ;
    assert(r.1 * ((a.0 * b.1) * q.1) == a.0 * r.1 * (q.1 * b.1)) by (nonlinear_arith);
    assert(r.0 * a.1 * (q.1 * b.1) == a.0 * r.1 * (q.1 * b.1));
    assert(q.1 * b.1 != 0) by (nonlinear_arith)
        requires
            q.1 > 0,
            b.1 > 0,
    ;
    lemma_cancel(r.0 * a.1, a.0 * r.1, q.1 * b.1);
    lemma_canonical_unique(r, a);
}

/// The value `b/100` of a percentage.
pub open spec fn fraction_of(b: (int, int)) -> (int, int) {
    rat_div_spec(b, (100, 1))
}

/// `a + a·f = a·(1 + f)` and `a − a·f = a·(1 − f)` on fractions in lowest
/// terms.
#[verifier::spinoff_prover]
proof fn lemma_scale_by_one_plus(a: (int, int), f: (int, int), add: bool)
    requires
        canonical(a),
        canonical(f),
    ensures
        add ==> rat_add_spec(a, rat_mul_spec(a, f)) == rat_mul_spec(a, rat_add_spec((1, 1), f)),
        !add ==> rat_sub_spec(a, rat_mul_spec(a, f)) == rat_mul_spec(a, rat_sub_spec((1, 1), f)),
{
    let m = rat_mul_spec(a, f);
    law_rational_ops_exact(a, f);
    assert(canonical((1int, 1int))) by {
        reveal_with_fuel(crate::rational::gcd, 2);
    }
    law_rational_ops_exact((1, 1), f);
    let s = if add {
        rat_add_spec((1, 1), f)
    } else {
        rat_sub_spec((1, 1), f)
    };
    let k: int = if add {
        f.1 + f.0
    } else {
        f.1 - f.0
    };
    assert(s.0 * f.1 == k * s.1) by (nonlinear_arith)
        requires
            s.0 * (1 * f.1) == (if add { 1 * f.1 + f.0 * 1 } else { 1 * f.1 - f.0 * 1 }) * s.1,
            k == (if add { f.1 + f.0 } else { f.1 - f.0 }),
    ;
    law_rational_ops_exact(a, m);
    law_rational_ops_exact(a, s);
    let l = if add {
        rat_add_spec(a, m)
    } else {
        rat_sub_spec(a, m)
    };
    let r = rat_mul_spec(a, s);
    // l·(a1·m1) = (a0·m1 ± m0·a1)·l1, with m0·(a1·f1) = a0·f0·m1:
    let big_p: int = if add {
        a.0 * m.1 + m.0 * a.1
    } else {
        a.0 * m.1 - m.0 * a.1
    };
    assert(l.0 * (a.1 * m.1) == big_p * l.1);
    assert(l.0 * a.1 * f.1 * m.1 == (l.0 * (a.1 * m.1)) * f.1) by (nonlinear_arith);
    assert((l.0 * (a.1 * m.1)) * f.1 == (big_p * l.1) * f.1);
    assert(m.0 * a.1 * f.1 == a.0 * f.0 * m.1) by (nonlinear_arith)
        requires
            m.0 * (a.1 * f.1) == (a.0 * f.0) * m.1,
    ;
    if add {
        assert(big_p * f.1 == a.0 * m.1 * f.1 + m.0 * a.1 * f.1) by (nonlinear_arith)
            requires
                big_p == a.0 * m.1 + m.0 * a.1,
        ;
    } else {
        assert(big_p * f.1 == a.0 * m.1 * f.1 - m.0 * a.1 * f.1) by (nonlinear_arith)
            requires
                big_p == a.0 * m.1 - m.0 * a.1,
        ;
    }
    assert(big_p * f.1 == a.0 * k * m.1) by (nonlinear_arith)
        requires
            add ==> big_p * f.1 == a.0 * m.1 * f.1 + m.0 * a.1 * f.1,
            !add ==> big_p * f.1 == a.0 * m.1 * f.1 - m.0 * a.1 * f.1,
            m.0 * a.1 * f.1 == a.0 * f.0 * m.1,
            k == (if add { f.1 + f.0 } else { f.1 - f.0 }),
    ;
    assert((big_p * l.1) * f.1 == (big_p * f.1) * l.1) by (nonlinear_arith);
    assert(l.0 * a.1 * f.1 * m.1 == a.0 * k * l.1 * m.1) by (nonlinear_arith)
        requires
            l.0 * a.1 * f.1 * m.1 == (big_p * f.1) * l.1,
            big_p * f.1 == a.0 * k * m.1,
    ;
    lemma_cancel(l.0 * a.1 * f.1, a.0 * k * l.1, m.1);
    // r·(a1·s1) = a0·s0·r1, with s0·f1 = k·s1:
    assert(r.0 * a.1 * f.1 * s.1 == (r.0 * (a.1 * s.1)) * f.1) by (nonlinear_arith);
    assert(r.0 * (a.1 * s.1) == (a.0 * s.0) * r.1);
    assert((a.0 * s.0) * r.1 * f.1 == a.0 * r.1 * (s.0 * f.1)) by (nonlinear_arith);
    assert(a.0 * r.1 * (s.0 * f.1) == a.0 * r.1 * (k * s.1));
    assert(r.0 * a.1 * f.1 * s.1 == a.0 * k * r.1 * s.1) by (nonlinear_arith)
        requires
            r.0 * a.1 * f.1 * s.1 == (r.0 * (a.1 * s.1)) * f.1,
            r.0 * (a.1 * s.1) == (a.0 * s.0) * r.1,
            (a.0 * s.0) * r.1 * f.1 == a.0 * r.1 * (s.0 * f.1),
            a.0 * r.1 * (s.0 * f.1) == a.0 * r.1 * (k * s.1),
    ;
    lemma_cancel(r.0 * a.1 * f.1, a.0 * k * r.1, s.1);
    let x = l.0 * a.1 * f.1;
    let y = r.0 * a.1 * f.1;
    assert(l.0 * r.1 * (a.1 * f.1) == r.1 * x) by (nonlinear_arith)
        requires
            x == l.0 * a.1 * f.1,
    ;
    assert(r.0 * l.1 * (a.1 * f.1) == l.1 * y) by (nonlinear_arith)
        requires
            y == r.0 * a.1 * f.1,
    ;
    assert(r.1 * (a.0 * k * l.1) == l.1 * (a.0 * k * r.1)) by (nonlinear_arith);
    assert(l.0 * r.1 * (a.1 * f.1) == r.0 * l.1 * (a.1 * f.1));
    assert(a.1 * f.1 != 0) by (nonlinear_arith)
        requires
            a.1 > 0,
            f.1 > 0,
    ;
    lemma_cancel(l.0 * r.1, r.0 * l.1, a.1 * f.1);
    lemma_canonical_unique(l, r);
}

/// Phone-calculator percent on rationals: `a + b%` is `a·(1 + b/100)`,
/// `a − b%` is `a·(1 − b/100)`, `a × b%` is `a·(b/100)` and `a ÷ b%` is
/// `a ÷ (b/100)` (a division by zero when `b` is zero).
pub proof fn law_percent(a: (int, int), b: (int, int), p: int)
    requires
        canonical(a),
        canonical(b),
    ensures
        percent_values(BinOp::Add, NumV::Rational(a), NumV::Rational(b), p) == Ok::<
            NumV,
            EngineErrorV,
        >(NumV::Rational(rat_mul_spec(a, rat_add_spec((1, 1), fraction_of(b))))),
        percent_values(BinOp::Sub, NumV::Rational(a), NumV::Rational(b), p) == Ok::<
            NumV,
            EngineErrorV,
        >(NumV::Rational(rat_mul_spec(a, rat_sub_spec((1, 1), fraction_of(b))))),
        percent_values(BinOp::Mul, NumV::Rational(a), NumV::Rational(b), p) == Ok::<
            NumV,
            EngineErrorV,
        >(NumV::Rational(rat_mul_spec(a, fraction_of(b)))),
        b.0 == 0 ==> percent_values(BinOp::Div, NumV::Rational(a), NumV::Rational(b), p) == Err::<
            NumV,
            EngineErrorV,
        >(EngineErrorV::DivisionByZero),
        b.0 != 0 ==> percent_values(BinOp::Div, NumV::Rational(a), NumV::Rational(b), p) == Ok::<
            NumV,
            EngineErrorV,
        >(NumV::Rational(rat_div_spec(a, fraction_of(b)))),
{
    assert(canonical((100int, 1int))) by {
        reveal_with_fuel(crate::rational::gcd, 3);
    }
    law_rational_ops_exact(b, (100, 1));
    let f = fraction_of(b);
    assert(f.0 == 0 <==> b.0 == 0) by (nonlinear_arith)
        requires
            f.0 * (b.1 * 100) == (b.0 * 1) * f.1,
            f.1 > 0,
            b.1 > 0,
    ;
    lemma_scale_by_one_plus(a, f, true);
    lemma_scale_by_one_plus(a, f, false);
}

/// `(x ÷ y) × y` evaluates to `x` exactly when `x` and `y` evaluate to
/// rationals and `y` is not zero (also when `y` is a percentage, which both
/// operators read as the same fraction).
pub proof fn law_divide_then_multiply_expr(m: AngleMode, p: usize, x: ExprV, y: ExprV, a: (
    int,
    int,
), b: (int, int))
    requires
        canonical(a),
        canonical(b),
        b.0 != 0,
        eval_spec(m, p, x) == Ok::<NumV, EngineErrorV>(NumV::Rational(a)),
        eval_spec(m, p, y) == Ok::<NumV, EngineErrorV>(NumV::Rational(b)),
    ensures
        eval_spec(
            m,
            p,
            ExprV::BinOp(
                Box::new(ExprV::BinOp(Box::new(x), BinOp::Div, Box::new(y))),
                BinOp::Mul,
                Box::new(y),
            ),
        ) == Ok::<NumV, EngineErrorV>(NumV::Rational(a)),
{
    law_divide_then_multiply(a, b);
    law_rational_ops_exact(a, b);
    let q = rat_div_spec(a, b);
    let l = ExprV::BinOp(Box::new(x), BinOp::Div, Box::new(y));
    match y {
        ExprV::Percent(z) => {
            // `y` is `z%`: both operators read it as the fraction `z/100`,
            // which is `b`.
            let hundred = NumV::Rational((100, 1));
            match eval_spec(m, p, *z) {
                Ok(cv) => {
                    assert(num_div(cv, hundred, p as int) == Ok::<NumV, EngineErrorV>(
                        NumV::Rational(b),
                    ));
                    assert(cv is Rational);
                    assert(percent_values(BinOp::Div, NumV::Rational(a), cv, p as int) == Ok::<
                        NumV,
                        EngineErrorV,
                    >(NumV::Rational(q)));
                    assert(eval_spec(m, p, l) == Ok::<NumV, EngineErrorV>(NumV::Rational(q)));
                    assert(percent_values(BinOp::Mul, NumV::Rational(q), cv, p as int) == Ok::<
                        NumV,
                        EngineErrorV,
                    >(NumV::Rational(a)));
                },
                Err(_) => {},
            }
        },
        _ => {
            assert(eval_spec(m, p, l) == Ok::<NumV, EngineErrorV>(NumV::Rational(q)));
        },
    }
}

/// Percent forms on expressions that evaluate to rationals `a` and `b`:
/// `x + y%` is `a·(1 + b/100)`, `x − y%` is `a·(1 − b/100)`, `x × y%` is
/// `a·(b/100)`, and `x ÷ y%` is `a ÷ (b/100)`, a division by zero when `b`
/// is zero (`100 + 10%` is 110).
pub proof fn law_percent_expr(m: AngleMode, p: usize, x: ExprV, y: ExprV, a: (int, int), b: (
    int,
    int,
))
    requires
        canonical(a),
        canonical(b),
        eval_spec(m, p, x) == Ok::<NumV, EngineErrorV>(NumV::Rational(a)),
        eval_spec(m, p, y) == Ok::<NumV, EngineErrorV>(NumV::Rational(b)),
    ensures
        eval_spec(m, p, percent_expr(x, BinOp::Add, y)) == Ok::<NumV, EngineErrorV>(
            NumV::Rational(rat_mul_spec(a, rat_add_spec((1, 1), fraction_of(b)))),
        ),
        eval_spec(m, p, percent_expr(x, BinOp::Sub, y)) == Ok::<NumV, EngineErrorV>(
            NumV::Rational(rat_mul_spec(a, rat_sub_spec((1, 1), fraction_of(b)))),
        ),
        eval_spec(m, p, percent_expr(x, BinOp::Mul, y)) == Ok::<NumV, EngineErrorV>(
            NumV::Rational(rat_mul_spec(a, fraction_of(b))),
        ),
        b.0 == 0 ==> eval_spec(m, p, percent_expr(x, BinOp::Div, y)) == Err::<NumV, EngineErrorV>(
            EngineErrorV::DivisionByZero,
        ),
        b.0 != 0 ==> eval_spec(m, p, percent_expr(x, BinOp::Div, y)) == Ok::<NumV, EngineErrorV>(
            NumV::Rational(rat_div_spec(a, fraction_of(b))),
        ),
{
    law_percent(a, b, p as int);
}

/// `x op y%`.
pub open spec fn percent_expr(x: ExprV, op: BinOp, y: ExprV) -> ExprV {
    ExprV::BinOp(Box::new(x), op, Box::new(ExprV::Percent(Box::new(y))))
}

/// Percent forms chain left to right: `x + y% + z%` is
/// `a·(1 + b/100)·(1 + c/100)` (`1000 + 5% + 5%` is 1102.5).
pub proof fn law_percent_chain(m: AngleMode, p: usize, x: ExprV, y: ExprV, z: ExprV, a: (int, int), b: (
    int,
    int,
), c: (int, int))
    requires
        canonical(a),
        canonical(b),
        canonical(c),
        eval_spec(m, p, x) == Ok::<NumV, EngineErrorV>(NumV::Rational(a)),
        eval_spec(m, p, y) == Ok::<NumV, EngineErrorV>(NumV::Rational(b)),
        eval_spec(m, p, z) == Ok::<NumV, EngineErrorV>(NumV::Rational(c)),
    ensures
        eval_spec(m, p, percent_expr(percent_expr(x, BinOp::Add, y), BinOp::Add, z)) == Ok::<
            NumV,
            EngineErrorV,
        >(
            NumV::Rational(
                rat_mul_spec(
                    rat_mul_spec(a, rat_add_spec((1, 1), fraction_of(b))),
                    rat_add_spec((1, 1), fraction_of(c)),
                ),
            ),
        ),
{
    law_percent_expr(m, p, x, y, a, b);
    let a1 = rat_mul_spec(a, rat_add_spec((1, 1), fraction_of(b)));
    // The intermediate result is in lowest terms.
    assert(canonical((100int, 1int))) by {
        reveal_with_fuel(crate::rational::gcd, 3);
    }
    assert(canonical((1int, 1int))) by {
        reveal_with_fuel(crate::rational::gcd, 2);
    }
    law_rational_ops_exact(b, (100, 1));
    law_rational_ops_exact((1, 1), fraction_of(b));
    law_rational_ops_exact(a, rat_add_spec((1, 1), fraction_of(b)));
    law_percent_expr(m, p, percent_expr(x, BinOp::Add, y), z, a1, c);
}

/// Zero to a positive power is 0, to the power 0 is 1, and to a negative
/// power is a division by zero.
pub proof fn law_power_of_zero(e: (int, int), p: int)
    ensures
        e.0 > 0 ==> pow_values(NumV::Rational((0, 1)), NumV::Rational(e), p) == Ok::<
            NumV,
            EngineErrorV,
        >(NumV::Rational((0, 1))),
        e.0 == 0 ==> pow_values(NumV::Rational((0, 1)), NumV::Rational(e), p) == Ok::<
            NumV,
            EngineErrorV,
        >(NumV::Rational((1, 1))),
        e.0 < 0 ==> pow_values(NumV::Rational((0, 1)), NumV::Rational(e), p) == Err::<
            NumV,
            EngineErrorV,
        >(EngineErrorV::DivisionByZero),
{
}

/// A negative integer power is the reciprocal of the positive one:
/// `x^(−n) × x^n = 1` for a nonzero rational `x`.
pub proof fn law_negative_power(x: (int, int), n: nat)
    requires
        canonical(x),
        x.0 != 0,
        n >= 1,
    ensures
        num_pow_int(NumV::Rational(x), -n) matches Some(NumV::Rational(q)) && rat_mul_spec(
            q,
            rat_pow_spec(x, n),
        ) == (1int, 1int),
{
    let xn = rat_pow_spec(x, n);
    crate::number::lemma_pow_nonzero(x, n);
    vstd::arithmetic::power::lemma_pow_positive(x.1, n);
    lemma_canon(vstd::arithmetic::power::pow(x.0, n), vstd::arithmetic::power::pow(x.1, n));
    assert(canonical((1int, 1int))) by {
        reveal_with_fuel(crate::rational::gcd, 2);
    }
    law_divide_then_multiply((1, 1), xn);
}

/// `n! = n · (n − 1)!` for `1 ≤ n ≤ 10000`, exactly.
pub proof fn law_factorial_step(n: int, p: int)
    requires
        1 <= n <= 10000,
    ensures
        factorial_value(NumV::Rational((n - 1, 1)), p) matches Ok(NumV::Rational(f))
            && factorial_value(NumV::Rational((n, 1)), p) == Ok::<NumV, EngineErrorV>(
            NumV::Rational((n * f.0, 1)),
        ),
{
    assert(factorial(n as nat) == n * factorial((n - 1) as nat) || n == 1);
    if n == 1 {
        assert(factorial(1) == 1);
        assert(factorial(0) == 1);
    }
}

/// Only the characters `'0'..='9'` (possibly none).
pub open spec fn digit_chars(s: Seq<char>) -> bool {
    forall|k: int| 0 <= k < s.len() ==> '0' <= #[trigger] s[k] <= '9'
}

proof fn lemma_gcd_one(n: nat)
    ensures
        gcd(n, 1) == 1,
{
    assert(n % 1 == 0);
    assert(gcd(1, 0) == 1);
    assert(gcd(n, 1) == gcd(1, n % 1));
}

proof fn lemma_no_exp_mark(s: Seq<char>, j: int)
    requires
        0 <= j,
        forall|k: int| 0 <= k < s.len() ==> #[trigger] s[k] != 'e' && s[k] != 'E',
    ensures
        exp_mark_from(s, j) is None,
    decreases s.len() - j,
{
    if j < s.len() {
        lemma_no_exp_mark(s, j + 1);
    }
}

proof fn lemma_first_index(s: Seq<char>, c: char, j: int, t: int)
    requires
        0 <= j <= t < s.len(),
        s[t] == c,
        forall|k: int| j <= k < t ==> #[trigger] s[k] != c,
    ensures
        index_from(s, c, j) == Some(t),
    decreases t - j,
{
    if j < t {
        lemma_first_index(s, c, j + 1, t);
    }
}

/// `10^k` as a fraction in lowest terms is `10^k / 1`.
pub(crate) proof fn lemma_ten_pow(k: nat)
    ensures
        ten_pow(k) == (pow(10, k), 1int),
        pow(10, k) > 0,
{
    vstd::arithmetic::power::lemma_pow_positive(10, k);
    vstd::arithmetic::power::lemma_pow1(1);
    lemma_pow_one(k);
    lemma_canon(pow(10, k), pow(1, k));
    lemma_gcd_one(pow(10, k) as nat);
    lemma_canonical_unique(ten_pow(k), (pow(10, k), 1int));
}

proof fn lemma_pow_one(k: nat)
    ensures
        pow(1, k) == 1,
    decreases k,
{
    reveal(pow);
    if k > 0 {
        lemma_pow_one((k - 1) as nat);
    }
}

/// A plain decimal literal `i.f` (digits, a point, digits, with at least one
/// digit) reads exactly: its value is the digits of `i` and `f` together
/// over `10^|f|`, in lowest terms. So `0.1`, `0.2` and `0.3` are exactly
/// 1/10, 1/5 and 3/10.
#[verifier::spinoff_prover]
pub proof fn law_decimal_literal_exact(i: Seq<char>, f: Seq<char>)
    requires
        digit_chars(i),
        digit_chars(f),
        i.len() + f.len() > 0,
    ensures
        parse_decimal_spec(i + seq!['.'] + f) matches Ok(r) && canonical(r) && same_value(
            r,
            (digits_val(i + f) as int, pow(10, f.len())),
        ),
{
    let s = i + seq!['.'] + f;
    assert forall|k: int| 0 <= k < s.len() implies #[trigger] s[k] != 'e' && s[k] != 'E' by {
        if k < i.len() {
            assert(s[k] == i[k]);
        } else if k > i.len() {
            assert(s[k] == f[k - i.len() - 1]);
        }
    }
    lemma_no_exp_mark(s, 0);
    assert forall|k: int| 0 <= k < i.len() implies #[trigger] s[k] != '.' by {
        assert(s[k] == i[k]);
    }
    lemma_first_index(s, '.', 0, i.len() as int);
    let d = i + f;
    assert(s.subrange(0, i.len() as int) + s.subrange(i.len() as int + 1, s.len() as int) =~= d);
    assert(all_digits(d)) by {
        assert forall|k: int| 0 <= k < d.len() implies '0' <= #[trigger] d[k] <= '9' by {
            if k < i.len() {
                assert(d[k] == i[k]);
            } else {
                assert(d[k] == f[k - i.len()]);
            }
        }
    }
    let v = digits_val(d) as int;
    lemma_gcd_one(digits_val(d));
    if f.len() > 0 {
        lemma_ten_pow(f.len());
        lemma_canon(v * 1, 1 * pow(10, f.len()));
        assert(same_value((v * 1, 1 * pow(10, f.len())), (v, pow(10, f.len()))));
    } else {
        reveal(pow);
        assert(pow(10, 0) == 1);
    }
}

/// A digit string without a point reads as its integer value.
pub proof fn law_integer_literal_exact(i: Seq<char>)
    requires
        digit_chars(i),
        i.len() > 0,
    ensures
        parse_decimal_spec(i) == Ok::<(int, int), EngineErrorV>((digits_val(i) as int, 1int)),
{
    assert forall|k: int| 0 <= k < i.len() implies #[trigger] i[k] != 'e' && i[k] != 'E' by {}
    lemma_no_exp_mark(i, 0);
    assert forall|k: int| 0 <= k < i.len() implies #[trigger] i[k] != '.' by {}
    assert(index_from(i, '.', 0) is None) by {
        lemma_no_dot(i, 0);
    }
}

proof fn lemma_no_dot(s: Seq<char>, j: int)
    requires
        0 <= j,
        forall|k: int| 0 <= k < s.len() ==> #[trigger] s[k] != '.',
    ensures
        index_from(s, '.', j) is None,
    decreases s.len() - j,
{
    if j < s.len() {
        lemma_no_dot(s, j + 1);
    }
}

/// Negating twice gives the value back: `--x` evaluates as `x` does.
pub proof fn law_double_negation(m: AngleMode, p: usize, x: ExprV)
    ensures
        eval_spec(m, p, ExprV::Negate(Box::new(ExprV::Negate(Box::new(x))))) == eval_spec(m, p, x),
{
    let inner = ExprV::Negate(Box::new(x));
    assert(eval_spec(m, p, inner) == match eval_spec(m, p, x) {
        Ok(v) => Ok(crate::number::num_neg(v)),
        Err(e) => Err(e),
    });
    match eval_spec(m, p, x) {
        Ok(v) => {
            match v {
                NumV::Rational(r) => {},
                NumV::Real(f) => {
                    assert(crate::bigfloat::real_neg_spec(crate::bigfloat::real_neg_spec(f)) =~= f);
                },
            }
        },
        Err(_) => {},
    }
}

/// An integer that fits an `i128` is shown exactly, with any number of
/// significant digits asked for.
pub proof fn law_integer_display(n: int, digits: usize)
    requires
        i128::MIN <= n <= i128::MAX,
    ensures
        decimal_string_spec(NumV::Rational((n, 1)), digits) == int_dec(n),
{
}

proof fn lemma_find_from_in_range(rules: Seq<crate::units::RuleV>, from: Seq<char>, to: Seq<char>, i: int)
    requires
        0 <= i,
    ensures
        find_from(rules, from, to, i) matches Some(k) ==> i <= k < rules.len() && rules[k].0 == from
            && rules[k].1 == to,
    decreases rules.len() - i,
{
    if i < rules.len() {
        lemma_find_from_in_range(rules, from, to, i + 1);
    }
}

/// Every leg of a route names a rule that the category holds; a direct
/// `(from, to)` rule, when held, is the whole route.
pub proof fn law_route_legs_valid(c: CategoryV, from: Seq<char>, to: Seq<char>)
    requires
        c.rules.len() <= usize::MAX,
    ensures
        route_spec(c, from, to) matches Ok(legs) ==> forall|k: int|
            0 <= k < legs.len() ==> match #[trigger] legs[k] {
                Leg::Apply(i) => i < c.rules.len(),
                Leg::Invert(i) => i < c.rules.len(),
            },
        find_rule(c.rules, from, to) matches Some(i) ==> route_spec(c, from, to) == Ok::<
            Seq<Leg>,
            crate::units::UnitErrorV,
        >(seq![Leg::Apply(i as usize)]),
{
    lemma_find_from_in_range(c.rules, from, to, 0);
    lemma_find_from_in_range(c.rules, from, c.base, 0);
    lemma_find_from_in_range(c.rules, c.base, from, 0);
    lemma_find_from_in_range(c.rules, c.base, to, 0);
    match route_spec(c, from, to) {
        Ok(legs) => {
            assert forall|k: int| 0 <= k < legs.len() implies match #[trigger] legs[k] {
                Leg::Apply(i) => i < c.rules.len(),
                Leg::Invert(i) => i < c.rules.len(),
            } by {
                match crate::units::to_base_spec(c, from) {
                    Ok(first) => {
                        if k < first.len() {
                        }
                    },
                    Err(_) => {},
                }
            }
        },
        Err(_) => {},
    }
}

/// Two number literals in a row do not multiply (`1..2` lexes as `1.` and
/// `.2`): a sequence that starts with two numbers is rejected at the second.
pub proof fn law_adjacent_numbers_rejected(t: Seq<(TokenV, int)>)
    requires
        t.len() >= 2,
        t[0].0 is Number,
        t[1].0 is Number,
    ensures
        parse_tokens(t) == Err::<ExprV, EngineErrorV>(
            EngineErrorV::UnexpectedToken { pos: span_start(t, 1) },
        ),
{
    let a = ExprV::Number(t[0].0->Number_0);
    assert(p_atom(t, 0) == Ok::<(ExprV, int), EngineErrorV>((a, 1)));
    assert(p_postfix_rest(t, a, 1) == Ok::<(ExprV, int), EngineErrorV>((a, 1)));
    assert(p_postfix(t, 0) == Ok::<(ExprV, int), EngineErrorV>((a, 1)));
    assert(p_pow(t, 0) == Ok::<(ExprV, int), EngineErrorV>((a, 1)));
    assert(p_unary(t, 0) == Ok::<(ExprV, int), EngineErrorV>((a, 1)));
    assert(p_mul_rest(t, a, 1) == Ok::<(ExprV, int), EngineErrorV>((a, 1)));
    assert(p_mul(t, 0) == Ok::<(ExprV, int), EngineErrorV>((a, 1)));
    assert(p_add_rest(t, a, 1) == Ok::<(ExprV, int), EngineErrorV>((a, 1)));
    assert(p_add(t, 0) == Ok::<(ExprV, int), EngineErrorV>((a, 1)));
}

/// The legacy repeating-decimal notation is refused: a literal with a point
/// directly followed by `(` (`0.(3)`) is an invalid number.
pub proof fn law_decimal_before_paren_rejected(t: Seq<(TokenV, int)>)
    requires
        t.len() >= 2,
        t[0].0 is Number,
        t[0].0->Number_0.contains('.'),
        t[1].0 == TokenV::LParen,
    ensures
        parse_tokens(t) == Err::<ExprV, EngineErrorV>(EngineErrorV::InvalidNumber(t[0].0->Number_0)),
{
    let a = ExprV::Number(t[0].0->Number_0);
    assert(p_atom(t, 0) == Ok::<(ExprV, int), EngineErrorV>((a, 1)));
    assert(p_postfix_rest(t, a, 1) == Ok::<(ExprV, int), EngineErrorV>((a, 1)));
    assert(p_postfix(t, 0) == Ok::<(ExprV, int), EngineErrorV>((a, 1)));
    assert(p_pow(t, 0) == Ok::<(ExprV, int), EngineErrorV>((a, 1)));
    assert(p_unary(t, 0) == Ok::<(ExprV, int), EngineErrorV>((a, 1)));
    assert(p_mul_rest(t, a, 1) == Err::<(ExprV, int), EngineErrorV>(
        EngineErrorV::InvalidNumber(t[0].0->Number_0),
    ));
}

} // verus!
