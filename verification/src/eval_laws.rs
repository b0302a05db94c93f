//! Properties of parsing and evaluation that hold for all inputs: how parse
//! errors arise, the domains of the unary functions, exact integer powers
//! and exact factorials.
use vstd::prelude::*;
use vstd::arithmetic::power::pow;
use crate::error::EngineErrorV;
use crate::lexer::{TokenV, tokenize_spec};
use crate::parser::{ExprV, UnaryFn, parse_spec, parse_tokens, p_add, span_start, token_pairs};
use crate::number::{NumV, num_is_zero, to_real_spec};
use crate::rational::{abs, rat_pow_spec, rat_div_spec};
use crate::fraction::{canonical, same_value, lemma_canon};
use crate::bigfloat::{real_is_negative, real_is_zero};
use crate::eval::{
    AngleMode, eval_spec, factorial, factorial_domain, num_is_negative, in_unit_range,
    cos_near_zero_spec, to_radians_spec,
};

verus! {

/// How parsing fails: a lexing error comes first and unchanged; otherwise
/// the tokens, with their starting byte offsets, are parsed.
pub proof fn law_parse_lexes_first(src: Seq<char>)
    ensures
        tokenize_spec(src) matches Err(e) ==> parse_spec(src) == Err::<ExprV, EngineErrorV>(e),
        tokenize_spec(src) matches Ok(ts) ==> parse_spec(src) == parse_tokens(token_pairs(ts)),
{
}

/// How parsing a token sequence fails: no tokens is an unexpected end of
/// input; a token left over after a complete expression is reported at its
/// byte offset.
pub proof fn law_parse_leftover(t: Seq<(TokenV, int)>)
    ensures
        t.len() == 0 ==> parse_tokens(t) == Err::<ExprV, EngineErrorV>(EngineErrorV::UnexpectedEof),
        t.len() > 0 ==> match p_add(t, 0) {
            Ok((e, q)) => if q < t.len() {
                parse_tokens(t) == Err::<ExprV, EngineErrorV>(
                    EngineErrorV::UnexpectedToken { pos: span_start(t, q) },
                )
            } else {
                parse_tokens(t) == Ok::<ExprV, EngineErrorV>(e)
            },
            Err(x) => parse_tokens(t) == Err::<ExprV, EngineErrorV>(x),
        },
{
}

/// The unary functions' domains: an argument's error passes through
/// unchanged; `√` fails exactly on a negative value; `ln` and `log` exactly
/// on a value that is negative or zero; `asin` and `acos` exactly outside
/// `[−1, 1]`; `tan` exactly where the cosine counts as zero; `sin`, `cos`,
/// `atan`, `exp` and `abs` never fail.
pub proof fn law_function_domains(m: AngleMode, p: usize, f: UnaryFn, a: ExprV)
    ensures
        eval_spec(m, p, a) matches Err(x) ==> eval_spec(m, p, ExprV::UnaryFn(f, Box::new(a)))
            == Err::<NumV, EngineErrorV>(x),
        eval_spec(m, p, a) matches Ok(v) ==> {
            let g = to_real_spec(v, p as int);
            let r = eval_spec(m, p, ExprV::UnaryFn(f, Box::new(a)));
            &&& f == UnaryFn::Sqrt ==> (r is Err <==> num_is_negative(v))
            &&& (f == UnaryFn::Ln || f == UnaryFn::Log) ==> (r is Err <==> (real_is_negative(g)
                || real_is_zero(g)))
            &&& (f == UnaryFn::Asin || f == UnaryFn::Acos) ==> (r is Err <==> !in_unit_range(
                g,
                p as int,
            ))
            &&& f == UnaryFn::Tan ==> (r is Err <==> cos_near_zero_spec(
                crate::bigfloat::bf_cos(to_radians_spec(m, v, p as int), p as int),
                p,
            ))
            &&& (f == UnaryFn::Sin || f == UnaryFn::Cos || f == UnaryFn::Atan || f == UnaryFn::Exp
                || f == UnaryFn::Abs) ==> r is Ok
            &&& r matches Err(e) ==> e is Domain
        },
{
}

/// The exact factorial: an argument's error passes through; an integer
/// `0 ≤ n ≤ 10000` gives the rational `n!`; a larger integer up to
/// `i64::MAX` overflows; a negative value, a non-integer, or an integer
/// beyond `i64::MAX` is a domain error.
pub proof fn law_factorial(m: AngleMode, p: usize, x: ExprV)
    ensures
        eval_spec(m, p, x) matches Err(e) ==> eval_spec(m, p, ExprV::Factorial(Box::new(x)))
            == Err::<NumV, EngineErrorV>(e),
        eval_spec(m, p, x) matches Ok(NumV::Rational(r)) ==> {
            let res = eval_spec(m, p, ExprV::Factorial(Box::new(x)));
            &&& (r.1 == 1 && 0 <= r.0 <= 10000) ==> res == Ok::<NumV, EngineErrorV>(
                NumV::Rational((factorial(r.0 as nat) as int, 1)),
            )
            &&& (r.1 == 1 && 10000 < r.0 <= i64::MAX) ==> res == Err::<NumV, EngineErrorV>(
                EngineErrorV::Overflow,
            )
            &&& (r.0 < 0 || r.1 != 1 || r.0 > i64::MAX) ==> res == Err::<NumV, EngineErrorV>(
                factorial_domain(),
            )
        },
{
}

/// `0^n = 0` for `n > 0` (n a natural).
proof fn lemma_zero_pow(n: nat)
    requires
        n > 0,
    ensures
        pow(0, n) == 0,
{
    reveal(pow);
}

/// An integer power of a rational stays an exact rational: when `b`
/// evaluates to `q` (in lowest terms) and `x` to an integer `n` whose
/// magnitude fits an `i64`, `b^x` is the rational `qⁿ` in lowest terms
/// (for `n < 0`, the reciprocal of `q^|n|`; a zero base with `n < 0` is a
/// division by zero).
pub proof fn law_integer_power(m: AngleMode, p: usize, b: ExprV, x: ExprV, q: (int, int), n: int)
    requires
        canonical(q),
        abs(n) <= i64::MAX,
        !(q.0 == 0 && n < 0),
        eval_spec(m, p, b) == Ok::<NumV, EngineErrorV>(NumV::Rational(q)),
        eval_spec(m, p, x) == Ok::<NumV, EngineErrorV>(NumV::Rational((n, 1))),
    ensures
        eval_spec(m, p, ExprV::Pow(Box::new(b), Box::new(x))) matches Ok(NumV::Rational(r))
            && canonical(r) && (n >= 0 ==> same_value(r, (pow(q.0, n as nat), pow(q.1, n as nat))))
            && (n < 0 ==> same_value(r, (pow(q.1, (-n) as nat), pow(q.0, (-n) as nat)))),
{
    let res = eval_spec(m, p, ExprV::Pow(Box::new(b), Box::new(x)));
    vstd::arithmetic::power::lemma_pow_positive(q.1, if n >= 0 { n as nat } else { (-n) as nat });
    if q.0 == 0 {
        // A zero base: 0^0 = 1, 0^n = 0.
        assert(num_is_zero(NumV::Rational(q)));
        assert(canonical((1int, 1int))) by {
            reveal_with_fuel(crate::rational::gcd, 2);
        }
        assert(canonical((0int, 1int))) by {
            reveal_with_fuel(crate::rational::gcd, 2);
        }
        if n == 0 {
            reveal(pow);
            assert(pow(q.0, 0) == 1 && pow(q.1, 0) == 1);
        } else {
            lemma_zero_pow(n as nat);
        }
    } else if n >= 0 {
        let k = n as nat;
        lemma_canon(pow(q.0, k), pow(q.1, k));
        assert(res == Ok::<NumV, EngineErrorV>(NumV::Rational(rat_pow_spec(q, k))));
    } else {
        let k = (-n) as nat;
        let qn = rat_pow_spec(q, k);
        lemma_canon(pow(q.0, k), pow(q.1, k));
        crate::number::lemma_pow_nonzero(q, k);
        assert(1 * qn.0 != 0);
        lemma_canon(1 * qn.1, 1 * qn.0);
        let r = rat_div_spec((1, 1), qn);
        assert(res == Ok::<NumV, EngineErrorV>(NumV::Rational(r)));
        // r·qn.0 = qn.1·r.1 and qn.0·q1ᵏ = q0ᵏ·qn.1, so r·q0ᵏ = q1ᵏ·r.1.
        let a = pow(q.0, k);
        let c = pow(q.1, k);
        assert(r.0 * qn.0 == qn.1 * r.1) by (nonlinear_arith)
            requires
                r.0 * (1 * qn.0) == (1 * qn.1) * r.1,
        ;
        assert(qn.0 * c == a * qn.1);
        assert((r.0 * a) * qn.1 == (c * r.1) * qn.1) by (nonlinear_arith)
            requires
                r.0 * qn.0 == qn.1 * r.1,
                qn.0 * c == a * qn.1,
        ;
        assert(r.0 * a == c * r.1) by (nonlinear_arith)
            requires
                (r.0 * a) * qn.1 == (c * r.1) * qn.1,
                qn.1 > 0,
        ;
    }
}

} // verus!
