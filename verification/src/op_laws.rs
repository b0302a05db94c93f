//! How the arithmetic and the functions relate to one another: subtraction
//! adds the negation, a power of a positive base is `exp` of the exponent
//! times `ln` of the base, and in degree mode an inverse trigonometric
//! result is the radian result scaled by 180/π.
use vstd::prelude::*;
use crate::rational::{rat_add_spec, rat_sub_spec};
use crate::number::{NumV, num_add, num_sub, num_neg, num_is_zero, to_real_spec};
use crate::bigfloat::{real_neg_spec, real_is_negative, real_is_zero, bf_mul, bf_div, bf_from_i128, bf_pi};
use crate::parser::{BinOp, ExprV, UnaryFn, bin};
use crate::eval::{AngleMode, eval_spec};
use crate::error::EngineErrorV;

verus! {

/// Subtraction adds the negation: `a − b = a + (−b)`. On two rationals it
/// is exact; when either operand is real, `a − b` is `a` plus the real
/// `−b` (for a real `b`, plainly `a + (−b)`). The first operand stays first.
pub proof fn law_subtract_adds_negation(a: NumV, b: NumV, p: int)
    ensures
        (a is Rational && b is Rational) ==> num_sub(a, b, p) == num_add(a, num_neg(b), p),
        b is Real ==> num_sub(a, b, p) == num_add(a, num_neg(b), p),
        (a is Real || b is Real) ==> num_sub(a, b, p) == num_add(
            a,
            NumV::Real(real_neg_spec(to_real_spec(b, p))),
            p,
        ),
{
    match (a, b) {
        (NumV::Rational(x), NumV::Rational(y)) => {
            assert((-y.0) * x.1 == -(y.0 * x.1)) by (nonlinear_arith);
            assert(rat_sub_spec(x, y) == rat_add_spec(x, (-y.0, y.1)));
        },
        _ => {},
    }
}

/// A power of a positive base to a real exponent, or to a rational one that
/// is neither an integer nor ½, is `exp(x · ln b)`: `b^x` evaluates exactly
/// as `exp(x*ln(b))` does.
pub proof fn law_power_is_exp_of_log(m: AngleMode, p: usize, b: ExprV, x: ExprV)
    requires
        eval_spec(m, p, b) is Ok,
        eval_spec(m, p, x) is Ok,
        !num_is_zero(eval_spec(m, p, b)->Ok_0),
        !real_is_negative(to_real_spec(eval_spec(m, p, b)->Ok_0, p as int)),
        !real_is_zero(to_real_spec(eval_spec(m, p, b)->Ok_0, p as int)),
        match eval_spec(m, p, x)->Ok_0 {
            NumV::Real(_) => true,
            NumV::Rational(r) => r.1 != 1 && !(r.0 == 1 && r.1 == 2),
        },
    ensures
        eval_spec(m, p, ExprV::Pow(Box::new(b), Box::new(x))) == eval_spec(
            m,
            p,
            ExprV::UnaryFn(
                UnaryFn::Exp,
                Box::new(bin(x, BinOp::Mul, ExprV::UnaryFn(UnaryFn::Ln, Box::new(b)))),
            ),
        ),
{
    let vb = eval_spec(m, p, b)->Ok_0;
    let vx = eval_spec(m, p, x)->Ok_0;
    let q = p as int;
    let lnb = ExprV::UnaryFn(UnaryFn::Ln, Box::new(b));
    assert(eval_spec(m, p, lnb) == Ok::<NumV, EngineErrorV>(
        NumV::Real(crate::bigfloat::bf_ln(to_real_spec(vb, q), q)),
    ));
    let prod = bin(x, BinOp::Mul, lnb);
    assert(eval_spec(m, p, prod) == Ok::<NumV, EngineErrorV>(
        NumV::Real(
            bf_mul(to_real_spec(vx, q), crate::bigfloat::bf_ln(to_real_spec(vb, q), q), q),
        ),
    ));
    match vx {
        NumV::Rational(r) => {
            assert(crate::eval::rat_i64(r) is None);
            assert(crate::eval::int_exponent_power(vb, vx) is None);
        },
        NumV::Real(_) => {},
    }
}

/// The factor from radians to degrees, `180/π`, at precision `p`.
pub open spec fn degrees_per_radian(p: int) -> crate::bigfloat::RealV {
    bf_div(bf_from_i128(180i128, p), bf_pi(p), p)
}

/// In degree mode, `asin`, `acos` and `atan` give the radian result times
/// `180/π` (and fail exactly where they fail in radians), for an argument
/// that has the same value in both modes.
pub proof fn law_inverse_trig_in_degrees(p: usize, f: UnaryFn, a: ExprV)
    requires
        f == UnaryFn::Asin || f == UnaryFn::Acos || f == UnaryFn::Atan,
        eval_spec(AngleMode::Degrees, p, a) == eval_spec(AngleMode::Radians, p, a),
    ensures
        match eval_spec(AngleMode::Radians, p, ExprV::UnaryFn(f, Box::new(a))) {
            Ok(NumV::Real(g)) => eval_spec(AngleMode::Degrees, p, ExprV::UnaryFn(f, Box::new(a)))
                == Ok::<NumV, EngineErrorV>(
                NumV::Real(bf_mul(g, degrees_per_radian(p as int), p as int)),
            ),
            Ok(NumV::Rational(_)) => false,
            Err(e) => eval_spec(AngleMode::Degrees, p, ExprV::UnaryFn(f, Box::new(a))) == Err::<
                NumV,
                EngineErrorV,
            >(e),
        },
{
}

} // verus!
