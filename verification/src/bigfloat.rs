//! Arbitrary-precision reals. A value is held as the plain parts of an
//! `astro_float::BigFloat` (mantissa words, significant bits, sign, exponent,
//! inexact flag) or as one of its special values; the arithmetic and the
//! transcendental functions are done by `astro_float`, rounding to nearest
//! even.
use vstd::prelude::*;
use astro_float::{BigFloat, Consts, Radix, RoundingMode, Sign};
use vstd::arithmetic::power2::pow2;
use crate::rational::limbs_val;

verus! {

#[derive(Debug, Clone, Copy, PartialEq, Eq, Structural)]
pub enum RealKind {
    Finite,
    NaN,
    PosInf,
    NegInf,
}

/// A `BigFloat` in plain parts.
#[derive(Debug, PartialEq)]
pub struct Real {
    kind: RealKind,
    words: Vec<u64>,
    bits: usize,
    neg: bool,
    exp: i32,
    inexact: bool,
}

/// Mathematical model of a [`Real`]: its parts as plain values.
pub struct RealV {
    pub kind: RealKind,
    pub words: Seq<u64>,
    pub bits: nat,
    pub neg: bool,
    pub exp: int,
    pub inexact: bool,
}

impl View for Real {
    type V = RealV;

    closed spec fn view(&self) -> RealV {
        RealV {
            kind: self.kind,
            words: self.words@,
            bits: self.bits as nat,
            neg: self.neg,
            exp: self.exp as int,
            inexact: self.inexact,
        }
    }
}

/// The number of binary digits of `x` (0 for 0).
pub open spec fn bit_length(x: nat) -> nat
    decreases x,
{
    if x == 0 {
        0
    } else {
        1 + bit_length(x / 2)
    }
}

/// Parts that `BigFloat::from_raw_parts` accepts: `bits` is the bit length
/// of the mantissa, a mantissa with leading zero bits (a subnormal) has the
/// least exponent, and the mantissa is not too long.
pub open spec fn real_wf(v: RealV) -> bool {
    v.kind == RealKind::Finite ==> {
        &&& v.bits == bit_length(limbs_val(v.words))
        &&& (0 < v.bits < 64 * v.words.len() ==> v.exp == i32::MIN)
        &&& 64 * v.words.len() < 0x3FFF_FFFF_7FFF_FFFFint
    }
}

/// A finite value as `(m, k)` with value `m · 2^k`: the mantissa words read
/// as a fraction of `2^(64·len)`, scaled by `2^exp`, with the sign.
pub open spec fn real_scaled(v: RealV) -> (int, int) {
    (
        if v.neg {
            -limbs_val(v.words)
        } else {
            limbs_val(v.words) as int
        },
        v.exp - 64 * v.words.len(),
    )
}

/// The sign (−1, 0 or 1) of `a − b` for two values that are not NaN.
pub open spec fn real_order(a: RealV, b: RealV) -> int {
    if a.kind == b.kind && a.kind != RealKind::Finite {
        0
    } else if a.kind == RealKind::PosInf || b.kind == RealKind::NegInf {
        1
    } else if a.kind == RealKind::NegInf || b.kind == RealKind::PosInf {
        -1
    } else {
        let (ma, ka) = real_scaled(a);
        let (mb, kb) = real_scaled(b);
        let k = if ka < kb { ka } else { kb };
        let x = ma * pow2((ka - k) as nat);
        let y = mb * pow2((kb - k) as nat);
        if x > y {
            1
        } else if x < y {
            -1
        } else {
            0
        }
    }
}

/// Finite parts whose value `m · 2^k` is the integer `v`.
pub open spec fn real_is_int(f: RealV, v: int) -> bool {
    f.kind == RealKind::Finite && {
        let (m, k) = real_scaled(f);
        if k >= 0 {
            m * pow2(k as nat) == v
        } else {
            m == v * pow2((-k) as nat)
        }
    }
}

/// The sign (−1, 0 or 1) of `f − v` for a value `f` that is not NaN and an
/// integer `v`.
pub open spec fn real_vs_int(f: RealV, v: int) -> int {
    if f.kind == RealKind::PosInf {
        1
    } else if f.kind == RealKind::NegInf {
        -1
    } else {
        let (m, k) = real_scaled(f);
        let x = if k >= 0 {
            m * pow2(k as nat)
        } else {
            m
        };
        let y = if k >= 0 {
            v
        } else {
            v * pow2((-k) as nat)
        };
        if x > y {
            1
        } else if x < y {
            -1
        } else {
            0
        }
    }
}

proof fn lemma_scale_mul(m: int, a: nat, b: nat)
    ensures
        m * pow2(a) * pow2(b) == m * pow2(a + b),
{
    vstd::arithmetic::power2::lemma_pow2_adds(a, b);
    assert(m * pow2(a) * pow2(b) == m * (pow2(a) * pow2(b))) by (nonlinear_arith);
}

/// Comparing with finite parts of integer value `v` compares with `v`.
pub proof fn lemma_order_with_int(a: RealV, b: RealV, v: int)
    requires
        a.kind != RealKind::NaN,
        real_is_int(b, v),
    ensures
        real_order(a, b) == real_vs_int(a, v),
{
    if a.kind == RealKind::Finite {
        let (ma, ka) = real_scaled(a);
        let (mb, kb) = real_scaled(b);
        let k = if ka < kb { ka } else { kb };
        let x = ma * pow2((ka - k) as nat);
        let y = mb * pow2((kb - k) as nat);
        let s: int = if ka >= 0 { 0 } else { -ka };
        let t: int = if kb >= 0 { 0 } else { -kb };
        let ak: int = if k >= 0 { k } else { -k };
        let big_a = ma * pow2((ka + s) as nat);
        let big_b = v * pow2(s as nat);
        vstd::arithmetic::power2::lemma_pow2(0);
        assert(pow2(0) == 1) by {
            vstd::arithmetic::power::lemma_pow0(2);
        }
        // b's value: mb · 2^(kb + t) = v · 2^t.
        assert(mb * pow2((kb + t) as nat) == v * pow2(t as nat)) by {
            if kb >= 0 {
                assert(v * pow2(0) == v);
            } else {
                assert(mb * pow2(0) == mb);
            }
        }
        let l: nat = (s + t + ak) as nat;
        let r: nat = (t - k + ak) as nat;
        // x · 2^l = A · 2^r
        lemma_scale_mul(ma, (ka - k) as nat, l);
        lemma_scale_mul(ma, (ka + s) as nat, r);
        assert(x * pow2(l) == big_a * pow2(r));
        // y · 2^l = B · 2^r
        lemma_scale_mul(mb, (kb - k) as nat, l);
        lemma_scale_mul(mb, (kb + t) as nat, (s - k + ak) as nat);
        lemma_scale_mul(v, t as nat, (s - k + ak) as nat);
        lemma_scale_mul(v, s as nat, r);
        assert(y * pow2(l) == big_b * pow2(r));
        vstd::arithmetic::power2::lemma_pow2_pos(l);
        vstd::arithmetic::power2::lemma_pow2_pos(r);
        assert((x - y) * pow2(l) == (big_a - big_b) * pow2(r)) by (nonlinear_arith)
            requires
                x * pow2(l) == big_a * pow2(r),
                y * pow2(l) == big_b * pow2(r),
        ;
        assert((x > y) == (big_a > big_b) && (x < y) == (big_a < big_b)) by (nonlinear_arith)
            requires
                (x - y) * pow2(l) == (big_a - big_b) * pow2(r),
                pow2(l) > 0,
                pow2(r) > 0,
        ;
        assert(real_vs_int(a, v) == (if big_a > big_b {
            1int
        } else if big_a < big_b {
            -1int
        } else {
            0int
        })) by {
            if ka >= 0 {
                assert(big_b == v * pow2(0));
            } else {
                assert(big_a == ma * pow2(0));
            }
        }
    }
}

proof fn lemma_bit_length_zero(x: nat)
    ensures
        (bit_length(x) == 0) == (x == 0),
{
}

/// For parts of a `BigFloat` that is not NaN, the sign tests are order
/// tests against zero: the value is below zero exactly when it has a
/// negative sign and is not zero, and it is zero exactly when `is_zero`.
/// So "negative or zero" (the domain test of `ln` and `log`) is `≤ 0`.
pub proof fn law_sign_tests_compare_with_zero(g: RealV)
    requires
        real_wf(g),
        !real_is_nan(g),
    ensures
        real_vs_int(g, 0) < 0 <==> (real_is_negative(g) && !real_is_zero(g)),
        real_vs_int(g, 0) == 0 <==> real_is_zero(g),
        (real_is_negative(g) || real_is_zero(g)) <==> real_vs_int(g, 0) <= 0,
{
    if g.kind == RealKind::Finite {
        let (m, k) = real_scaled(g);
        lemma_bit_length_zero(limbs_val(g.words));
        if k >= 0 {
            vstd::arithmetic::power2::lemma_pow2_pos(k as nat);
            assert((m * pow2(k as nat) > 0) == (m > 0) && (m * pow2(k as nat) < 0) == (m < 0))
                by (nonlinear_arith)
                requires
                    pow2(k as nat) > 0,
            ;
        }
    }
}

/// `BigFloat::is_zero`: a finite value with no significant bit.
pub open spec fn real_is_zero(v: RealV) -> bool {
    v.kind == RealKind::Finite && v.bits == 0
}

/// `BigFloat::is_negative`: negative sign (also for a zero), or −∞.
pub open spec fn real_is_negative(v: RealV) -> bool {
    (v.kind == RealKind::Finite && v.neg) || v.kind == RealKind::NegInf
}

pub open spec fn real_is_nan(v: RealV) -> bool {
    v.kind == RealKind::NaN
}

pub open spec fn real_is_inf(v: RealV) -> bool {
    v.kind == RealKind::PosInf || v.kind == RealKind::NegInf
}

/// `BigFloat::neg`: the same value with the sign reversed.
pub open spec fn real_neg_spec(v: RealV) -> RealV {
    match v.kind {
        RealKind::Finite => RealV { neg: !v.neg, ..v },
        RealKind::PosInf => RealV { kind: RealKind::NegInf, ..v },
        RealKind::NegInf => RealV { kind: RealKind::PosInf, ..v },
        RealKind::NaN => v,
    }
}

/// `BigFloat::abs`: the same value with a positive sign.
pub open spec fn real_abs_spec(v: RealV) -> RealV {
    match v.kind {
        RealKind::Finite => RealV { neg: false, ..v },
        RealKind::NegInf => RealV { kind: RealKind::PosInf, ..v },
        _ => v,
    }
}

// Results of astro_float operations, as functions of their arguments. The
// second argument of each is the precision in bits.
pub uninterp spec fn bf_add(a: RealV, b: RealV, p: int) -> RealV;

pub uninterp spec fn bf_sub(a: RealV, b: RealV, p: int) -> RealV;

pub uninterp spec fn bf_mul(a: RealV, b: RealV, p: int) -> RealV;

pub uninterp spec fn bf_div(a: RealV, b: RealV, p: int) -> RealV;

pub uninterp spec fn bf_pow(a: RealV, b: RealV, p: int) -> RealV;

pub uninterp spec fn bf_sqrt(a: RealV, p: int) -> RealV;

pub uninterp spec fn bf_ln(a: RealV, p: int) -> RealV;

pub uninterp spec fn bf_log2(a: RealV, p: int) -> RealV;

pub uninterp spec fn bf_exp(a: RealV, p: int) -> RealV;

pub uninterp spec fn bf_sin(a: RealV, p: int) -> RealV;

pub uninterp spec fn bf_cos(a: RealV, p: int) -> RealV;

pub uninterp spec fn bf_asin(a: RealV, p: int) -> RealV;

pub uninterp spec fn bf_acos(a: RealV, p: int) -> RealV;

pub uninterp spec fn bf_atan(a: RealV, p: int) -> RealV;

pub uninterp spec fn bf_floor(a: RealV) -> RealV;

pub uninterp spec fn bf_compare(a: RealV, b: RealV) -> Option<i128>;

pub uninterp spec fn bf_from_i128(v: i128, p: int) -> RealV;

pub uninterp spec fn bf_parse(s: Seq<char>, p: int) -> RealV;

pub uninterp spec fn bf_pi(p: int) -> RealV;

pub uninterp spec fn bf_display(a: RealV) -> Seq<char>;

impl Real {
    /// Every `Real` holds the parts of a `BigFloat`.
    #[verifier::type_invariant]
    closed spec fn inv(self) -> bool {
        real_wf(self@)
    }

    pub fn is_zero(&self) -> (b: bool)
        ensures
            b == real_is_zero(self@),
    {
        matches!(self.kind, RealKind::Finite) && self.bits == 0
    }

    pub fn is_negative(&self) -> (b: bool)
        ensures
            b == real_is_negative(self@),
    {
        (matches!(self.kind, RealKind::Finite) && self.neg) || matches!(self.kind, RealKind::NegInf)
    }

    pub fn is_nan(&self) -> (b: bool)
        ensures
            b == real_is_nan(self@),
    {
        matches!(self.kind, RealKind::NaN)
    }

    pub fn is_inf(&self) -> (b: bool)
        ensures
            b == real_is_inf(self@),
    {
        matches!(self.kind, RealKind::PosInf) || matches!(self.kind, RealKind::NegInf)
    }

    /// A copy with the sign reversed.
    pub fn neg(&self) -> (r: Real)
        ensures
            r@ == real_neg_spec(self@),
    {
        proof {
            use_type_invariant(self);
        }
        let kind = match self.kind {
            RealKind::PosInf => RealKind::NegInf,
            RealKind::NegInf => RealKind::PosInf,
            k => k,
        };
        let neg = if matches!(self.kind, RealKind::Finite) {
            !self.neg
        } else {
            self.neg
        };
        Real {
            kind,
            words: self.words.clone(),
            bits: self.bits,
            neg,
            exp: self.exp,
            inexact: self.inexact,
        }
    }

    /// A copy with a positive sign.
    pub fn abs(&self) -> (r: Real)
        ensures
            r@ == real_abs_spec(self@),
    {
        proof {
            use_type_invariant(self);
        }
        let kind = match self.kind {
            RealKind::NegInf => RealKind::PosInf,
            k => k,
        };
        let neg = if matches!(self.kind, RealKind::Finite) {
            false
        } else {
            self.neg
        };
        Real {
            kind,
            words: self.words.clone(),
            bits: self.bits,
            neg,
            exp: self.exp,
            inexact: self.inexact,
        }
    }

    /// The scientific decimal text (`"4.2e+1"`, `"NaN"`, `"-Inf"`), as
    /// `Display` shows it.
    pub fn to_text(&self) -> (s: String)
        ensures
            s@ == bf_display(self@),
    {
        real_to_string(self)
    }

    /// The parts are ones that `BigFloat::from_raw_parts` accepts.
    pub fn check_wf(&self)
        ensures
            real_wf(self@),
    {
        proof {
            use_type_invariant(self);
        }
    }

    /// The number of 64-bit words of the mantissa.
    pub fn word_count(&self) -> (n: usize)
        ensures
            n == self@.words.len(),
    {
        self.words.len()
    }

    /// An exact copy.
    pub fn duplicate(&self) -> (r: Real)
        ensures
            r@ == self@,
    {
        proof {
            use_type_invariant(self);
        }
        Real {
            kind: self.kind,
            words: self.words.clone(),
            bits: self.bits,
            neg: self.neg,
            exp: self.exp,
            inexact: self.inexact,
        }
    }
}

impl Clone for Real {
    fn clone(&self) -> (r: Real)
        ensures
            r@ == self@,
    {
        self.duplicate()
    }
}

// ---------------------------------------------------------------------------
// astro_float
// ---------------------------------------------------------------------------

#[verifier::external_type_specification]
#[verifier::external_body]
pub struct ExBigFloat(BigFloat);

#[verifier::external_type_specification]
#[verifier::external_body]
pub struct ExConsts(Consts);

/// Builds the `BigFloat` from its parts (`BigFloat::from_raw_parts`, or the
/// special values).
#[verifier::external_body]
fn to_bf(r: &Real) -> BigFloat {
    match r.kind {
        RealKind::Finite => BigFloat::from_raw_parts(
            &r.words,
            r.bits,
            if r.neg { Sign::Neg } else { Sign::Pos },
            r.exp,
            r.inexact,
        ),
        RealKind::NaN => astro_float::NAN,
        RealKind::PosInf => astro_float::INF_POS,
        RealKind::NegInf => astro_float::INF_NEG,
    }
}

/// Splits a `BigFloat` into its parts (`BigFloat::as_raw_parts`); NaN and
/// the infinities have no parts. The result is taken to meet `Real`'s
/// invariant (`real_wf`): the parts of a `BigFloat` are ones that
/// `BigFloat::from_raw_parts` accepts, the bit count being the mantissa's
/// bit length.
#[verifier::external_body]
fn from_bf(b: &BigFloat) -> Real {
    let (kind, (words, bits, sign, exp, inexact)) = match b.as_raw_parts() {
        Some((m, n, s, e, i)) => (RealKind::Finite, (m.to_vec(), n, s, e, i)),
        None => (special_kind(b), (Vec::new(), 0, Sign::Pos, 0, false)),
    };
    Real { kind, words, bits, neg: sign == Sign::Neg, exp, inexact }
}

/// Which special value a `BigFloat` without parts is (`is_nan`,
/// `is_positive`).
#[verifier::external_body]
fn special_kind(b: &BigFloat) -> RealKind {
    if b.is_nan() {
        RealKind::NaN
    } else if b.is_positive() {
        RealKind::PosInf
    } else {
        RealKind::NegInf
    }
}

/// The constants cache that astro_float's transcendental functions use.
#[verifier::external_body]
fn new_consts() -> Consts {
    Consts::new().expect("astro-float Consts init")
}

/// `BigFloat::add` at precision `p`, rounding to nearest even. Claimed:
/// the result is `bf_add` of the two operands and `p`, so it depends on
/// them alone.
#[verifier::external_body]
pub(crate) fn real_add(a: &Real, b: &Real, p: usize) -> (r: Real)
    ensures
        r@ == bf_add(a@, b@, p as int),
{
    from_bf(&to_bf(a).add(&to_bf(b), p, RoundingMode::ToEven))
}

/// `BigFloat::sub` at precision `p`, rounding to nearest even. Claimed:
/// the result is `bf_sub` of the two operands and `p`, and it is what
/// `BigFloat::add` gives for `a` and `−b`: both go through
/// `BigFloatNumber::add_sub` (sub with `op = -1`, add with `op = 1`), which
/// takes the same branch and sign when the sign of `b` is turned, and the
/// special values (NaN, ±∞) are matched case for case in `sub_op` and
/// `add_op`.
#[verifier::external_body]
pub(crate) fn real_sub(a: &Real, b: &Real, p: usize) -> (r: Real)
    ensures
        r@ == bf_sub(a@, b@, p as int),
        r@ == bf_add(a@, real_neg_spec(b@), p as int),
{
    from_bf(&to_bf(a).sub(&to_bf(b), p, RoundingMode::ToEven))
}

/// `BigFloat::mul` at precision `p`, rounding to nearest even. Claimed:
/// the result is `bf_mul` of the two operands and `p`.
#[verifier::external_body]
pub(crate) fn real_mul(a: &Real, b: &Real, p: usize) -> (r: Real)
    ensures
        r@ == bf_mul(a@, b@, p as int),
{
    from_bf(&to_bf(a).mul(&to_bf(b), p, RoundingMode::ToEven))
}

/// `BigFloat::div` at precision `p`, rounding to nearest even. Claimed:
/// the result is `bf_div` of the two operands and `p` (a zero divisor gives
/// an infinity or NaN, never a panic).
#[verifier::external_body]
pub(crate) fn real_div(a: &Real, b: &Real, p: usize) -> (r: Real)
    ensures
        r@ == bf_div(a@, b@, p as int),
{
    from_bf(&to_bf(a).div(&to_bf(b), p, RoundingMode::ToEven))
}

/// `BigFloat::pow` at precision `p`, rounding to nearest even. Claimed:
/// the result is `bf_pow` of base, exponent and `p` (the constants cache
/// only speeds the computation up).
#[verifier::external_body]
pub(crate) fn real_pow(a: &Real, b: &Real, p: usize) -> (r: Real)
    ensures
        r@ == bf_pow(a@, b@, p as int),
{
    from_bf(&to_bf(a).pow(&to_bf(b), p, RoundingMode::ToEven, &mut new_consts()))
}

/// `BigFloat::sqrt` at precision `p`, rounding to nearest even. Claimed:
/// the result is `bf_sqrt` of the operand and `p`.
#[verifier::external_body]
pub(crate) fn real_sqrt(a: &Real, p: usize) -> (r: Real)
    ensures
        r@ == bf_sqrt(a@, p as int),
{
    from_bf(&to_bf(a).sqrt(p, RoundingMode::ToEven))
}

/// `BigFloat::ln` at precision `p`, rounding to nearest even. Claimed: the
/// result is `bf_ln` of the operand and `p`.
#[verifier::external_body]
pub(crate) fn real_ln(a: &Real, p: usize) -> (r: Real)
    ensures
        r@ == bf_ln(a@, p as int),
{
    from_bf(&to_bf(a).ln(p, RoundingMode::ToEven, &mut new_consts()))
}

/// `BigFloat::log2` at precision `p`, rounding to nearest even. Claimed:
/// the result is `bf_log2` of the operand and `p`.
#[verifier::external_body]
pub(crate) fn real_log2(a: &Real, p: usize) -> (r: Real)
    ensures
        r@ == bf_log2(a@, p as int),
{
    from_bf(&to_bf(a).log2(p, RoundingMode::ToEven, &mut new_consts()))
}

/// `BigFloat::exp` at precision `p`, rounding to nearest even. Claimed:
/// the result is `bf_exp` of the operand and `p`.
#[verifier::external_body]
pub(crate) fn real_exp(a: &Real, p: usize) -> (r: Real)
    ensures
        r@ == bf_exp(a@, p as int),
{
    from_bf(&to_bf(a).exp(p, RoundingMode::ToEven, &mut new_consts()))
}

/// `BigFloat::sin` at precision `p`, rounding to nearest even. Claimed:
/// the result is `bf_sin` of the operand and `p`.
#[verifier::external_body]
pub(crate) fn real_sin(a: &Real, p: usize) -> (r: Real)
    ensures
        r@ == bf_sin(a@, p as int),
{
    from_bf(&to_bf(a).sin(p, RoundingMode::ToEven, &mut new_consts()))
}

/// `BigFloat::cos` at precision `p`, rounding to nearest even. Claimed:
/// the result is `bf_cos` of the operand and `p`.
#[verifier::external_body]
pub(crate) fn real_cos(a: &Real, p: usize) -> (r: Real)
    ensures
        r@ == bf_cos(a@, p as int),
{
    from_bf(&to_bf(a).cos(p, RoundingMode::ToEven, &mut new_consts()))
}

/// `BigFloat::asin` at precision `p`, rounding to nearest even. Claimed:
/// the result is `bf_asin` of the operand and `p`.
#[verifier::external_body]
pub(crate) fn real_asin(a: &Real, p: usize) -> (r: Real)
    ensures
        r@ == bf_asin(a@, p as int),
{
    from_bf(&to_bf(a).asin(p, RoundingMode::ToEven, &mut new_consts()))
}

/// `BigFloat::acos` at precision `p`, rounding to nearest even. Claimed:
/// the result is `bf_acos` of the operand and `p`.
#[verifier::external_body]
pub(crate) fn real_acos(a: &Real, p: usize) -> (r: Real)
    ensures
        r@ == bf_acos(a@, p as int),
{
    from_bf(&to_bf(a).acos(p, RoundingMode::ToEven, &mut new_consts()))
}

/// `BigFloat::atan` at precision `p`, rounding to nearest even. Claimed:
/// the result is `bf_atan` of the operand and `p`.
#[verifier::external_body]
pub(crate) fn real_atan(a: &Real, p: usize) -> (r: Real)
    ensures
        r@ == bf_atan(a@, p as int),
{
    from_bf(&to_bf(a).atan(p, RoundingMode::ToEven, &mut new_consts()))
}

/// `BigFloat::floor`. Claimed: the result is `bf_floor` of the operand.
#[verifier::external_body]
pub(crate) fn real_floor(a: &Real) -> (r: Real)
    ensures
        r@ == bf_floor(a@),
{
    from_bf(&to_bf(a).floor())
}

/// `BigFloat::cmp`. Claimed: the result is `bf_compare` of the two
/// operands; for parts that `from_raw_parts` accepts it is `None` exactly
/// when either is NaN, and otherwise has the sign of `a − b` (`real_order`).
#[verifier::external_body]
pub(crate) fn real_compare(a: &Real, b: &Real) -> (r: Option<i128>)
    ensures
        r == bf_compare(a@, b@),
        real_wf(a@) && real_wf(b@) ==> (r is None <==> (real_is_nan(a@) || real_is_nan(b@))),
        real_wf(a@) && real_wf(b@) && r is Some ==> (if r->0 > 0 {
            1int
        } else if r->0 < 0 {
            -1int
        } else {
            0int
        }) == real_order(a@, b@),
{
    to_bf(a).cmp(&to_bf(b))
}

/// `BigFloat::from_i128` at precision `p`. Claimed: the result is
/// `bf_from_i128` of the integer and `p`, and for a precision of at least
/// 128 bits (and not past the limit of `from_raw_parts`) it is finite with
/// the integer's exact value (`from_u128` writes the integer into the top
/// two words of the mantissa, with the matching exponent). Below 128 bits
/// astro_float gives NaN; that is left unstated here, as is the failure
/// of an allocation.
#[verifier::external_body]
pub(crate) fn real_from_i128(v: i128, p: usize) -> (r: Real)
    ensures
        r@ == bf_from_i128(v, p as int),
        128 <= p < 0x3FFF_FFFF_7FFF_FFFF ==> real_is_int(r@, v as int),
{
    from_bf(&BigFloat::from_i128(v, p))
}

/// `BigFloat::parse` of decimal text at precision `p`, rounding to nearest
/// even. Claimed: the result is `bf_parse` of the text and `p`.
#[verifier::external_body]
pub(crate) fn real_parse(s: &str, p: usize) -> (r: Real)
    ensures
        r@ == bf_parse(s@, p as int),
{
    from_bf(&BigFloat::parse(s, Radix::Dec, p, RoundingMode::ToEven, &mut new_consts()))
}

/// `Consts::pi` at precision `p`, rounding to nearest even. Claimed: the
/// result is `bf_pi` of `p`.
#[verifier::external_body]
pub(crate) fn real_pi(p: usize) -> (r: Real)
    ensures
        r@ == bf_pi(p as int),
{
    from_bf(&new_consts().pi(p, RoundingMode::ToEven))
}

/// `Display` of a `BigFloat` (its scientific decimal form, or `NaN`,
/// `Inf`, `-Inf`). Claimed: the text is `bf_display` of the value.
#[verifier::external_body]
pub(crate) fn real_to_string(a: &Real) -> (s: String)
    ensures
        s@ == bf_display(a@),
{
    format!("{}", to_bf(a))
}

} // verus!
