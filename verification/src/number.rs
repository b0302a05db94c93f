//! Unified numeric type: exact rational fast-path + arbitrary-precision real
//! fallback.
//!
//! `+ − × ÷` and integer powers stay exact while both sides are rational,
//! so `0.1 + 0.2 == 0.3` and `1/3 × 3 == 1`.
use vstd::prelude::*;
use vstd::arithmetic::power::pow;
use crate::error::{EngineError, EngineErrorV};
use crate::rational::{
    Rat, rat_from_i64, rat_add, rat_sub, rat_mul, rat_div, rat_neg, rat_pow, rat_to_string,
    rat_parse_integer, rat_add_spec, rat_sub_spec, rat_mul_spec, rat_div_spec, rat_pow_spec,
    rat_display, int_dec, nat_dec, int_parse_spec, all_digits, digits_val, canon, gcd, abs,
    digit_char,
};
use crate::bigfloat::{
    Real, RealV, real_add, real_sub, real_mul, real_div, real_parse, bf_add, bf_sub, bf_mul, bf_div,
    bf_parse, real_neg_spec, real_is_zero,
};
use crate::text::{
    chars_to_string, collect_chars, find_char, index_from, sub_chars, string_of, parse_u64,
    u64_parse_spec,
};
use crate::lexer::char_at;
use crate::text::same_text;
use crate::bigfloat::{bf_display, real_to_string};
use crate::fraction::lemma_gcd_divides;

verus! {

broadcast use vstd::string::group_string_axioms;

/// Default working precision in bits (≈ 77 decimal digits).
pub const DEFAULT_PREC: usize = 256;

#[derive(Debug)]
pub enum Number {
    /// Exact rational. Preserved across +, −, ×, ÷ and integer powers.
    Rational(Rat),
    /// Arbitrary-precision real. Used once we hit a transcendental function,
    /// an irrational root, or a non-integer exponent.
    Real(Real),
}

/// Two rationals are equal when their values are; two reals when their
/// decimal displays are the same text (reals of one value at different
/// precisions are equal); a rational never equals a real.
impl PartialEq for Number {
    fn eq(&self, other: &Self) -> (r: bool) {
        match (self, other) {
            (Number::Rational(a), Number::Rational(b)) => a.same_value_as(b),
            (Number::Real(a), Number::Real(b)) => {
                let x = real_to_string(a);
                let y = real_to_string(b);
                same_text(x.as_str(), y.as_str())
            },
            _ => false,
        }
    }
}

impl vstd::std_specs::cmp::PartialEqSpecImpl for Number {
    open spec fn obeys_eq_spec() -> bool {
        true
    }

    open spec fn eq_spec(&self, other: &Number) -> bool {
        match (self@, other@) {
            (NumV::Rational(a), NumV::Rational(b)) => a == b,
            (NumV::Real(a), NumV::Real(b)) => bf_display(a) == bf_display(b),
            _ => false,
        }
    }
}

/// Mathematical model of a [`Number`].
pub enum NumV {
    Rational((int, int)),
    Real(RealV),
}

impl View for Number {
    type V = NumV;

    open spec fn view(&self) -> NumV {
        match self {
            Number::Rational(r) => NumV::Rational(r@),
            Number::Real(f) => NumV::Real(f@),
        }
    }
}

// ---------------------------------------------------------------------------
// Specification of the arithmetic
// ---------------------------------------------------------------------------

/// A rational as a real: its decimal form `n` or `n/d` read by the real
/// parser (and divided).
pub open spec fn rat_to_real_spec(r: (int, int), p: int) -> RealV {
    if r.1 == 1 {
        bf_parse(int_dec(r.0), p)
    } else {
        bf_div(bf_parse(int_dec(r.0), p), bf_parse(nat_dec(r.1 as nat), p), p)
    }
}

pub open spec fn to_real_spec(n: NumV, p: int) -> RealV {
    match n {
        NumV::Real(f) => f,
        NumV::Rational(r) => rat_to_real_spec(r, p),
    }
}

pub open spec fn num_is_zero(n: NumV) -> bool {
    match n {
        NumV::Rational(r) => r.0 == 0,
        NumV::Real(f) => real_is_zero(f),
    }
}

pub open spec fn num_neg(n: NumV) -> NumV {
    match n {
        NumV::Rational(r) => NumV::Rational((-r.0, r.1)),
        NumV::Real(f) => NumV::Real(real_neg_spec(f)),
    }
}

pub open spec fn num_add(a: NumV, b: NumV, p: int) -> NumV {
    match (a, b) {
        (NumV::Rational(x), NumV::Rational(y)) => NumV::Rational(rat_add_spec(x, y)),
        _ => NumV::Real(bf_add(to_real_spec(a, p), to_real_spec(b, p), p)),
    }
}

/// `a − b`: exact on two rationals; otherwise the real `a` plus the
/// negated real `b`, rounded once at precision `p`.
pub open spec fn num_sub(a: NumV, b: NumV, p: int) -> NumV {
    match (a, b) {
        (NumV::Rational(x), NumV::Rational(y)) => NumV::Rational(rat_sub_spec(x, y)),
        _ => NumV::Real(bf_add(to_real_spec(a, p), real_neg_spec(to_real_spec(b, p)), p)),
    }
}

pub open spec fn num_mul(a: NumV, b: NumV, p: int) -> NumV {
    match (a, b) {
        (NumV::Rational(x), NumV::Rational(y)) => NumV::Rational(rat_mul_spec(x, y)),
        _ => NumV::Real(bf_mul(to_real_spec(a, p), to_real_spec(b, p), p)),
    }
}

/// Division; a zero divisor is an error.
pub open spec fn num_div(a: NumV, b: NumV, p: int) -> Result<NumV, EngineErrorV> {
    if num_is_zero(b) {
        Err(EngineErrorV::DivisionByZero)
    } else {
        match (a, b) {
            (NumV::Rational(x), NumV::Rational(y)) => Ok(NumV::Rational(rat_div_spec(x, y))),
            _ => Ok(NumV::Real(bf_div(to_real_spec(a, p), to_real_spec(b, p), p))),
        }
    }
}

/// Integer power of a rational, staying exact; `None` for a real base, or a
/// zero base with a negative exponent.
pub open spec fn num_pow_int(n: NumV, e: int) -> Option<NumV> {
    match n {
        NumV::Real(_) => None,
        NumV::Rational(b) => if e >= 0 {
            Some(NumV::Rational(rat_pow_spec(b, e as nat)))
        } else if b.0 == 0 {
            None
        } else {
            Some(NumV::Rational(rat_div_spec((1, 1), rat_pow_spec(b, (-e) as nat))))
        },
    }
}

// ---------------------------------------------------------------------------
// Facts about lowest terms
// ---------------------------------------------------------------------------

/// A fraction with a nonzero numerator keeps a nonzero numerator in lowest
/// terms.
pub proof fn lemma_canon_nonzero(n: int, d: int)
    requires
        n != 0,
        d != 0,
    ensures
        canon(n, d).0 != 0,
{
    lemma_gcd_divides(abs(n), abs(d));
    let g = gcd(abs(n), abs(d)) as int;
    vstd::arithmetic::div_mod::lemma_fundamental_div_mod(abs(n) as int, g);
    if d < 0 {
        vstd::arithmetic::div_mod::lemma_fundamental_div_mod(-n, g);
        assert((-n) % g == 0) by {
            if n < 0 {
            } else {
                vstd::arithmetic::div_mod::lemma_mod_multiples_basic(-(abs(n) as int / g), g);
                assert(-n == -(abs(n) as int / g) * g) by (nonlinear_arith)
                    requires
                        abs(n) as int == g * (abs(n) as int / g),
                        n > 0,
                        abs(n) as int == n,
                ;
            }
        }
        assert((-n) / g != 0) by (nonlinear_arith)
            requires
                -n == g * ((-n) / g) + (-n) % g,
                (-n) % g == 0,
                n != 0,
        ;
    } else {
        vstd::arithmetic::div_mod::lemma_fundamental_div_mod(n, g);
        assert(n % g == 0) by {
            if n > 0 {
            } else {
                vstd::arithmetic::div_mod::lemma_mod_multiples_basic(-(abs(n) as int / g), g);
                assert(n == -(abs(n) as int / g) * g) by (nonlinear_arith)
                    requires
                        abs(n) as int == g * (abs(n) as int / g),
                        n < 0,
                        abs(n) as int == -n,
                ;
            }
        }
        assert(n / g != 0) by (nonlinear_arith)
            requires
                n == g * (n / g) + n % g,
                n % g == 0,
                n != 0,
        ;
    }
}

proof fn lemma_int_pow_nonzero(b: int, e: nat)
    requires
        b != 0,
    ensures
        pow(b, e) != 0,
    decreases e,
{
    reveal(pow);
    if e > 0 {
        lemma_int_pow_nonzero(b, (e - 1) as nat);
        assert(pow(b, e) == b * pow(b, (e - 1) as nat));
        assert(b * pow(b, (e - 1) as nat) != 0) by (nonlinear_arith)
            requires
                b != 0,
                pow(b, (e - 1) as nat) != 0,
        ;
    }
}

/// A nonzero rational raised to any power is nonzero.
pub proof fn lemma_pow_nonzero(b: (int, int), e: nat)
    requires
        b.0 != 0,
        b.1 > 0,
    ensures
        rat_pow_spec(b, e).0 != 0,
{
    lemma_int_pow_nonzero(b.0, e);
    vstd::arithmetic::power::lemma_pow_positive(b.1, e);
    lemma_canon_nonzero(pow(b.0, e), pow(b.1, e));
}

proof fn lemma_dec_no_slash(n: nat)
    ensures
        !nat_dec(n).contains('/'),
    decreases n,
{
    if n >= 10 {
        lemma_dec_no_slash(n / 10);
        assert forall|i: int| 0 <= i < nat_dec(n).len() implies nat_dec(n)[i] != '/' by {
            if i < nat_dec(n / 10).len() {
                assert(nat_dec(n)[i] == nat_dec(n / 10)[i]);
            }
        }
    }
}

proof fn lemma_int_dec_no_slash(i: int)
    ensures
        !int_dec(i).contains('/'),
{
    lemma_dec_no_slash(abs(i));
    if i < 0 {
        assert forall|k: int| 0 <= k < int_dec(i).len() implies int_dec(i)[k] != '/' by {
            if k > 0 {
                assert(int_dec(i)[k] == nat_dec(abs(i))[k - 1]);
            }
        }
    }
}

// ---------------------------------------------------------------------------
// Number
// ---------------------------------------------------------------------------

impl Number {
    pub fn zero() -> (n: Self)
        ensures
            n@ == NumV::Rational((0, 1)),
    {
        Number::Rational(rat_from_i64(0))
    }

    pub fn one() -> (n: Self)
        ensures
            n@ == NumV::Rational((1, 1)),
    {
        Number::Rational(rat_from_i64(1))
    }

    pub fn from_i64(v: i64) -> (n: Self)
        ensures
            n@ == NumV::Rational((v as int, 1)),
    {
        Number::Rational(rat_from_i64(v))
    }

    /// An exact copy.
    pub fn duplicate(&self) -> (n: Self)
        ensures
            n@ == self@,
    {
        match self {
            Number::Rational(r) => Number::Rational(r.duplicate()),
            Number::Real(f) => Number::Real(f.duplicate()),
        }
    }

    pub fn is_zero(&self) -> (b: bool)
        ensures
            b == num_is_zero(self@),
    {
        match self {
            Number::Rational(r) => r.is_zero(),
            Number::Real(f) => f.is_zero(),
        }
    }

    /// Promote to an arbitrary-precision real.
    pub fn to_real(&self, prec: usize) -> (f: Real)
        ensures
            f@ == to_real_spec(self@, prec as int),
    {
        match self {
            Number::Real(f) => f.duplicate(),
            Number::Rational(r) => rational_to_bigfloat(r, prec),
        }
    }

    pub fn neg(self) -> (n: Self)
        ensures
            n@ == num_neg(self@),
    {
        match self {
            Number::Rational(r) => Number::Rational(rat_neg(&r)),
            Number::Real(f) => Number::Real(f.neg()),
        }
    }

    pub fn add(self, other: Self, prec: usize) -> (n: Self)
        ensures
            n@ == num_add(self@, other@, prec as int),
    {
        match (&self, &other) {
            (Number::Rational(a), Number::Rational(b)) => Number::Rational(rat_add(a, b)),
            _ => Number::Real(real_add(&self.to_real(prec), &other.to_real(prec), prec)),
        }
    }

    pub fn sub(self, other: Self, prec: usize) -> (n: Self)
        ensures
            n@ == num_sub(self@, other@, prec as int),
    {
        match (&self, &other) {
            (Number::Rational(a), Number::Rational(b)) => Number::Rational(rat_sub(a, b)),
            _ => Number::Real(real_sub(&self.to_real(prec), &other.to_real(prec), prec)),
        }
    }

    pub fn mul(self, other: Self, prec: usize) -> (n: Self)
        ensures
            n@ == num_mul(self@, other@, prec as int),
    {
        match (&self, &other) {
            (Number::Rational(a), Number::Rational(b)) => Number::Rational(rat_mul(a, b)),
            _ => Number::Real(real_mul(&self.to_real(prec), &other.to_real(prec), prec)),
        }
    }

    pub fn div(self, other: Self, prec: usize) -> (r: Result<Self, EngineError>)
        ensures
            match num_div(self@, other@, prec as int) {
                Ok(v) => r matches Ok(n) && n@ == v,
                Err(e) => r matches Err(x) && x@ == e,
            },
    {
        if other.is_zero() {
            return Err(EngineError::DivisionByZero);
        }
        match (&self, &other) {
            (Number::Rational(a), Number::Rational(b)) => Ok(Number::Rational(rat_div(a, b))),
            _ => Ok(Number::Real(real_div(&self.to_real(prec), &other.to_real(prec), prec))),
        }
    }

    /// Raise to a signed integer power while staying in `Rational`.
    /// Returns `None` if the base is already `Real` (caller should fall back
    /// to the real power) or is zero with a negative exponent.
    pub fn pow_int(&self, exp: i64) -> (r: Option<Self>)
        ensures
            match num_pow_int(self@, exp as int) {
                Some(v) => r matches Some(n) && n@ == v,
                None => r is None,
            },
    {
        let base = match self {
            Number::Rational(b) => b,
            Number::Real(_) => {
                return None;
            },
        };
        if exp >= 0 {
            Some(Number::Rational(rat_pow(base, exp as u64)))
        } else if base.is_zero() {
            None
        } else {
            // base^(-n) = 1 / base^n
            let n: u64 = ((-(exp + 1)) as u64) + 1;
            let pos_pow = rat_pow(base, n);
            base.check_wf();
            proof {
                lemma_pow_nonzero(base@, n as nat);
            }
            Some(Number::Rational(rat_div(&rat_from_i64(1), &pos_pow)))
        }
    }
}

/// A rational as a real: the decimal `n` or `n/d` of its display, parsed
/// (and divided) at precision `prec`.
pub(crate) fn rational_to_bigfloat(r: &Rat, prec: usize) -> (f: Real)
    ensures
        f@ == rat_to_real_spec(r@, prec as int),
{
    let s = rat_to_string(r);
    let cs = collect_chars(s.as_str());
    proof {
        lemma_int_dec_no_slash(r@.0);
        lemma_dec_no_slash(r@.1 as nat);
    }
    match find_char(&cs, '/') {
        Some(i) => {
            let ghost n = int_dec(r@.0);
            let ghost d = nat_dec(r@.1 as nat);
            proof {
                if r@.1 == 1 {
                    assert(cs@[i as int] == '/');
                    assert(false);
                }
                assert(cs@ == n + seq!['/'] + d);
                if i < n.len() {
                    assert(n[i as int] == '/');
                }
                if i > n.len() {
                    assert(cs@[n.len() as int] == '/');
                }
                assert(cs@.subrange(0, i as int) =~= n);
                assert(cs@.subrange(i + 1, cs@.len() as int) =~= d);
            }
            let num = real_parse(chars_to_string(&cs, 0, i).as_str(), prec);
            let den = real_parse(chars_to_string(&cs, i + 1, cs.len()).as_str(), prec);
            real_div(&num, &den, prec)
        },
        None => {
            proof {
                if r@.1 != 1 {
                    assert(cs@[int_dec(r@.0).len() as int] == '/');
                }
            }
            real_parse(s.as_str(), prec)
        },
    }
}


// ---------------------------------------------------------------------------
// Decimal literals
// ---------------------------------------------------------------------------

/// Index of the first `e` or `E` at or after `i`.
pub open spec fn exp_mark_from(s: Seq<char>, i: int) -> Option<int>
    decreases s.len() - i,
{
    if i < 0 || i >= s.len() {
        None
    } else if s[i] == 'e' || s[i] == 'E' {
        Some(i)
    } else {
        exp_mark_from(s, i + 1)
    }
}

/// Mantissa, exponent sign (`true` for negative) and exponent magnitude of a
/// literal; `None` when the exponent is not an unsigned 64-bit number.
pub open spec fn split_exponent_spec(s: Seq<char>) -> Option<(Seq<char>, bool, u64)> {
    match exp_mark_from(s, 0) {
        None => Some((s, false, 0)),
        Some(k) => {
            let (neg, start) = if char_at(s, k + 1) == Some('+') {
                (false, k + 2)
            } else if char_at(s, k + 1) == Some('-') {
                (true, k + 2)
            } else {
                (false, k + 1)
            };
            match u64_parse_spec(s.subrange(start, s.len() as int)) {
                Some(v) => Some((s.subrange(0, k), neg, v)),
                None => None,
            }
        },
    }
}

/// Digits of the mantissa without its first `.`, and how many characters
/// follow that `.`; `None` when a `.` leaves no digit.
pub open spec fn mantissa_spec(m: Seq<char>) -> Option<(Seq<char>, nat)> {
    match index_from(m, '.', 0) {
        Some(d) => {
            let digits = m.subrange(0, d) + m.subrange(d + 1, m.len() as int);
            if digits.len() == 0 {
                None
            } else {
                Some((digits, (m.len() - d - 1) as nat))
            }
        },
        None => Some((m, 0)),
    }
}

pub open spec fn ten_pow(k: nat) -> (int, int) {
    rat_pow_spec((10, 1), k)
}

/// The value of a decimal literal (`"3.14"`, `".5"`, `"2e10"`, `"1.5E-3"`).
pub open spec fn parse_decimal_spec(s: Seq<char>) -> Result<(int, int), EngineErrorV> {
    match split_exponent_spec(s) {
        None => Err(EngineErrorV::InvalidNumber(s)),
        Some((m, neg, e)) => match mantissa_spec(m) {
            None => Err(EngineErrorV::InvalidNumber(m)),
            Some((digits, fl)) => if digits.len() == 0 {
                Err(EngineErrorV::InvalidNumber(s))
            } else {
                match int_parse_spec(digits) {
                    None => Err(EngineErrorV::InvalidNumber(s)),
                    Some(v) => {
                        let r1 = if fl > 0 {
                            rat_div_spec((v, 1), ten_pow(fl))
                        } else {
                            (v, 1)
                        };
                        Ok(
                            if e > 0 {
                                if neg {
                                    rat_div_spec(r1, ten_pow(e as nat))
                                } else {
                                    rat_mul_spec(r1, ten_pow(e as nat))
                                }
                            } else {
                                r1
                            },
                        )
                    },
                }
            },
        },
    }
}

pub(crate) fn find_exp_mark(cs: &Vec<char>) -> (r: Option<usize>)
    ensures
        match r {
            Some(i) => exp_mark_from(cs@, 0) == Some(i as int) && i < cs.len(),
            None => exp_mark_from(cs@, 0) is None,
        },
{
    let mut i: usize = 0;
    while i < cs.len()
        invariant
            i <= cs.len(),
            exp_mark_from(cs@, 0) == exp_mark_from(cs@, i as int),
        decreases cs.len() - i,
    {
        if cs[i] == 'e' || cs[i] == 'E' {
            return Some(i);
        }
        i = i + 1;
    }
    None
}

fn split_exponent(src: &str) -> (r: Result<(Vec<char>, bool, u64), EngineError>)
    ensures
        match split_exponent_spec(src@) {
            Some((m, neg, e)) => r matches Ok((mv, n, ev)) && mv@ == m && n == neg && ev == e,
            None => r matches Err(x) && x@ == EngineErrorV::InvalidNumber(src@),
        },
{
    let cs = collect_chars(src);
    match find_exp_mark(&cs) {
        None => Ok((cs, false, 0)),
        Some(idx) => {
            let (neg, start) = if idx + 1 < cs.len() && cs[idx + 1] == '+' {
                (false, idx + 2)
            } else if idx + 1 < cs.len() && cs[idx + 1] == '-' {
                (true, idx + 2)
            } else {
                (false, idx + 1)
            };
            let rest = chars_to_string(&cs, start, cs.len());
            assert(exp_mark_from(src@, 0) == Some(idx as int));
            assert(start <= cs.len());
            match parse_u64(rest.as_str()) {
                Some(v) => {
                    let m = sub_chars(&cs, 0, idx);
                    assert(split_exponent_spec(src@) == Some((m@, neg, v)));
                    Ok((m, neg, v))
                },
                None => {
                    let t = src.to_owned();
                    assert(t@ == src@);
                    Err(EngineError::InvalidNumber(t))
                },
            }
        },
    }
}

fn parse_mantissa(s: &Vec<char>) -> (r: Result<(Vec<char>, usize), EngineError>)
    ensures
        match mantissa_spec(s@) {
            Some((d, fl)) => r matches Ok((dv, f)) && dv@ == d && f == fl,
            None => r matches Err(x) && x@ == EngineErrorV::InvalidNumber(s@),
        },
{
    if let Some(dot) = find_char(s, '.') {
        let mut digits = sub_chars(s, 0, dot);
        let tail = sub_chars(s, dot + 1, s.len());
        let mut k: usize = 0;
        while k < tail.len()
            invariant
                k <= tail.len(),
                digits@ == s@.subrange(0, dot as int) + tail@.subrange(0, k as int),
            decreases tail.len() - k,
        {
            digits.push(tail[k]);
            assert(tail@.subrange(0, k + 1) =~= tail@.subrange(0, k as int).push(tail@[k as int]));
            k = k + 1;
        }
        assert(tail@.subrange(0, tail@.len() as int) =~= tail@);
        let frac_len = s.len() - dot - 1;
        if digits.len() == 0 {
            return Err(EngineError::InvalidNumber(string_of(s)));
        }
        Ok((digits, frac_len))
    } else {
        let all = sub_chars(s, 0, s.len());
        assert(all@ =~= s@);
        Ok((all, 0))
    }
}

/// 10^k as an exact rational.
pub(crate) fn ten_to(k: u64) -> (r: Rat)
    ensures
        r@ == ten_pow(k as nat),
        r@.0 != 0,
{
    proof {
        lemma_pow_nonzero((10, 1), k as nat);
    }
    rat_pow(&rat_from_i64(10), k)
}

impl Number {
    /// Parse a decimal literal (`"3.14"`, `".5"`, `"2e10"`, `"1.5E-3"`).
    /// Exact scientific-notation values stay rational, so `0.1 + 0.2 == 0.3`.
    pub fn parse_decimal(src: &str) -> (r: Result<Self, EngineError>)
        ensures
            match parse_decimal_spec(src@) {
                Ok(v) => r matches Ok(n) && n@ == NumV::Rational(v),
                Err(e) => r matches Err(x) && x@ == e,
            },
    {
        // Split mantissa / exponent.
        let (mantissa, exp_sign, exp_abs) = split_exponent(src)?;
        // Parse mantissa into (digits, fraction_len).
        let (digits, frac_len) = parse_mantissa(&mantissa)?;
        if digits.len() == 0 {
            return Err(EngineError::InvalidNumber(src.to_owned()));
        }
        let text = string_of(&digits);
        let mut rat = match rat_parse_integer(text.as_str()) {
            Some(v) => v,
            None => {
                return Err(EngineError::InvalidNumber(src.to_owned()));
            },
        };
        // Apply fraction (divide by 10^frac_len).
        if frac_len > 0 {
            let scale = ten_to(frac_len as u64);
            rat = rat_div(&rat, &scale);
        }
        // Apply scientific exponent.
        if exp_abs > 0 {
            let scale = ten_to(exp_abs);
            if exp_sign {
                rat = rat_div(&rat, &scale);
            } else {
                rat = rat_mul(&rat, &scale);
            }
        }
        Ok(Number::Rational(rat))
    }
}

} // verus!
