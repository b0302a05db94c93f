//! Exact rationals. The value lives in plain limbs (base 2^64, least
//! significant first) in lowest terms with a positive denominator; the
//! arithmetic itself is done by `malachite`.
use vstd::prelude::*;
use vstd::arithmetic::power::pow;
use malachite::Rational;
use malachite::Natural;
use malachite::base::num::arithmetic::traits::{Abs, Floor, Pow};
use std::str::FromStr;

verus! {

/// The limb base, 2^64.
pub open spec fn limb_base() -> int {
    0x1_0000_0000_0000_0000
}

/// Value of little-endian base-2^64 limbs.
pub open spec fn limbs_val(s: Seq<u64>) -> nat
    decreases s.len(),
{
    if s.len() == 0 {
        0
    } else {
        (s[0] + limb_base() * limbs_val(s.drop_first())) as nat
    }
}

pub open spec fn abs(x: int) -> nat {
    if x < 0 {
        (-x) as nat
    } else {
        x as nat
    }
}

pub open spec fn gcd(a: nat, b: nat) -> nat
    decreases b,
{
    if b == 0 {
        a
    } else {
        gcd(b, a % b)
    }
}

/// `n / d` in lowest terms with a positive denominator.
pub open spec fn canon(n: int, d: int) -> (int, int) {
    let g = gcd(abs(n), abs(d)) as int;
    if d < 0 {
        ((-n) / g, (-d) / g)
    } else {
        (n / g, d / g)
    }
}

pub open spec fn rat_add_spec(a: (int, int), b: (int, int)) -> (int, int) {
    canon(a.0 * b.1 + b.0 * a.1, a.1 * b.1)
}

pub open spec fn rat_sub_spec(a: (int, int), b: (int, int)) -> (int, int) {
    canon(a.0 * b.1 - b.0 * a.1, a.1 * b.1)
}

pub open spec fn rat_mul_spec(a: (int, int), b: (int, int)) -> (int, int) {
    canon(a.0 * b.0, a.1 * b.1)
}

pub open spec fn rat_div_spec(a: (int, int), b: (int, int)) -> (int, int) {
    canon(a.0 * b.1, a.1 * b.0)
}

pub open spec fn rat_pow_spec(a: (int, int), e: nat) -> (int, int) {
    canon(pow(a.0, e), pow(a.1, e))
}

pub open spec fn digit_char(d: int) -> char {
    (d + 48) as char
}

/// Decimal digits of a natural number, most significant first.
pub open spec fn nat_dec(n: nat) -> Seq<char>
    decreases n,
{
    if n < 10 {
        seq![digit_char(n as int)]
    } else {
        nat_dec(n / 10).push(digit_char((n % 10) as int))
    }
}

/// Decimal form of an integer, with a leading `-` when negative.
pub open spec fn int_dec(i: int) -> Seq<char> {
    if i < 0 {
        seq!['-'] + nat_dec((-i) as nat)
    } else {
        nat_dec(i as nat)
    }
}

/// `Display` of a rational: `n` for integers, `n/d` otherwise.
pub open spec fn rat_display(r: (int, int)) -> Seq<char> {
    if r.1 == 1 {
        int_dec(r.0)
    } else {
        int_dec(r.0) + seq!['/'] + nat_dec(r.1 as nat)
    }
}

/// Digits `'0'..='9'` only, at least one.
pub open spec fn all_digits(s: Seq<char>) -> bool {
    s.len() > 0 && forall|i: int| 0 <= i < s.len() ==> '0' <= #[trigger] s[i] <= '9'
}

/// Value of a string of decimal digits.
pub open spec fn digits_val(s: Seq<char>) -> nat
    decreases s.len(),
{
    if s.len() == 0 {
        0
    } else {
        (digits_val(s.drop_last()) * 10 + (s.last() as int - 48)) as nat
    }
}

/// `Integer::from_str`: digits with an optional single leading `-` or `+`.
pub open spec fn int_parse_spec(s: Seq<char>) -> Option<int> {
    if s.len() > 0 && s[0] == '-' && all_digits(s.drop_first()) {
        Some(-digits_val(s.drop_first()))
    } else if s.len() > 0 && s[0] == '+' && all_digits(s.drop_first()) {
        Some(digits_val(s.drop_first()) as int)
    } else if all_digits(s) {
        Some(digits_val(s) as int)
    } else {
        None
    }
}

/// A rational number held as plain limbs.
#[derive(Debug, PartialEq, Eq)]
pub struct Rat {
    neg: bool,
    num: Vec<u64>,
    den: Vec<u64>,
}

impl View for Rat {
    type V = (int, int);

    closed spec fn view(&self) -> (int, int) {
        (
            if self.neg {
                -limbs_val(self.num@)
            } else {
                limbs_val(self.num@) as int
            },
            limbs_val(self.den@) as int,
        )
    }
}

/// No most significant zero limb.
pub open spec fn minimal(s: Seq<u64>) -> bool {
    s.len() == 0 || s.last() != 0
}

impl Rat {
    /// Lowest terms, positive denominator, no negative zero, minimal limbs.
    #[verifier::type_invariant]
    pub closed spec fn wf(self) -> bool {
        &&& minimal(self.num@)
        &&& minimal(self.den@)
        &&& limbs_val(self.den@) > 0
        &&& gcd(limbs_val(self.num@), limbs_val(self.den@)) == 1
        &&& (self.neg ==> limbs_val(self.num@) > 0)
    }

    /// The denominator is positive and the fraction is in lowest terms.
    pub fn check_wf(&self)
        ensures
            self@.1 > 0,
            gcd(abs(self@.0), abs(self@.1)) == 1,
    {
        proof {
            use_type_invariant(self);
        }
    }

    /// An exact copy.
    pub fn duplicate(&self) -> (r: Rat)
        ensures
            r@ == self@,
    {
        proof {
            use_type_invariant(self);
        }
        let num = self.num.clone();
        let den = self.den.clone();
        assert(num@ =~= self.num@);
        assert(den@ =~= self.den@);
        Rat { neg: self.neg, num, den }
    }

    /// The value is zero.
    pub fn is_zero(&self) -> (b: bool)
        ensures
            b == (self@.0 == 0),
    {
        proof {
            use_type_invariant(self);
            lemma_minimal_zero(self.num@);
        }
        self.num.len() == 0
    }

    /// The value is negative.
    pub fn is_negative(&self) -> (b: bool)
        ensures
            b == (self@.0 < 0),
    {
        proof {
            use_type_invariant(self);
        }
        self.neg
    }

    /// The value is an integer (its denominator is 1).
    pub fn is_integer(&self) -> (b: bool)
        ensures
            b == (self@.1 == 1),
    {
        proof {
            use_type_invariant(self);
            lemma_minimal_small(self.den@);
        }
        self.den.len() == 1 && self.den[0] == 1
    }

    /// The numerator is odd.
    pub fn numerator_is_odd(&self) -> (b: bool)
        ensures
            b == (abs(self@.0) % 2 == 1),
    {
        proof {
            lemma_limbs_parity(self.num@);
        }
        self.num.len() > 0 && self.num[0] % 2 == 1
    }

    /// The denominator is odd.
    pub fn denominator_is_odd(&self) -> (b: bool)
        ensures
            b == (self@.1 % 2 == 1),
    {
        proof {
            lemma_limbs_parity(self.den@);
        }
        self.den.len() > 0 && self.den[0] % 2 == 1
    }

    /// The value is exactly ½.
    pub fn is_one_half(&self) -> (b: bool)
        ensures
            b == (self@.0 == 1 && self@.1 == 2),
    {
        proof {
            use_type_invariant(self);
            lemma_minimal_small(self.num@);
            lemma_minimal_small(self.den@);
        }
        !self.neg && self.num.len() == 1 && self.num[0] == 1 && self.den.len() == 1 && self.den[0] == 2
    }

    /// The two rationals have the same value.
    pub fn same_value_as(&self, other: &Rat) -> (b: bool)
        ensures
            b == (self@ == other@),
    {
        proof {
            use_type_invariant(self);
            use_type_invariant(other);
            if self@ == other@ {
                lemma_limbs_injective(self.num@, other.num@);
                lemma_limbs_injective(self.den@, other.den@);
            }
        }
        self.neg == other.neg && same_limbs(&self.num, &other.num) && same_limbs(
            &self.den,
            &other.den,
        )
    }

    /// The decimal text `n` or `n/d`, as `Display` shows it.
    pub fn to_text(&self) -> (s: String)
        ensures
            s@ == rat_display(self@),
    {
        rat_to_string(self)
    }

    /// The value as an `i64`, when it is an integer whose magnitude fits.
    pub fn try_i64(&self) -> (r: Option<i64>)
        ensures
            r == (if self@.1 == 1 && abs(self@.0) <= i64::MAX {
                Some(self@.0 as i64)
            } else {
                None::<i64>
            }),
    {
        proof {
            use_type_invariant(self);
            lemma_minimal_small(self.num@);
            lemma_minimal_small(self.den@);
        }
        if !(self.den.len() == 1 && self.den[0] == 1) {
            return None;
        }
        if self.num.len() == 0 {
            return Some(0);
        }
        if self.num.len() > 1 || self.num[0] > 0x7fff_ffff_ffff_ffff {
            return None;
        }
        let m = self.num[0] as i64;
        if self.neg {
            Some(-m)
        } else {
            Some(m)
        }
    }

    /// The value as an `i128`, when it is an integer in range.
    pub fn try_i128(&self) -> (r: Option<i128>)
        ensures
            r == (if self@.1 == 1 && i128::MIN <= self@.0 <= i128::MAX {
                Some(self@.0 as i128)
            } else {
                None::<i128>
            }),
    {
        proof {
            use_type_invariant(self);
            lemma_minimal_small(self.den@);
            lemma_minimal_two(self.num@);
        }
        if !(self.den.len() == 1 && self.den[0] == 1) {
            return None;
        }
        if self.num.len() > 2 {
            return None;
        }
        let lo: u128 = if self.num.len() > 0 {
            self.num[0] as u128
        } else {
            0
        };
        let hi: u128 = if self.num.len() > 1 {
            self.num[1] as u128
        } else {
            0
        };
        if hi >= 0x8000_0000_0000_0000 {
            if self.neg && hi == 0x8000_0000_0000_0000 && lo == 0 {
                return Some(i128::MIN);
            }
            return None;
        }
        let m: u128 = hi * 0x1_0000_0000_0000_0000 + lo;
        let v = m as i128;
        if self.neg {
            Some(-v)
        } else {
            Some(v)
        }
    }
}

proof fn lemma_limbs_val_nonneg_zero(s: Seq<u64>)
    ensures
        limbs_val(s) == 0 <==> forall|i: int| 0 <= i < s.len() ==> #[trigger] s[i] == 0,
    decreases s.len(),
{
    if s.len() > 0 {
        lemma_limbs_val_nonneg_zero(s.drop_first());
        if limbs_val(s) == 0 {
            assert forall|i: int| 0 <= i < s.len() implies #[trigger] s[i] == 0 by {
                if i > 0 {
                    assert(s[i] == s.drop_first()[i - 1]);
                }
            }
        }
        if forall|i: int| 0 <= i < s.len() ==> #[trigger] s[i] == 0 {
            assert forall|i: int| 0 <= i < s.drop_first().len() implies #[trigger] s.drop_first()[i]
                == 0 by {
                assert(s.drop_first()[i] == s[i + 1]);
            }
            assert(s[0] == 0);
        }
    }
}

proof fn lemma_minimal_zero(s: Seq<u64>)
    requires
        minimal(s),
    ensures
        limbs_val(s) == 0 <==> s.len() == 0,
{
    lemma_limbs_val_nonneg_zero(s);
    if s.len() > 0 {
        assert(s[s.len() - 1] != 0);
    }
}

proof fn lemma_limbs_val_bound(s: Seq<u64>)
    requires
        s.len() >= 1,
        s.last() != 0,
    ensures
        limbs_val(s) >= pow(limb_base(), (s.len() - 1) as nat),
    decreases s.len(),
{
    vstd::arithmetic::power::lemma_pow0(limb_base());
    if s.len() > 1 {
        let t = s.drop_first();
        assert(t.last() == s.last());
        lemma_limbs_val_bound(t);
        vstd::arithmetic::power::lemma_pow_adds(limb_base(), 1, (t.len() - 1) as nat);
        vstd::arithmetic::power::lemma_pow1(limb_base());
        assert(limbs_val(s) >= limb_base() * limbs_val(t)) by (nonlinear_arith)
            requires
                limbs_val(s) == s[0] + limb_base() * limbs_val(t),
                s[0] >= 0,
        ;
        assert(limb_base() * limbs_val(t) >= limb_base() * pow(limb_base(), (t.len() - 1) as nat)) by (nonlinear_arith)
            requires
                limbs_val(t) >= pow(limb_base(), (t.len() - 1) as nat),
        ;
    } else {
        assert(limbs_val(s.drop_first()) == 0);
    }
}

/// Minimal limbs with value below 2^64 have at most one limb, whose value
/// it is.
proof fn lemma_minimal_small(s: Seq<u64>)
    requires
        minimal(s),
    ensures
        limbs_val(s) < limb_base() <==> s.len() <= 1,
        s.len() == 1 ==> limbs_val(s) == s[0],
        s.len() == 0 ==> limbs_val(s) == 0,
{
    if s.len() >= 2 {
        lemma_limbs_val_bound(s);
        vstd::arithmetic::power::lemma_pow_increases(limb_base() as nat, 1, (s.len() - 1) as nat);
        vstd::arithmetic::power::lemma_pow1(limb_base());
    }
    if s.len() == 1 {
        assert(limbs_val(s.drop_first()) == 0);
    }
}

/// Minimal limbs with at most two limbs give `lo + 2^64 hi`; more limbs
/// give at least 2^128.
proof fn lemma_minimal_two(s: Seq<u64>)
    requires
        minimal(s),
    ensures
        s.len() == 0 ==> limbs_val(s) == 0,
        s.len() == 1 ==> limbs_val(s) == s[0],
        s.len() == 2 ==> limbs_val(s) == s[0] + limb_base() * s[1],
        s.len() > 2 ==> limbs_val(s) >= limb_base() * limb_base(),
{
    if s.len() > 2 {
        lemma_limbs_val_bound(s);
        vstd::arithmetic::power::lemma_pow_increases(limb_base() as nat, 2, (s.len() - 1) as nat);
        vstd::arithmetic::power::lemma_square_is_pow2(limb_base());
    }
    if s.len() == 1 {
        assert(limbs_val(s.drop_first()) == 0);
    }
    if s.len() == 2 {
        let t = s.drop_first();
        assert(limbs_val(t.drop_first()) == 0);
        assert(limbs_val(t) == t[0]);
        assert(t[0] == s[1]);
    }
}

/// Minimal limbs are determined by their value.
proof fn lemma_limbs_injective(s: Seq<u64>, t: Seq<u64>)
    requires
        minimal(s),
        minimal(t),
        limbs_val(s) == limbs_val(t),
    ensures
        s == t,
    decreases s.len(),
{
    lemma_minimal_zero(s);
    lemma_minimal_zero(t);
    if s.len() > 0 && t.len() > 0 {
        let a = s.drop_first();
        let b = t.drop_first();
        assert(minimal(a)) by {
            if a.len() > 0 {
                assert(a.last() == s.last());
            }
        }
        assert(minimal(b)) by {
            if b.len() > 0 {
                assert(b.last() == t.last());
            }
        }
        let va = limbs_val(a) as int;
        let vb = limbs_val(b) as int;
        assert(s[0] + limb_base() * va == t[0] + limb_base() * vb);
        assert(va == vb && s[0] == t[0]) by (nonlinear_arith)
            requires
                s[0] + limb_base() * va == t[0] + limb_base() * vb,
                0 <= s[0] < limb_base(),
                0 <= t[0] < limb_base(),
                va >= 0,
                vb >= 0,
                limb_base() == 0x1_0000_0000_0000_0000,
        ;
        lemma_limbs_injective(a, b);
        assert(s =~= seq![s[0]] + a);
        assert(t =~= seq![t[0]] + b);
    }
}

/// The limbs are the same.
fn same_limbs(a: &Vec<u64>, b: &Vec<u64>) -> (r: bool)
    ensures
        r == (a@ == b@),
{
    if a.len() != b.len() {
        return false;
    }
    let mut i: usize = 0;
    while i < a.len()
        invariant
            a.len() == b.len(),
            i <= a.len(),
            forall|k: int| 0 <= k < i ==> a@[k] == b@[k],
        decreases a.len() - i,
    {
        if a[i] != b[i] {
            return false;
        }
        i = i + 1;
    }
    assert(a@ =~= b@);
    true
}

proof fn lemma_limbs_parity(s: Seq<u64>)
    ensures
        limbs_val(s) % 2 == 1 <==> (s.len() > 0 && s[0] % 2 == 1),
{
    if s.len() > 0 {
        let t = limbs_val(s.drop_first());
        assert((s[0] + limb_base() * t) % 2 == s[0] % 2) by (nonlinear_arith)
            requires
                t >= 0,
        ;
    }
}

// ---------------------------------------------------------------------------
// malachite
// ---------------------------------------------------------------------------

#[verifier::external_type_specification]
#[verifier::external_body]
pub struct ExRational(Rational);

/// Builds the malachite value of `r`.
#[verifier::external_body]
fn to_rational(r: &Rat) -> Rational {
    Rational::from_sign_and_naturals(
        !r.neg,
        Natural::from_limbs_asc(&r.num),
        Natural::from_limbs_asc(&r.den),
    )
}

/// Reads the sign, numerator and denominator limbs of a malachite value.
#[verifier::external_body]
fn from_rational(q: &Rational) -> Rat {
    Rat {
        neg: *q < 0u32,
        num: q.numerator_ref().to_limbs_asc(),
        den: q.denominator_ref().to_limbs_asc(),
    }
}

/// `Rational::from(i64)`. Claimed: the value is the integer `v`.
#[verifier::external_body]
pub(crate) fn rat_from_i64(v: i64) -> (r: Rat)
    ensures
        r@ == (v as int, 1int),
{
    from_rational(&Rational::from(v))
}

/// `Rational + Rational` (malachite). Claimed: the exact sum, in lowest terms
/// with a positive denominator.
#[verifier::external_body]
pub(crate) fn rat_add(a: &Rat, b: &Rat) -> (r: Rat)
    ensures
        r@ == rat_add_spec(a@, b@),
{
    from_rational(&(to_rational(a) + to_rational(b)))
}

/// `Rational - Rational`. Claimed: the exact difference, in lowest terms
/// with a positive denominator.
#[verifier::external_body]
pub(crate) fn rat_sub(a: &Rat, b: &Rat) -> (r: Rat)
    ensures
        r@ == rat_sub_spec(a@, b@),
{
    from_rational(&(to_rational(a) - to_rational(b)))
}

/// `Rational * Rational`. Claimed: the exact product, in lowest terms with
/// a positive denominator.
#[verifier::external_body]
pub(crate) fn rat_mul(a: &Rat, b: &Rat) -> (r: Rat)
    ensures
        r@ == rat_mul_spec(a@, b@),
{
    from_rational(&(to_rational(a) * to_rational(b)))
}

/// `Rational / Rational`; malachite panics on a zero divisor, which is
/// excluded. Claimed: the exact quotient, in lowest terms with a positive
/// denominator.
#[verifier::external_body]
pub(crate) fn rat_div(a: &Rat, b: &Rat) -> (r: Rat)
    requires
        b@.0 != 0,
    ensures
        r@ == rat_div_spec(a@, b@),
{
    from_rational(&(to_rational(a) / to_rational(b)))
}

/// `-Rational`. Claimed: the numerator negated, the denominator kept.
#[verifier::external_body]
pub(crate) fn rat_neg(a: &Rat) -> (r: Rat)
    ensures
        r@ == (-a@.0, a@.1),
{
    from_rational(&(-to_rational(a)))
}

/// `Abs::abs` on a `Rational`. Claimed: the numerator's magnitude, the
/// denominator kept.
#[verifier::external_body]
pub(crate) fn rat_abs(a: &Rat) -> (r: Rat)
    ensures
        r@ == (abs(a@.0) as int, a@.1),
{
    from_rational(&to_rational(a).abs())
}

/// `Pow<u64>` on a `Rational`. Claimed: numerator and denominator raised to
/// `e`, in lowest terms (`0^0` is 1).
#[verifier::external_body]
pub(crate) fn rat_pow(a: &Rat, e: u64) -> (r: Rat)
    ensures
        r@ == rat_pow_spec(a@, e as nat),
{
    from_rational(&to_rational(a).pow(e))
}

/// `Rational::floor` (`Floor`), as a rational. Claimed: the greatest
/// integer not above the value, `⌊n/d⌋` (here `n / d` is floor division,
/// as the denominator is positive).
#[verifier::external_body]
pub(crate) fn rat_floor(a: &Rat) -> (r: Rat)
    ensures
        r@ == (a@.0 / a@.1, 1int),
{
    from_rational(&Rational::from((&to_rational(a)).floor()))
}

/// `Display` of a `Rational`. Claimed: the decimal numerator (with `-` when
/// negative), then `/` and the denominator unless it is 1.
#[verifier::external_body]
pub(crate) fn rat_to_string(a: &Rat) -> (s: String)
    ensures
        s@ == rat_display(a@),
{
    to_rational(a).to_string()
}

/// `Integer::from_str`, read as a `Rational`. Claimed: `Some` exactly when
/// the text is decimal digits with an optional leading `-` or `+`, with its
/// value.
#[verifier::external_body]
pub(crate) fn rat_parse_integer(s: &str) -> (r: Option<Rat>)
    ensures
        match int_parse_spec(s@) {
            Some(v) => r matches Some(x) && x@ == (v, 1int),
            None => r is None,
        },
{
    match malachite::Integer::from_str(s) {
        Ok(i) => Some(from_rational(&Rational::from(i))),
        Err(_) => None,
    }
}

/// The decimal digits of `v`, with `-` when negative.
pub(crate) fn i128_to_string(v: i128) -> (s: String)
    ensures
        s@ == int_dec(v as int),
{
    let neg = v < 0;
    let mag: u128 = if neg {
        ((-(v + 1)) as u128) + 1
    } else {
        v as u128
    };
    assert(mag as int == abs(v as int));
    let mut m: u128 = mag;
    let mut out: Vec<char> = Vec::new();
    while m >= 10
        invariant
            nat_dec(mag as nat) == nat_dec(m as nat) + out@,
        decreases m,
    {
        let d: u8 = (m % 10) as u8;
        let c = (d + 48) as char;
        let ghost before = out@;
        assert(nat_dec(m as nat) == nat_dec((m / 10) as nat).push(digit_char((m % 10) as int)));
        assert(c == digit_char((m % 10) as int));
        out.insert(0, c);
        assert(out@ =~= seq![c] + before);
        assert(nat_dec(m as nat) + before =~= nat_dec((m / 10) as nat) + out@);
        m = m / 10;
    }
    let c = ((m as u8) + 48) as char;
    let ghost before = out@;
    out.insert(0, c);
    assert(nat_dec(m as nat) =~= seq![c]);
    assert(out@ =~= nat_dec(m as nat) + before);
    if neg {
        out.insert(0, '-');
        assert(out@ =~= seq!['-'] + nat_dec(mag as nat));
    }
    crate::text::string_of(&out)
}

} // verus!
