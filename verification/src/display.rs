//! Decimal formatting of numbers, up to a number of significant digits.
//!
//! A real is formatted from its scientific display (`"4.2e+1"`,
//! `"-5.67e-3"`): the mantissa digits are rounded (a first dropped digit of
//! 5 or more rounds up), the decimal point is placed by the exponent, and
//! trailing zeros of a fraction are trimmed. Integral rationals that fit an
//! `i128` print exactly; other rationals go through a real. A real far
//! below its own precision (trigonometric noise such as `sin(π)`) shows as
//! `0`.
use vstd::prelude::*;
use vstd::wrapping::i64_specs::wrapping_add;
use crate::number::{
    Number, NumV, DEFAULT_PREC, exp_mark_from, find_exp_mark, rat_to_real_spec,
    rational_to_bigfloat,
};
use crate::bigfloat::{Real, RealV, real_is_zero, bf_display, real_to_string};
use crate::rational::{Rat, int_dec, i128_to_string};
use crate::text::{
    collect_chars, find_char, index_from, sub_chars, push_range, string_of, chars_to_string,
    parse_i64, i64_parse_spec,
};

verus! {

broadcast use vstd::string::group_string_axioms;

// ---------------------------------------------------------------------------
// Specification
// ---------------------------------------------------------------------------

/// The displays of NaN and of the infinities, kept as they are.
pub open spec fn is_special_display(raw: Seq<char>) -> bool {
    raw == seq!['N', 'a', 'N'] || raw == seq!['I', 'n', 'f'] || raw == seq!['-', 'I', 'n', 'f']
}

/// The next character (a digit below 9 becomes the next digit).
pub open spec fn next_char(c: char) -> char {
    if (c as int) < 127 {
        ((c as int) + 1) as char
    } else {
        c
    }
}

/// A digit string plus one in its last place: trailing 9s become 0s and
/// carry; a carry out of the first digit prepends a `1`.
pub open spec fn incr_digits(s: Seq<char>) -> Seq<char>
    decreases s.len(),
{
    if s.len() == 0 {
        seq!['1']
    } else if s.last() == '9' {
        incr_digits(s.drop_last()).push('0')
    } else {
        s.drop_last().push(next_char(s.last()))
    }
}

/// The first `keep` digits, rounded up when the first dropped digit is 5
/// or more.
pub open spec fn round_spec(d: Seq<char>, keep: nat) -> Seq<char> {
    let head = d.take(keep as int);
    if '5' <= d[keep as int] <= '9' {
        incr_digits(head)
    } else {
        head
    }
}

/// Sign, mantissa and decimal exponent of a scientific display; an exponent
/// that does not read as an `i64` counts as 0.
pub open spec fn display_parts(raw: Seq<char>) -> (bool, Seq<char>, i64) {
    let neg = raw.len() > 0 && raw[0] == '-';
    let rest = if neg {
        raw.drop_first()
    } else {
        raw
    };
    match exp_mark_from(rest, 0) {
        Some(k) => (
            neg,
            rest.take(k),
            match i64_parse_spec(rest.skip(k + 1)) {
                Some(v) => v,
                None => 0,
            },
        ),
        None => (neg, rest, 0),
    }
}

/// The integer and fraction digits of a mantissa, around its first `.`.
pub open spec fn mantissa_split(m: Seq<char>) -> (Seq<char>, Seq<char>) {
    match index_from(m, '.', 0) {
        Some(d) => (m.take(d), m.skip(d + 1)),
        None => (m, Seq::empty()),
    }
}

pub open spec fn zeros(n: nat) -> Seq<char> {
    Seq::new(n, |i: int| '0')
}

/// The digits with the decimal point after the first `np` of them (zeros
/// pad on either side as needed).
pub open spec fn place_point(digits: Seq<char>, np: i64) -> Seq<char> {
    if np <= 0 {
        seq!['0', '.'] + zeros(
            if np == i64::MIN {
                0
            } else {
                (-np) as nat
            },
        ) + digits
    } else if (np as usize) >= digits.len() {
        digits + zeros((np as usize - digits.len()) as nat)
    } else {
        digits.take(np as usize as int) + seq!['.'] + digits.skip(np as usize as int)
    }
}

pub open spec fn trim_zeros(s: Seq<char>) -> Seq<char>
    decreases s.len(),
{
    if s.len() > 0 && s.last() == '0' {
        trim_zeros(s.drop_last())
    } else {
        s
    }
}

/// A number with a fraction loses its trailing zeros, then a bare point.
pub open spec fn trim_fraction(s: Seq<char>) -> Seq<char> {
    if s.contains('.') {
        let t = trim_zeros(s);
        if t.len() > 0 && t.last() == '.' {
            t.drop_last()
        } else {
            t
        }
    } else {
        s
    }
}

/// The decimal text of a real whose scientific display is `raw`, with at
/// most `max` significant digits.
pub open spec fn format_spec(raw: Seq<char>, zero: bool, max: nat) -> Seq<char> {
    if is_special_display(raw) {
        raw
    } else if zero {
        seq!['0']
    } else {
        let (neg, mant, exp) = display_parts(raw);
        let (ip, fp) = mantissa_split(mant);
        let d0 = ip + fp;
        let digits = if d0.len() > max {
            round_spec(d0, max)
        } else {
            d0
        };
        let np0 = wrapping_add(ip.len() as i64, exp);
        let np = if d0.len() > max && digits.len() > max {
            wrapping_add(np0, 1)
        } else {
            np0
        };
        let body = place_point(digits, np);
        let out = trim_fraction(
            if neg {
                seq!['-'] + body
            } else {
                body
            },
        );
        if out.len() == 0 || out == seq!['-'] {
            seq!['0']
        } else {
            out
        }
    }
}

/// Precision used to turn a rational into a real for display: four bits
/// per digit (saturating), at least the default.
pub open spec fn display_prec(digits: usize) -> usize {
    let d = if digits * 4 > usize::MAX {
        usize::MAX
    } else {
        (digits * 4) as usize
    };
    if d > DEFAULT_PREC {
        d
    } else {
        DEFAULT_PREC
    }
}

pub open spec fn format_rational_spec(r: (int, int), digits: usize) -> Seq<char> {
    if r.1 == 1 && i128::MIN <= r.0 <= i128::MAX {
        int_dec(r.0)
    } else {
        let f = rat_to_real_spec(r, display_prec(digits) as int);
        format_spec(bf_display(f), real_is_zero(f), digits as nat)
    }
}

/// Exponent `m` of the snap threshold `10^(−m)` of a real: a quarter of its
/// precision in bits (64 per mantissa word), at least 12 — the scale below
/// which a tangent's cosine also counts as zero.
pub open spec fn snap_digits(f: RealV) -> int {
    let m = 16 * f.words.len();
    if m < 12 {
        12
    } else {
        m as int
    }
}

/// A nonzero finite real whose decimal exponent lies below `−m`: rounding
/// noise (`sin(π)` is about 1e-77 at 256 bits) that displays as `0`.
pub open spec fn negligible(f: RealV) -> bool {
    let raw = bf_display(f);
    !is_special_display(raw) && !real_is_zero(f) && (display_parts(raw).2 as int) < -snap_digits(f)
}

/// The decimal text of a number with at most `digits` significant digits;
/// a negligible real shows as `0`.
pub open spec fn decimal_string_spec(n: NumV, digits: usize) -> Seq<char> {
    match n {
        NumV::Rational(r) => format_rational_spec(r, digits),
        NumV::Real(f) => if negligible(f) {
            seq!['0']
        } else {
            format_spec(bf_display(f), real_is_zero(f), digits as nat)
        },
    }
}

// ---------------------------------------------------------------------------
// Rounding
// ---------------------------------------------------------------------------

fn next_digit(c: char) -> (d: char)
    ensures
        d == next_char(c),
{
    if (c as u32) < 127 {
        ((c as u8) + 1) as char
    } else {
        c
    }
}

/// `digits[..keep]`, rounded half up on the first dropped digit.
pub fn round_digits(digits: &Vec<char>, keep: usize) -> (r: Vec<char>)
    requires
        digits.len() > keep,
    ensures
        r@ == round_spec(digits@, keep as nat),
{
    let mut buf = sub_chars(digits, 0, keep);
    let first = digits[keep];
    let round_up = '5' <= first && first <= '9';
    if !round_up {
        return buf;
    }
    let ghost head = buf@;
    let mut i = buf.len();
    assert(buf@.take(i as int) =~= head);
    assert(incr_digits(head) + buf@.skip(i as int) =~= incr_digits(head));
    loop
        invariant_except_break
            i <= buf.len(),
            buf.len() == head.len(),
            buf@.take(i as int) == head.take(i as int),
            incr_digits(head) == incr_digits(buf@.take(i as int)) + buf@.skip(i as int),
        ensures
            buf@ == incr_digits(head),
        decreases i,
    {
        if i == 0 {
            let ghost before = buf@;
            assert(before.take(0) =~= Seq::<char>::empty());
            assert(before.skip(0) =~= before);
            buf.insert(0, '1');
            assert(buf@ =~= seq!['1'] + before);
            break;
        }
        i = i - 1;
        let ghost prev = buf@;
        assert(prev.take(i + 1).drop_last() =~= prev.take(i as int));
        assert(prev.take(i + 1).last() == prev[i as int]);
        if buf[i] == '9' {
            buf.set(i, '0');
            assert(buf@.take(i as int) =~= prev.take(i as int));
            assert(buf@.skip(i as int) =~= seq!['0'] + prev.skip(i + 1));
            assert(incr_digits(prev.take(i + 1)) == incr_digits(prev.take(i as int)).push('0'));
            assert(incr_digits(prev.take(i as int)).push('0') + prev.skip(i + 1) =~= incr_digits(
                prev.take(i as int),
            ) + (seq!['0'] + prev.skip(i + 1)));
        } else {
            let c = next_digit(buf[i]);
            buf.set(i, c);
            assert(incr_digits(prev.take(i + 1)) == prev.take(i as int).push(c));
            assert(buf@ =~= prev.take(i as int).push(c) + prev.skip(i + 1));
            break;
        }
    }
    buf
}

// ---------------------------------------------------------------------------
// Formatting a real
// ---------------------------------------------------------------------------

fn is_special(raw: &Vec<char>) -> (b: bool)
    ensures
        b == is_special_display(raw@),
{
    let nan = raw.len() == 3 && raw[0] == 'N' && raw[1] == 'a' && raw[2] == 'N';
    let inf = raw.len() == 3 && raw[0] == 'I' && raw[1] == 'n' && raw[2] == 'f';
    let neg_inf = raw.len() == 4 && raw[0] == '-' && raw[1] == 'I' && raw[2] == 'n' && raw[3]
        == 'f';
    proof {
        if nan {
            assert(raw@ =~= seq!['N', 'a', 'N']);
        }
        if inf {
            assert(raw@ =~= seq!['I', 'n', 'f']);
        }
        if neg_inf {
            assert(raw@ =~= seq!['-', 'I', 'n', 'f']);
        }
    }
    nan || inf || neg_inf
}

fn split_display(raw: &Vec<char>) -> (r: (bool, Vec<char>, i64))
    ensures
        (r.0, r.1@, r.2) == display_parts(raw@),
{
    let neg = raw.len() > 0 && raw[0] == '-';
    let rest = if neg {
        sub_chars(raw, 1, raw.len())
    } else {
        sub_chars(raw, 0, raw.len())
    };
    proof {
        if neg {
            assert(rest@ =~= raw@.drop_first());
        } else {
            assert(rest@ =~= raw@);
        }
    }
    match find_exp_mark(&rest) {
        Some(k) => {
            let m = sub_chars(&rest, 0, k);
            let e: i64 = match parse_i64(chars_to_string(&rest, k + 1, rest.len()).as_str()) {
                Some(v) => v,
                None => 0,
            };
            proof {
                assert(m@ =~= rest@.take(k as int));
                assert(rest@.subrange(k + 1, rest@.len() as int) =~= rest@.skip(k + 1));
            }
            (neg, m, e)
        },
        None => (neg, rest, 0),
    }
}

fn split_mantissa(m: &Vec<char>) -> (r: (Vec<char>, Vec<char>))
    ensures
        (r.0@, r.1@) == mantissa_split(m@),
{
    match find_char(m, '.') {
        Some(d) => {
            let ip = sub_chars(m, 0, d);
            let fp = sub_chars(m, d + 1, m.len());
            assert(ip@ =~= m@.take(d as int));
            assert(fp@ =~= m@.skip(d + 1));
            (ip, fp)
        },
        None => {
            let all = sub_chars(m, 0, m.len());
            assert(all@ =~= m@);
            (all, Vec::new())
        },
    }
}

fn push_zeros(out: &mut Vec<char>, n: u64)
    ensures
        final(out)@ == old(out)@ + zeros(n as nat),
{
    let mut k: u64 = 0;
    while k < n
        invariant
            k <= n,
            out@ == old(out)@ + zeros(k as nat),
        decreases n - k,
    {
        out.push('0');
        assert(old(out)@ + zeros((k + 1) as nat) =~= old(out)@ + zeros(k as nat) + seq!['0']);
        k = k + 1;
    }
}

/// The sign, then the digits with the point placed after `np` of them.
fn place_digits(digits: &Vec<char>, np: i64, neg: bool) -> (out: Vec<char>)
    ensures
        out@ == (if neg {
            seq!['-']
        } else {
            Seq::<char>::empty()
        }) + place_point(digits@, np),
{
    let mut out: Vec<char> = Vec::new();
    if neg {
        out.push('-');
    }
    let ghost sign = out@;
    if np <= 0 {
        out.push('0');
        out.push('.');
        let n: u64 = if np == i64::MIN {
            0
        } else {
            (-np) as u64
        };
        push_zeros(&mut out, n);
        push_range(&mut out, digits, 0, digits.len());
        proof {
            assert(digits@.subrange(0, digits@.len() as int) =~= digits@);
            assert(out@ =~= sign + (seq!['0', '.'] + zeros(n as nat) + digits@));
        }
    } else if (np as usize) >= digits.len() {
        push_range(&mut out, digits, 0, digits.len());
        push_zeros(&mut out, ((np as usize) - digits.len()) as u64);
        proof {
            assert(digits@.subrange(0, digits@.len() as int) =~= digits@);
            assert(out@ =~= sign + (digits@ + zeros(((np as usize) - digits.len()) as nat)));
        }
    } else {
        let cut = np as usize;
        push_range(&mut out, digits, 0, cut);
        out.push('.');
        push_range(&mut out, digits, cut, digits.len());
        proof {
            assert(out@ =~= sign + (digits@.take(cut as int) + seq!['.'] + digits@.skip(
                cut as int,
            )));
        }
    }
    out
}

fn trim_fraction_of(s: Vec<char>) -> (r: Vec<char>)
    ensures
        r@ == trim_fraction(s@),
{
    if find_char(&s, '.').is_none() {
        return s;
    }
    let mut t = s;
    while t.len() > 0 && t[t.len() - 1] == '0'
        invariant
            trim_zeros(t@) == trim_zeros(s@),
        decreases t.len(),
    {
        let ghost before = t@;
        t.pop();
        assert(t@ =~= before.drop_last());
    }
    if t.len() > 0 && t[t.len() - 1] == '.' {
        let ghost before = t@;
        t.pop();
        assert(t@ =~= before.drop_last());
    }
    t
}

fn format_bigfloat(f: &Real, max_sig_digits: usize) -> (s: String)
    ensures
        s@ == format_spec(bf_display(f@), real_is_zero(f@), max_sig_digits as nat),
{
    let raw_text = real_to_string(f);
    let raw = collect_chars(raw_text.as_str());
    // NaN and the infinities are shown as they are.
    if is_special(&raw) {
        return raw_text;
    }
    if f.is_zero() {
        return string_of(&vec!['0']);
    }
    // The display is always scientific, like "4.2e+1", "-5.67e-3", "1e+0".
    let (neg, mantissa, exp) = split_display(&raw);
    // Integer and fraction digits; the point is placed again from `exp`.
    let (int_part, frac_part) = split_mantissa(&mantissa);
    let mut all = sub_chars(&int_part, 0, int_part.len());
    push_range(&mut all, &frac_part, 0, frac_part.len());
    proof {
        assert(int_part@.subrange(0, int_part@.len() as int) =~= int_part@);
        assert(frac_part@.subrange(0, frac_part@.len() as int) =~= frac_part@);
    }
    let all_len = all.len();
    let digits = if all.len() > max_sig_digits {
        round_digits(&all, max_sig_digits)
    } else {
        all
    };
    let current_point: i64 = int_part.len() as i64;
    let mut new_point = current_point.wrapping_add(exp);
    // Rounding may have carried into a new leading '1' (9.99 → 10.0): the
    // point moves right by one.
    if all_len > max_sig_digits && digits.len() > max_sig_digits {
        new_point = new_point.wrapping_add(1);
    }
    let out = trim_fraction_of(place_digits(&digits, new_point, neg));
    if out.len() == 0 || (out.len() == 1 && out[0] == '-') {
        proof {
            if out.len() == 1 {
                assert(out@ =~= seq!['-']);
            }
        }
        return string_of(&vec!['0']);
    }
    proof {
        if out@ == seq!['-'] {
            assert(out@.len() == 1);
        }
    }
    string_of(&out)
}

// ---------------------------------------------------------------------------
// Formatting a number
// ---------------------------------------------------------------------------

fn format_rational(r: &Rat, digits: usize) -> (s: String)
    ensures
        s@ == format_rational_spec(r@, digits),
{
    // Integer fast path.
    if let Some(i) = r.try_i128() {
        return i128_to_string(i);
    }
    let scaled: usize = if digits > usize::MAX / 4 {
        usize::MAX
    } else {
        digits * 4
    };
    let prec: usize = if scaled > DEFAULT_PREC {
        scaled
    } else {
        DEFAULT_PREC
    };
    let bf = rational_to_bigfloat(r, prec);
    format_bigfloat(&bf, digits)
}

impl Number {
    /// Format as a decimal string (up to `digits` significant digits).
    pub fn to_decimal_string(&self, digits: usize) -> (s: String)
        ensures
            s@ == decimal_string_spec(self@, digits),
    {
        match self {
            Number::Rational(r) => format_rational(r, digits),
            Number::Real(f) => {
                if is_negligible(f) {
                    string_of(&vec!['0'])
                } else {
                    format_bigfloat(f, digits)
                }
            },
        }
    }
}

fn is_negligible(f: &Real) -> (b: bool)
    ensures
        b == negligible(f@),
{
    let raw = collect_chars(real_to_string(f).as_str());
    if is_special(&raw) || f.is_zero() {
        return false;
    }
    let (_, _, exp) = split_display(&raw);
    let words = f.word_count() as i128;
    let m: i128 = if 16 * words < 12 {
        12
    } else {
        16 * words
    };
    (exp as i128) < -m
}

} // verus!
