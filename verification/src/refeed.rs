//! Refeed text: a number written so that evaluating the text gives the same
//! number back. A rational is written exactly, as its integer, its decimal
//! or a parenthesised fraction, with a negative value in parentheses, so
//! that it can stand as one operand of a longer expression (`(2/3)^2`,
//! `(-1/3)*3`).
use vstd::prelude::*;
use crate::rational::{
    nat_dec, int_dec, rat_display, digits_val, digit_char, canon, rat_div_spec, rat_mul_spec, abs,
    Rat, rat_abs, rat_mul,
};
use crate::number::{Number, NumV, ten_pow, ten_to};
use crate::display::decimal_string_spec;
use crate::text::{collect_chars, string_of};
use crate::error::EngineErrorV;
use crate::fraction::{canonical, lemma_canon, lemma_canonical_unique};
use crate::lexer::{
    TokenV, scan, token_at, digits_end, digit_at, is_digit, prepend_tokens,
    symbol_token, byte_offset,
};
use crate::parser::{
    BinOp, ExprV, bin, parse_spec, parse_tokens, token_pairs, p_add, p_add_rest, p_mul, p_mul_rest,
    p_unary, p_pow, p_postfix, p_postfix_rest, p_atom,
};
use crate::eval::{AngleMode, eval_spec, eval_str_spec, binop_values};
use crate::laws::{digit_chars, law_integer_literal_exact, law_decimal_literal_exact};
use crate::number::parse_decimal_spec;
use vstd::arithmetic::power::pow;

verus! {

/// `|r|·10^k`.
pub open spec fn scaled_magnitude(r: (int, int), k: nat) -> (int, int) {
    rat_mul_spec((abs(r.0) as int, r.1), ten_pow(k))
}

/// The least `k` from `from` up to `digits` for which `|r|·10^k` is an
/// integer: the number of decimal places `r` has, if it has at most
/// `digits`.
pub open spec fn decimal_places(r: (int, int), from: nat, digits: nat) -> Option<nat>
    decreases digits + 1 - from,
{
    if from > digits {
        None
    } else if scaled_magnitude(r, from).1 == 1 {
        Some(from)
    } else {
        decimal_places(r, from + 1, digits)
    }
}

/// `s` with zeros in front up to `w` characters.
pub open spec fn pad_zeros(s: Seq<char>, w: nat) -> Seq<char>
    decreases w - s.len(),
{
    if s.len() >= w {
        s
    } else {
        pad_zeros(seq!['0'] + s, w)
    }
}

/// `m / 10^k` written with `k` digits after the point and at least one
/// before it (`point_text(1, 2)` is `0.01`).
pub open spec fn point_text(m: nat, k: nat) -> Seq<char> {
    let w = pad_zeros(nat_dec(m), k + 1);
    w.take(w.len() - k) + seq!['.'] + w.skip(w.len() - k)
}

/// The refeed text of a rational in lowest terms: a non-negative integer as
/// its digits; a fraction with at most `digits` decimal places as that
/// decimal; anything else as a fraction. Negative values are in
/// parentheses: `(-n)`, `(-0.5)`, `(n/d)`, `(-n/d)`.
pub open spec fn rat_refeed(r: (int, int), digits: nat) -> Seq<char> {
    if r.1 == 1 && r.0 >= 0 {
        nat_dec(r.0 as nat)
    } else if r.1 != 1 && decimal_places(r, 1, digits) is Some {
        let k = decimal_places(r, 1, digits)->Some_0;
        let t = point_text(scaled_magnitude(r, k).0 as nat, k);
        if r.0 < 0 {
            seq!['(', '-'] + t + seq![')']
        } else {
            t
        }
    } else {
        seq!['('] + rat_display(r) + seq![')']
    }
}

/// The refeed text of a number; a real is written as its decimal display.
pub open spec fn refeed_spec(n: NumV, digits: usize) -> Seq<char> {
    match n {
        NumV::Rational(r) => rat_refeed(r, digits as nat),
        NumV::Real(_) => decimal_string_spec(n, digits),
    }
}

/// The least number of decimal places, from 1 up to `digits`, that `r`
/// has, with `|r|·10^k`.
fn find_decimal_places(r: &Rat, digits: usize) -> (res: Option<(usize, Rat)>)
    ensures
        match decimal_places(r@, 1, digits as nat) {
            Some(k) => res matches Some((j, m)) && j == k && m@ == scaled_magnitude(r@, k),
            None => res is None,
        },
{
    let mag = rat_abs(r);
    let mut i: usize = 0;
    while i < digits
        invariant
            i <= digits,
            mag@ == (abs(r@.0) as int, r@.1),
            decimal_places(r@, 1, digits as nat) == decimal_places(r@, (i + 1) as nat, digits as nat),
        decreases digits - i,
    {
        let k = i + 1;
        let m = rat_mul(&mag, &ten_to(k as u64));
        if m.is_integer() {
            assert(decimal_places(r@, k as nat, digits as nat) == Some(k as nat));
            return Some((k, m));
        }
        assert(decimal_places(r@, k as nat, digits as nat) == decimal_places(r@, (k + 1) as nat, digits as nat));
        i = k;
    }
    assert(decimal_places(r@, (i + 1) as nat, digits as nat) is None);
    None
}

impl Number {
    /// Text that evaluates back to this number when it is typed in again,
    /// also as one operand of a longer expression (`(2/3)^2`). A rational
    /// is written exactly: as a decimal when it has at most `digits`
    /// decimal places, else as a fraction. A real (which has no exact
    /// finite text) is written as its decimal display with at most
    /// `digits` significant digits.
    pub fn to_refeed_string(&self, digits: usize) -> (s: String)
        ensures
            s@ == refeed_spec(self@, digits),
    {
        match self {
            Number::Rational(r) => {
                if r.is_integer() && !r.is_negative() {
                    let t = r.to_text();
                    proof {
                        assert(rat_display(r@) == int_dec(r@.0));
                    }
                    return t;
                }
                r.check_wf();
                let found = if r.is_integer() {
                    None
                } else {
                    find_decimal_places(r, digits)
                };
                let mut cs: Vec<char> = match found {
                    Some((k, m)) => {
                        let t = m.to_text();
                        let mut w = collect_chars(t.as_str());
                        proof {
                            lemma_decimal_places(r@, 1, digits as nat);
                            lemma_scaled_nonneg(r@, k as nat);
                            assert(m@.1 == 1);
                            assert(int_dec(m@.0) == nat_dec(m@.0 as nat));
                            assert(w@ == nat_dec(m@.0 as nat));
                        }
                        let ghost start = w@;
                        while w.len() <= k
                            invariant
                                pad_zeros(w@, (k + 1) as nat) == pad_zeros(start, (k + 1) as nat),
                            decreases k + 1 - w.len(),
                        {
                            let ghost before = w@;
                            w.insert(0, '0');
                            assert(w@ =~= seq!['0'] + before);
                        }
                        let split = w.len() - k;
                        let ghost whole = w@;
                        w.insert(split, '.');
                        proof {
                            assert(pad_zeros(whole, (k + 1) as nat) == whole);
                            assert(w@ =~= whole.take(split as int) + seq!['.'] + whole.skip(split as int));
                        }
                        if r.is_negative() {
                            w.insert(0, '-');
                            w.insert(0, '(');
                            w.push(')');
                        }
                        w
                    },
                    None => {
                        let t = r.to_text();
                        let mut w = collect_chars(t.as_str());
                        w.insert(0, '(');
                        w.push(')');
                        proof {
                            assert(w@ =~= seq!['('] + rat_display(r@) + seq![')']);
                        }
                        w
                    },
                };
                proof {
                    assert(cs@ == rat_refeed(r@, digits as nat)) by {
                        if r@.1 != 1 {
                            if let Some(k) = decimal_places(r@, 1, digits as nat) {
                                let t = point_text(scaled_magnitude(r@, k).0 as nat, k);
                                if r@.0 < 0 {
                                    assert(cs@ =~= seq!['(', '-'] + t + seq![')']);
                                }
                            }
                        }
                    }
                }
                string_of(&cs)
            },
            Number::Real(_) => self.to_decimal_string(digits),
        }
    }
}

// ---------------------------------------------------------------------------
// Evaluating the refeed text gives the number back
// ---------------------------------------------------------------------------

/// The decimal digits of `n` are digits, at least one, and read back as `n`.
proof fn lemma_nat_dec(n: nat)
    ensures
        nat_dec(n).len() > 0,
        digit_chars(nat_dec(n)),
        digits_val(nat_dec(n)) == n,
    decreases n,
{
    let c = digit_char((n % 10) as int);
    assert(c as int == (n % 10) + 48);
    if n >= 10 {
        lemma_nat_dec(n / 10);
        let s = nat_dec(n / 10);
        assert(nat_dec(n) == s.push(c));
        assert(s.push(c).drop_last() =~= s);
        assert(s.push(c).last() == c);
        assert(digits_val(s.push(c)) == digits_val(s) * 10 + (c as int - 48));
        assert((n / 10) * 10 + n % 10 == n);
        assert forall|k: int| 0 <= k < s.push(c).len() implies '0' <= #[trigger] s.push(c)[k]
            <= '9' by {
            if k < s.len() {
                assert(s.push(c)[k] == s[k]);
            }
        }
    } else {
        assert(nat_dec(n) == seq![c]);
        assert(seq![c].drop_last() =~= Seq::<char>::empty());
        assert(digits_val(seq![c]) == digits_val(Seq::<char>::empty()) * 10 + (c as int - 48));
    }
}

/// A run of digits from `i` to `j` that stops at `j` ends at `j`.
proof fn lemma_digits_end(cs: Seq<char>, i: int, j: int)
    requires
        0 <= i <= j <= cs.len(),
        forall|k: int| i <= k < j ==> is_digit(#[trigger] cs[k]),
        !digit_at(cs, j),
    ensures
        digits_end(cs, i) == j,
    decreases j - i,
{
    if i < j {
        lemma_digits_end(cs, i + 1, j);
    }
}

/// Scanning at a run of digits that is followed by `)`, `/` or the end
/// takes the run as one number token.
proof fn lemma_scan_number(cs: Seq<char>, i: int, j: int)
    requires
        0 <= i < j <= cs.len(),
        forall|k: int| i <= k < j ==> is_digit(#[trigger] cs[k]),
        j == cs.len() || cs[j] == ')' || cs[j] == '/',
    ensures
        scan(cs, i) == prepend_tokens(
            seq![(TokenV::Number(cs.subrange(i, j)), i, j)],
            scan(cs, j),
        ),
{
    assert(is_digit(cs[i]));
    lemma_digits_end(cs, i, j);
    assert(token_at(cs, i) == Some((TokenV::Number(cs.subrange(i, j)), j)));
}

/// Scanning at one of `(`, `)`, `-`, `/` takes that symbol.
proof fn lemma_scan_symbol(cs: Seq<char>, i: int)
    requires
        0 <= i < cs.len(),
        cs[i] == '(' || cs[i] == ')' || cs[i] == '-' || cs[i] == '/',
    ensures
        scan(cs, i) == prepend_tokens(
            seq![(symbol_token(cs[i])->Some_0, i, i + 1)],
            scan(cs, i + 1),
        ),
        symbol_token(cs[i]) is Some,
{
    assert(token_at(cs, i) == Some((symbol_token(cs[i])->Some_0, i + 1)));
}

/// The digits of `n` followed by `)`, `/` or the end form one number token.
proof fn lemma_scan_digits(cs: Seq<char>, i: int, n: nat)
    requires
        0 <= i,
        i + nat_dec(n).len() <= cs.len(),
        cs.subrange(i, i + nat_dec(n).len()) == nat_dec(n),
        i + nat_dec(n).len() == cs.len() || cs[i + nat_dec(n).len()] == ')' || cs[i
            + nat_dec(n).len()] == '/',
    ensures
        scan(cs, i) == prepend_tokens(
            seq![(TokenV::Number(nat_dec(n)), i, i + nat_dec(n).len())],
            scan(cs, i + nat_dec(n).len()),
        ),
{
    lemma_nat_dec(n);
    let j = i + nat_dec(n).len();
    assert forall|k: int| i <= k < j implies is_digit(#[trigger] cs[k]) by {
        assert(cs[k] == cs.subrange(i, j)[k - i]);
    }
    lemma_scan_number(cs, i, j);
}

/// A number token followed by `/`, `)` or nothing is a whole unary operand.
proof fn lemma_unary_number(t: Seq<(TokenV, int)>, p: int, s: Seq<char>)
    requires
        0 <= p < t.len(),
        t[p].0 == TokenV::Number(s),
        p + 1 < t.len() ==> (t[p + 1].0 == TokenV::Div || t[p + 1].0 == TokenV::RParen),
    ensures
        p_unary(t, p) == Ok::<(ExprV, int), EngineErrorV>((ExprV::Number(s), p + 1)),
{
    let e = ExprV::Number(s);
    assert(p_atom(t, p) == Ok::<(ExprV, int), EngineErrorV>((e, p + 1)));
    assert(p_postfix_rest(t, e, p + 1) == Ok::<(ExprV, int), EngineErrorV>((e, p + 1)));
    assert(p_postfix(t, p) == Ok::<(ExprV, int), EngineErrorV>((e, p + 1)));
    assert(p_pow(t, p) == Ok::<(ExprV, int), EngineErrorV>((e, p + 1)));
}

/// `-` then a number token, followed by `/` or `)`.
proof fn lemma_unary_negated(t: Seq<(TokenV, int)>, p: int, s: Seq<char>)
    requires
        0 <= p,
        p + 2 < t.len(),
        t[p].0 == TokenV::Minus,
        t[p + 1].0 == TokenV::Number(s),
        t[p + 2].0 == TokenV::Div || t[p + 2].0 == TokenV::RParen,
    ensures
        p_unary(t, p) == Ok::<(ExprV, int), EngineErrorV>(
            (ExprV::Negate(Box::new(ExprV::Number(s))), p + 2),
        ),
{
    lemma_unary_number(t, p + 1, s);
}

/// A unary operand that ends at `)` is the whole additive expression.
proof fn lemma_add_single(t: Seq<(TokenV, int)>, p: int, e: ExprV, q: int)
    requires
        0 <= p < q < t.len(),
        p_unary(t, p) == Ok::<(ExprV, int), EngineErrorV>((e, q)),
        t[q].0 == TokenV::RParen,
    ensures
        p_add(t, p) == Ok::<(ExprV, int), EngineErrorV>((e, q)),
{
    assert(p_mul_rest(t, e, q) == Ok::<(ExprV, int), EngineErrorV>((e, q)));
    assert(p_mul(t, p) == Ok::<(ExprV, int), EngineErrorV>((e, q)));
    assert(p_add_rest(t, e, q) == Ok::<(ExprV, int), EngineErrorV>((e, q)));
}

/// A unary operand, `/`, a number, then `)`: one quotient.
proof fn lemma_add_quotient(t: Seq<(TokenV, int)>, p: int, e: ExprV, q: int, s: Seq<char>)
    requires
        0 <= p < q,
        q + 2 < t.len(),
        p_unary(t, p) == Ok::<(ExprV, int), EngineErrorV>((e, q)),
        t[q].0 == TokenV::Div,
        t[q + 1].0 == TokenV::Number(s),
        t[q + 2].0 == TokenV::RParen,
    ensures
        p_add(t, p) == Ok::<(ExprV, int), EngineErrorV>(
            (bin(e, BinOp::Div, ExprV::Number(s)), q + 2),
        ),
{
    let d = bin(e, BinOp::Div, ExprV::Number(s));
    lemma_unary_number(t, q + 1, s);
    assert(p_mul_rest(t, d, q + 2) == Ok::<(ExprV, int), EngineErrorV>((d, q + 2)));
    assert(p_mul_rest(t, e, q) == Ok::<(ExprV, int), EngineErrorV>((d, q + 2)));
    assert(p_mul(t, p) == Ok::<(ExprV, int), EngineErrorV>((d, q + 2)));
    assert(p_add_rest(t, d, q + 2) == Ok::<(ExprV, int), EngineErrorV>((d, q + 2)));
}

/// `(`, an additive expression, `)`, and nothing more parses to that
/// expression.
proof fn lemma_parse_parenthesised(t: Seq<(TokenV, int)>, e: ExprV)
    requires
        t.len() >= 3,
        t[0].0 == TokenV::LParen,
        p_add(t, 1) == Ok::<(ExprV, int), EngineErrorV>((e, t.len() - 1)),
        t[t.len() - 1].0 == TokenV::RParen,
    ensures
        parse_tokens(t) == Ok::<ExprV, EngineErrorV>(e),
{
    let n = t.len() as int;
    assert(p_atom(t, 0) == Ok::<(ExprV, int), EngineErrorV>((e, n)));
    assert(p_postfix_rest(t, e, n) == Ok::<(ExprV, int), EngineErrorV>((e, n)));
    assert(p_postfix(t, 0) == Ok::<(ExprV, int), EngineErrorV>((e, n)));
    assert(p_pow(t, 0) == Ok::<(ExprV, int), EngineErrorV>((e, n)));
    assert(p_unary(t, 0) == Ok::<(ExprV, int), EngineErrorV>((e, n)));
    assert(p_mul_rest(t, e, n) == Ok::<(ExprV, int), EngineErrorV>((e, n)));
    assert(p_mul(t, 0) == Ok::<(ExprV, int), EngineErrorV>((e, n)));
    assert(p_add_rest(t, e, n) == Ok::<(ExprV, int), EngineErrorV>((e, n)));
    assert(p_add(t, 0) == Ok::<(ExprV, int), EngineErrorV>((e, n)));
}

/// The digits of `n` evaluate to `n`.
proof fn lemma_eval_digits(m: AngleMode, p: usize, n: nat)
    ensures
        eval_spec(m, p, ExprV::Number(nat_dec(n))) == Ok::<NumV, EngineErrorV>(
            NumV::Rational((n as int, 1int)),
        ),
{
    lemma_nat_dec(n);
    law_integer_literal_exact(nat_dec(n));
}

/// The tokens of `cs`, as the parser is handed them.
spec fn handed(cs: Seq<char>, ts: Seq<(TokenV, int, int)>) -> Seq<(TokenV, int)> {
    token_pairs(
        ts.map_values(|x: (TokenV, int, int)| (x.0, byte_offset(cs, x.1), byte_offset(cs, x.2))),
    )
}

proof fn lemma_handed(cs: Seq<char>, ts: Seq<(TokenV, int, int)>)
    requires
        scan(cs, 0) == Ok::<Seq<(TokenV, int, int)>, int>(ts),
    ensures
        parse_spec(cs) == parse_tokens(handed(cs, ts)),
        handed(cs, ts).len() == ts.len(),
        forall|k: int| 0 <= k < ts.len() ==> (#[trigger] handed(cs, ts)[k]).0 == ts[k].0,
{
}

/// `n/d`, in lowest terms, divides out to itself.
proof fn lemma_quotient_value(n: int, d: int)
    requires
        canonical((n, d)),
    ensures
        rat_div_spec((n, 1int), (d, 1int)) == (n, d),
{
    lemma_canon(n * 1, 1 * d);
    lemma_canonical_unique(canon(n * 1, 1 * d), (n, d));
}

/// A non-negative integer's digits evaluate to it.
#[verifier::spinoff_prover]
proof fn lemma_refeed_natural(m: AngleMode, p: usize, r: (int, int), digits: nat)
    requires
        canonical(r),
        r.1 == 1,
        r.0 >= 0,
    ensures
        eval_str_spec(m, p, rat_refeed(r, digits)) == Ok::<NumV, EngineErrorV>(NumV::Rational(r)),
{
    let cs = rat_refeed(r, digits);
    let n = r.0;
    let d = r.1;
    let a = n as nat;
    let l = nat_dec(a).len() as int;
    assert(cs == nat_dec(a));
    assert(cs.subrange(0, l) =~= cs);
    lemma_scan_digits(cs, 0, a);
    let ts = seq![(TokenV::Number(nat_dec(a)), 0int, l)];
    assert(scan(cs, 0) == Ok::<Seq<(TokenV, int, int)>, int>(ts)) by {
        assert(seq![(TokenV::Number(nat_dec(a)), 0int, l)] + Seq::<(TokenV, int, int)>::empty()
            =~= ts);
    }
    lemma_handed(cs, ts);
    let t = handed(cs, ts);
    let e = ExprV::Number(nat_dec(a));
    assert(t[0].0 == TokenV::Number(nat_dec(a)));
    lemma_unary_number(t, 0, nat_dec(a));
    assert(p_mul_rest(t, e, 1) == Ok::<(ExprV, int), EngineErrorV>((e, 1)));
    assert(p_mul(t, 0) == Ok::<(ExprV, int), EngineErrorV>((e, 1)));
    assert(p_add_rest(t, e, 1) == Ok::<(ExprV, int), EngineErrorV>((e, 1)));
    assert(p_add(t, 0) == Ok::<(ExprV, int), EngineErrorV>((e, 1)));
    assert(parse_spec(cs) == Ok::<ExprV, EngineErrorV>(e));
    lemma_eval_digits(m, p, a);
}

/// `(-n)` evaluates to `-n`.
#[verifier::spinoff_prover]
proof fn lemma_refeed_negative_integer(m: AngleMode, p: usize, r: (int, int), digits: nat)
    requires
        canonical(r),
        r.1 == 1,
        r.0 < 0,
    ensures
        eval_str_spec(m, p, rat_refeed(r, digits)) == Ok::<NumV, EngineErrorV>(NumV::Rational(r)),
{
    let cs = rat_refeed(r, digits);
    let n = r.0;
    let d = r.1;
    let a = (-n) as nat;
    let da = nat_dec(a);
    let l = da.len() as int;
    assert(rat_display(r) == seq!['-'] + da);
    assert(cs == seq!['('] + (seq!['-'] + da) + seq![')']);
    assert(cs.len() == l + 3);
    assert(cs[0] == '(' && cs[1] == '-' && cs[l + 2] == ')');
    assert(cs.subrange(2, 2 + l) =~= da);
    lemma_scan_symbol(cs, l + 2);
    lemma_scan_digits(cs, 2, a);
    lemma_scan_symbol(cs, 1);
    lemma_scan_symbol(cs, 0);
    let ts = seq![
        (TokenV::LParen, 0int, 1int),
        (TokenV::Minus, 1int, 2int),
        (TokenV::Number(da), 2int, 2 + l),
        (TokenV::RParen, 2 + l, 3 + l),
    ];
    assert(scan(cs, l + 3) == Ok::<Seq<(TokenV, int, int)>, int>(Seq::empty()));
    assert(scan(cs, 0) == Ok::<Seq<(TokenV, int, int)>, int>(ts)) by {
        assert(seq![(TokenV::LParen, 0int, 1int)] + (seq![(TokenV::Minus, 1int, 2int)] + (
        seq![(TokenV::Number(da), 2int, 2 + l)] + (seq![(TokenV::RParen, 2 + l, 3 + l)]
            + Seq::<(TokenV, int, int)>::empty()))) =~= ts);
    }
    lemma_handed(cs, ts);
    let t = handed(cs, ts);
    assert(t[0].0 == TokenV::LParen && t[1].0 == TokenV::Minus && t[2].0 == TokenV::Number(da)
        && t[3].0 == TokenV::RParen);
    let e = ExprV::Negate(Box::new(ExprV::Number(da)));
    lemma_unary_negated(t, 1, da);
    lemma_add_single(t, 1, e, 3);
    lemma_parse_parenthesised(t, e);
    lemma_eval_digits(m, p, a);
    assert(eval_spec(m, p, e) == Ok::<NumV, EngineErrorV>(NumV::Rational((-(a as int), 1int))));
}

/// The numerator of a refeed fraction: its digits, negated when below zero.
spec fn signed_operand(n: int) -> ExprV {
    if n < 0 {
        ExprV::Negate(Box::new(ExprV::Number(nat_dec((-n) as nat))))
    } else {
        ExprV::Number(nat_dec(n as nat))
    }
}

spec fn fraction_expr(r: (int, int)) -> ExprV {
    bin(signed_operand(r.0), BinOp::Div, ExprV::Number(nat_dec(r.1 as nat)))
}

/// The tokens of `a/d)` from position `i` on.
spec fn quotient_tail(i: int, a: nat, d: nat) -> Seq<(TokenV, int, int)> {
    let la = nat_dec(a).len() as int;
    let lb = nat_dec(d).len() as int;
    seq![
        (TokenV::Number(nat_dec(a)), i, i + la),
        (TokenV::Div, i + la, i + la + 1),
        (TokenV::Number(nat_dec(d)), i + la + 1, i + la + 1 + lb),
        (TokenV::RParen, i + la + 1 + lb, i + la + 2 + lb),
    ]
}

/// Scanning `a/d)` at the end of the text.
proof fn lemma_scan_quotient(cs: Seq<char>, i: int, a: nat, d: nat)
    requires
        0 <= i,
        cs.len() == i + nat_dec(a).len() + nat_dec(d).len() + 2,
        cs.subrange(i, cs.len() as int) == nat_dec(a) + seq!['/'] + nat_dec(d) + seq![')'],
    ensures
        scan(cs, i) == Ok::<Seq<(TokenV, int, int)>, int>(quotient_tail(i, a, d)),
{
    let la = nat_dec(a).len() as int;
    let lb = nat_dec(d).len() as int;
    let w = nat_dec(a) + seq!['/'] + nat_dec(d) + seq![')'];
    assert(cs[i + la] == w[la]);
    assert(cs[i + la + 1 + lb] == w[la + 1 + lb]);
    assert(cs.subrange(i, i + la) =~= nat_dec(a)) by {
        assert forall|k: int| 0 <= k < la implies cs.subrange(i, i + la)[k] == nat_dec(a)[k] by {
            assert(cs[i + k] == w[k]);
        }
    }
    assert(cs.subrange(i + la + 1, i + la + 1 + lb) =~= nat_dec(d)) by {
        assert forall|k: int| 0 <= k < lb implies cs.subrange(i + la + 1, i + la + 1 + lb)[k]
            == nat_dec(d)[k] by {
            assert(cs[i + la + 1 + k] == w[la + 1 + k]);
        }
    }
    lemma_scan_symbol(cs, i + la + 1 + lb);
    lemma_scan_digits(cs, i + la + 1, d);
    lemma_scan_symbol(cs, i + la);
    lemma_scan_digits(cs, i, a);
    assert(scan(cs, i + la + 2 + lb) == Ok::<Seq<(TokenV, int, int)>, int>(Seq::empty()));
    assert(seq![(TokenV::Number(nat_dec(a)), i, i + la)] + (seq![(TokenV::Div, i + la, i + la + 1)]
        + (seq![(TokenV::Number(nat_dec(d)), i + la + 1, i + la + 1 + lb)] + (seq![
        (TokenV::RParen, i + la + 1 + lb, i + la + 2 + lb),
    ] + Seq::<(TokenV, int, int)>::empty()))) =~= quotient_tail(i, a, d));
}

/// `(n/d)` lexes as `(`, a number, `/`, a number, `)`.
#[verifier::spinoff_prover]
proof fn lemma_scan_positive_fraction(r: (int, int), digits: nat)
    requires
        decimal_places(r, 1, digits) is None,
        r.0 >= 0,
        r.1 > 1,
    ensures
        scan(rat_refeed(r, digits), 0) == Ok::<Seq<(TokenV, int, int)>, int>(
            seq![(TokenV::LParen, 0int, 1int)] + quotient_tail(1, r.0 as nat, r.1 as nat),
        ),
{
    let cs = rat_refeed(r, digits);
    let a = r.0 as nat;
    let d = r.1 as nat;
    let w = nat_dec(a) + seq!['/'] + nat_dec(d) + seq![')'];
    assert(int_dec(r.0) == nat_dec(a));
    assert(rat_display(r) == nat_dec(a) + seq!['/'] + nat_dec(d));
    assert(cs =~= seq!['('] + w);
    assert(cs.subrange(1, cs.len() as int) =~= w);
    lemma_scan_quotient(cs, 1, a, d);
    lemma_scan_symbol(cs, 0);
}

/// `(-n/d)` lexes as `(`, `-`, a number, `/`, a number, `)`.
#[verifier::spinoff_prover]
proof fn lemma_scan_negative_fraction(r: (int, int), digits: nat)
    requires
        decimal_places(r, 1, digits) is None,
        r.0 < 0,
        r.1 > 1,
    ensures
        scan(rat_refeed(r, digits), 0) == Ok::<Seq<(TokenV, int, int)>, int>(
            seq![(TokenV::LParen, 0int, 1int), (TokenV::Minus, 1int, 2int)] + quotient_tail(
                2,
                (-r.0) as nat,
                r.1 as nat,
            ),
        ),
{
    let cs = rat_refeed(r, digits);
    let a = (-r.0) as nat;
    let d = r.1 as nat;
    let w = nat_dec(a) + seq!['/'] + nat_dec(d) + seq![')'];
    assert(int_dec(r.0) == seq!['-'] + nat_dec(a));
    assert(rat_display(r) == seq!['-'] + nat_dec(a) + seq!['/'] + nat_dec(d));
    assert(cs =~= seq!['(', '-'] + w);
    assert(cs.subrange(2, cs.len() as int) =~= w);
    lemma_scan_quotient(cs, 2, a, d);
    lemma_scan_symbol(cs, 1);
    lemma_scan_symbol(cs, 0);
    assert(seq![(TokenV::LParen, 0int, 1int)] + (seq![(TokenV::Minus, 1int, 2int)] + quotient_tail(
        2,
        a,
        d,
    )) =~= seq![(TokenV::LParen, 0int, 1int), (TokenV::Minus, 1int, 2int)] + quotient_tail(
        2,
        a,
        d,
    ));
}

/// `(n/d)` parses as the quotient of two numbers.
proof fn lemma_parse_positive_fraction(r: (int, int), digits: nat)
    requires
        decimal_places(r, 1, digits) is None,
        r.0 >= 0,
        r.1 > 1,
    ensures
        parse_spec(rat_refeed(r, digits)) == Ok::<ExprV, EngineErrorV>(fraction_expr(r)),
{
    let cs = rat_refeed(r, digits);
    let a = r.0 as nat;
    let d = r.1 as nat;
    lemma_scan_positive_fraction(r, digits);
    let ts = seq![(TokenV::LParen, 0int, 1int)] + quotient_tail(1, a, d);
    lemma_handed(cs, ts);
    let t = handed(cs, ts);
    assert(t[0].0 == ts[0].0 && t[1].0 == ts[1].0 && t[2].0 == ts[2].0 && t[3].0 == ts[3].0
        && t[4].0 == ts[4].0);
    lemma_unary_number(t, 1, nat_dec(a));
    lemma_add_quotient(t, 1, signed_operand(r.0), 2, nat_dec(d));
    lemma_parse_parenthesised(t, fraction_expr(r));
}

/// `(-n/d)` parses as the quotient of a negated number and a number.
proof fn lemma_parse_negative_fraction(r: (int, int), digits: nat)
    requires
        decimal_places(r, 1, digits) is None,
        r.0 < 0,
        r.1 > 1,
    ensures
        parse_spec(rat_refeed(r, digits)) == Ok::<ExprV, EngineErrorV>(fraction_expr(r)),
{
    let cs = rat_refeed(r, digits);
    let a = (-r.0) as nat;
    let d = r.1 as nat;
    lemma_scan_negative_fraction(r, digits);
    let ts = seq![(TokenV::LParen, 0int, 1int), (TokenV::Minus, 1int, 2int)] + quotient_tail(
        2,
        a,
        d,
    );
    lemma_handed(cs, ts);
    let t = handed(cs, ts);
    assert(t[0].0 == ts[0].0 && t[1].0 == ts[1].0 && t[2].0 == ts[2].0 && t[3].0 == ts[3].0
        && t[4].0 == ts[4].0 && t[5].0 == ts[5].0);
    lemma_unary_negated(t, 1, nat_dec(a));
    lemma_add_quotient(t, 1, signed_operand(r.0), 3, nat_dec(d));
    lemma_parse_parenthesised(t, fraction_expr(r));
}

/// The parsed fraction evaluates to the rational.
proof fn lemma_eval_fraction(m: AngleMode, p: usize, r: (int, int))
    requires
        canonical(r),
        r.1 > 1,
    ensures
        eval_spec(m, p, fraction_expr(r)) == Ok::<NumV, EngineErrorV>(NumV::Rational(r)),
{
    let n = r.0;
    let d = r.1;
    if n < 0 {
        lemma_eval_digits(m, p, (-n) as nat);
    } else {
        lemma_eval_digits(m, p, n as nat);
    }
    lemma_eval_digits(m, p, d as nat);
    assert(eval_spec(m, p, signed_operand(n)) == Ok::<NumV, EngineErrorV>(
        NumV::Rational((n, 1int)),
    ));
    lemma_quotient_value(n, d);
    assert(eval_spec(m, p, fraction_expr(r)) == binop_values(
        BinOp::Div,
        NumV::Rational((n, 1int)),
        NumV::Rational((d, 1int)),
        p as int,
    ));
}

// --- decimals ---------------------------------------------------------------

proof fn lemma_decimal_places(r: (int, int), from: nat, digits: nat)
    ensures
        decimal_places(r, from, digits) matches Some(k) ==> from <= k <= digits
            && scaled_magnitude(r, k).1 == 1,
    decreases digits + 1 - from,
{
    if from <= digits && scaled_magnitude(r, from).1 != 1 {
        lemma_decimal_places(r, from + 1, digits);
    }
}

/// Zeros in front keep the digits and their value.
proof fn lemma_pad_zeros(s: Seq<char>, w: nat)
    requires
        digit_chars(s),
    ensures
        pad_zeros(s, w).len() >= w,
        pad_zeros(s, w).len() >= s.len(),
        digit_chars(pad_zeros(s, w)),
        digits_val(pad_zeros(s, w)) == digits_val(s),
    decreases w - s.len(),
{
    if s.len() < w {
        let z = seq!['0'] + s;
        assert(digit_chars(z)) by {
            assert forall|k: int| 0 <= k < z.len() implies '0' <= #[trigger] z[k] <= '9' by {
                if k > 0 {
                    assert(z[k] == s[k - 1]);
                }
            }
        }
        lemma_leading_zero(s);
        lemma_pad_zeros(z, w);
    }
}

/// A leading zero does not change the value of a digit string.
proof fn lemma_leading_zero(s: Seq<char>)
    requires
        digit_chars(s),
    ensures
        digits_val(seq!['0'] + s) == digits_val(s),
    decreases s.len(),
{
    let z = seq!['0'] + s;
    if s.len() == 0 {
        assert(z =~= seq!['0']);
        assert(z.drop_last() =~= Seq::<char>::empty());
        assert(digits_val(z) == digits_val(z.drop_last()) * 10 + (z.last() as int - 48));
    } else {
        assert(digit_chars(s.drop_last())) by {
            assert forall|j: int| 0 <= j < s.drop_last().len() implies '0' <= #[trigger] s.drop_last()[j] <= '9' by {
                assert(s.drop_last()[j] == s[j]);
            }
        }
        assert('0' <= s.last() <= '9') by {
            assert(s.last() == s[s.len() - 1]);
        }
        lemma_leading_zero(s.drop_last());
        assert(z.drop_last() =~= seq!['0'] + s.drop_last());
        assert(z.last() == s.last());
        assert(digits_val(z) == digits_val(z.drop_last()) * 10 + (z.last() as int - 48));
        assert(digits_val(s) == digits_val(s.drop_last()) * 10 + (s.last() as int - 48));
    }
}

/// The parts of `point_text(m, k)` around its point.
proof fn lemma_point_text(m: nat, k: nat)
    requires
        k >= 1,
    ensures
        ({
            let w = pad_zeros(nat_dec(m), k + 1);
            let i = w.take(w.len() - k);
            let f = w.skip(w.len() - k);
            &&& point_text(m, k) == i + seq!['.'] + f
            &&& i.len() >= 1
            &&& f.len() == k
            &&& digit_chars(i)
            &&& digit_chars(f)
            &&& digits_val(i + f) == m
        }),
{
    lemma_nat_dec(m);
    lemma_pad_zeros(nat_dec(m), k + 1);
    let w = pad_zeros(nat_dec(m), k + 1);
    let i = w.take(w.len() - k);
    let f = w.skip(w.len() - k);
    assert(i + f =~= w);
    assert forall|j: int| 0 <= j < i.len() implies '0' <= #[trigger] i[j] <= '9' by {
        assert(i[j] == w[j]);
    }
    assert forall|j: int| 0 <= j < f.len() implies '0' <= #[trigger] f[j] <= '9' by {
        assert(f[j] == w[w.len() - k + j]);
    }
}

/// Scanning at `digits.digits` followed by `)` or the end takes one number.
proof fn lemma_scan_point(cs: Seq<char>, i: int, mid: int, j: int)
    requires
        0 <= i < mid,
        mid + 1 < j <= cs.len(),
        forall|k: int| i <= k < mid ==> is_digit(#[trigger] cs[k]),
        cs[mid] == '.',
        forall|k: int| mid < k < j ==> is_digit(#[trigger] cs[k]),
        j == cs.len() || cs[j] == ')',
    ensures
        scan(cs, i) == prepend_tokens(
            seq![(TokenV::Number(cs.subrange(i, j)), i, j)],
            scan(cs, j),
        ),
{
    assert(is_digit(cs[i]));
    lemma_digits_end(cs, i, mid);
    lemma_digits_end(cs, mid + 1, j);
    assert(token_at(cs, i) == Some((TokenV::Number(cs.subrange(i, j)), j)));
}

/// The decimal text lexes as one number spanning `[i, i + |text|)`.
proof fn lemma_scan_point_text(cs: Seq<char>, i: int, m: nat, k: nat)
    requires
        k >= 1,
        0 <= i,
        i + point_text(m, k).len() <= cs.len(),
        cs.subrange(i, i + point_text(m, k).len()) == point_text(m, k),
        i + point_text(m, k).len() == cs.len() || cs[i + point_text(m, k).len()] == ')',
    ensures
        scan(cs, i) == prepend_tokens(
            seq![(TokenV::Number(point_text(m, k)), i, i + point_text(m, k).len())],
            scan(cs, i + point_text(m, k).len()),
        ),
{
    lemma_point_text(m, k);
    let w = pad_zeros(nat_dec(m), k + 1);
    let a = w.take(w.len() - k);
    let f = w.skip(w.len() - k);
    let t = point_text(m, k);
    let mid = i + a.len();
    let j = i + t.len();
    assert forall|q: int| i <= q < mid implies is_digit(#[trigger] cs[q]) by {
        assert(cs[q] == t[q - i]);
        assert(t[q - i] == a[q - i]);
    }
    assert(cs[mid] == t[a.len() as int]);
    assert forall|q: int| mid < q < j implies is_digit(#[trigger] cs[q]) by {
        assert(cs[q] == t[q - i]);
        assert(t[q - i] == f[q - i - a.len() - 1]);
    }
    lemma_scan_point(cs, i, mid, j);
}

/// `|r|·10^k` is at least zero; written `(m, 1)` it has `m·d = |n|·10^k`.
proof fn lemma_scaled_nonneg(r: (int, int), k: nat)
    requires
        r.1 > 0,
    ensures
        scaled_magnitude(r, k).1 == 1 ==> scaled_magnitude(r, k).0 >= 0 && scaled_magnitude(
            r,
            k,
        ).0 * r.1 == abs(r.0) * pow(10, k),
{
    let a = abs(r.0) as int;
    let d = r.1;
    crate::laws::lemma_ten_pow(k);
    let tk = pow(10, k);
    let sm = scaled_magnitude(r, k);
    lemma_canon(a * tk, d * 1);
    if sm.1 == 1 {
        assert(sm.0 * (d * 1) == (a * tk) * 1);
        assert(sm.0 * d == a * tk);
        assert(a * tk >= 0) by (nonlinear_arith)
            requires
                a >= 0,
                tk > 0,
        ;
        assert(sm.0 >= 0) by (nonlinear_arith)
            requires
                sm.0 * d >= 0,
                d > 0,
        ;
    }
}

/// The decimal text reads as `|n|/d` when it holds `|n|·10^k / d` with `k`
/// places.
#[verifier::spinoff_prover]
proof fn lemma_point_value(r: (int, int), k: nat)
    requires
        canonical(r),
        k >= 1,
        scaled_magnitude(r, k).1 == 1,
    ensures
        parse_decimal_spec(point_text(scaled_magnitude(r, k).0 as nat, k)) == Ok::<
            (int, int),
            EngineErrorV,
        >((abs(r.0) as int, r.1)),
{
    let a = abs(r.0) as int;
    let d = r.1;
    crate::laws::lemma_ten_pow(k);
    let tk = pow(10, k);
    let sm = scaled_magnitude(r, k);
    lemma_scaled_nonneg(r, k);
    let big = sm.0 as nat;
    lemma_point_text(big, k);
    let w = pad_zeros(nat_dec(big), k + 1);
    let i = w.take(w.len() - k);
    let f = w.skip(w.len() - k);
    law_decimal_literal_exact(i, f);
    let rr = parse_decimal_spec(point_text(big, k))->Ok_0;
    assert(rr.0 * tk == big * rr.1);
    assert(rr.0 * d == a * rr.1) by (nonlinear_arith)
        requires
            rr.0 * tk == big * rr.1,
            big * d == a * tk,
            tk > 0,
    ;
    assert(canonical((a, d)));
    lemma_canonical_unique(rr, (a, d));
}

/// A decimal refeed text parses to its number, negated in `(-…)`.
spec fn decimal_expr(r: (int, int), digits: nat) -> ExprV {
    let k = decimal_places(r, 1, digits)->Some_0;
    let x = ExprV::Number(point_text(scaled_magnitude(r, k).0 as nat, k));
    if r.0 < 0 {
        ExprV::Negate(Box::new(x))
    } else {
        x
    }
}

#[verifier::spinoff_prover]
#[verifier::rlimit(40)]
proof fn lemma_parse_negative_decimal(r: (int, int), digits: nat)
    requires
        canonical(r),
        r.1 != 1,
        r.0 < 0,
        decimal_places(r, 1, digits) is Some,
    ensures
        parse_spec(rat_refeed(r, digits)) == Ok::<ExprV, EngineErrorV>(decimal_expr(r, digits)),
{
    let k = decimal_places(r, 1, digits)->Some_0;
    lemma_decimal_places(r, 1, digits);
    let big = scaled_magnitude(r, k).0 as nat;
    let t = point_text(big, k);
    let l = t.len() as int;
    let cs = rat_refeed(r, digits);
    let x = ExprV::Number(t);
    assert(cs == seq!['(', '-'] + t + seq![')']);
    assert(cs[0] == '(' && cs[1] == '-' && cs[l + 2] == ')');
    assert(cs.subrange(2, 2 + l) =~= t);
    lemma_scan_symbol(cs, l + 2);
    lemma_scan_point_text(cs, 2, big, k);
    lemma_scan_symbol(cs, 1);
    lemma_scan_symbol(cs, 0);
    let ts = seq![
        (TokenV::LParen, 0int, 1int),
        (TokenV::Minus, 1int, 2int),
        (TokenV::Number(t), 2int, 2 + l),
        (TokenV::RParen, 2 + l, 3 + l),
    ];
    assert(scan(cs, l + 3) == Ok::<Seq<(TokenV, int, int)>, int>(Seq::empty()));
    assert(scan(cs, 0) == Ok::<Seq<(TokenV, int, int)>, int>(ts)) by {
        assert(seq![(TokenV::LParen, 0int, 1int)] + (seq![(TokenV::Minus, 1int, 2int)] + (
        seq![(TokenV::Number(t), 2int, 2 + l)] + (seq![(TokenV::RParen, 2 + l, 3 + l)]
            + Seq::<(TokenV, int, int)>::empty()))) =~= ts);
    }
    lemma_handed(cs, ts);
    let tk = handed(cs, ts);
    assert(tk[0].0 == ts[0].0 && tk[1].0 == ts[1].0 && tk[2].0 == ts[2].0 && tk[3].0
        == ts[3].0);
    let e = ExprV::Negate(Box::new(x));
    lemma_unary_negated(tk, 1, t);
    lemma_add_single(tk, 1, e, 3);
    lemma_parse_parenthesised(tk, e);
}

#[verifier::spinoff_prover]
proof fn lemma_parse_positive_decimal(r: (int, int), digits: nat)
    requires
        canonical(r),
        r.1 != 1,
        r.0 >= 0,
        decimal_places(r, 1, digits) is Some,
    ensures
        parse_spec(rat_refeed(r, digits)) == Ok::<ExprV, EngineErrorV>(decimal_expr(r, digits)),
{
    let k = decimal_places(r, 1, digits)->Some_0;
    lemma_decimal_places(r, 1, digits);
    let big = scaled_magnitude(r, k).0 as nat;
    let t = point_text(big, k);
    let l = t.len() as int;
    let cs = rat_refeed(r, digits);
    let x = ExprV::Number(t);
    assert(cs == t);
    assert(cs.subrange(0, l) =~= cs);
    lemma_scan_point_text(cs, 0, big, k);
    let ts = seq![(TokenV::Number(t), 0int, l)];
    assert(scan(cs, 0) == Ok::<Seq<(TokenV, int, int)>, int>(ts)) by {
        assert(seq![(TokenV::Number(t), 0int, l)] + Seq::<(TokenV, int, int)>::empty() =~= ts);
    }
    lemma_handed(cs, ts);
    let tk = handed(cs, ts);
    assert(tk[0].0 == TokenV::Number(t));
    lemma_unary_number(tk, 0, t);
    assert(p_mul_rest(tk, x, 1) == Ok::<(ExprV, int), EngineErrorV>((x, 1)));
    assert(p_mul(tk, 0) == Ok::<(ExprV, int), EngineErrorV>((x, 1)));
    assert(p_add_rest(tk, x, 1) == Ok::<(ExprV, int), EngineErrorV>((x, 1)));
    assert(p_add(tk, 0) == Ok::<(ExprV, int), EngineErrorV>((x, 1)));
}

/// A decimal refeed text evaluates to the rational.
proof fn lemma_refeed_decimal(m: AngleMode, p: usize, r: (int, int), digits: nat)
    requires
        canonical(r),
        r.1 != 1,
        decimal_places(r, 1, digits) is Some,
    ensures
        eval_str_spec(m, p, rat_refeed(r, digits)) == Ok::<NumV, EngineErrorV>(NumV::Rational(r)),
{
    let k = decimal_places(r, 1, digits)->Some_0;
    lemma_decimal_places(r, 1, digits);
    lemma_point_value(r, k);
    let x = ExprV::Number(point_text(scaled_magnitude(r, k).0 as nat, k));
    assert(eval_spec(m, p, x) == Ok::<NumV, EngineErrorV>(
        NumV::Rational((abs(r.0) as int, r.1)),
    ));
    if r.0 < 0 {
        lemma_parse_negative_decimal(r, digits);
    } else {
        lemma_parse_positive_decimal(r, digits);
    }
}

/// Evaluating the refeed text of a rational in lowest terms gives that
/// rational back, in either angle mode and at any precision.
pub proof fn law_refeed_round_trip(m: AngleMode, p: usize, r: (int, int), digits: usize)
    requires
        canonical(r),
    ensures
        eval_str_spec(m, p, refeed_spec(NumV::Rational(r), digits)) == Ok::<NumV, EngineErrorV>(
            NumV::Rational(r),
        ),
{
    if r.1 == 1 && r.0 >= 0 {
        lemma_refeed_natural(m, p, r, digits as nat);
    } else if r.1 == 1 {
        lemma_refeed_negative_integer(m, p, r, digits as nat);
    } else if decimal_places(r, 1, digits as nat) is None {
        if r.0 < 0 {
            lemma_parse_negative_fraction(r, digits as nat);
        } else {
            lemma_parse_positive_fraction(r, digits as nat);
        }
        lemma_eval_fraction(m, p, r);
    } else {
        lemma_refeed_decimal(m, p, r, digits as nat);
    }
}

} // verus!
