//! Properties of the lexer that hold for every source text: token spans are
//! non-empty, ordered and disjoint, a number token's text is the source
//! under its span, everything between tokens is whitespace, and an error
//! names a character at which no token starts.
use vstd::prelude::*;
use vstd::utf8::encode_utf8;
use crate::error::EngineErrorV;
use crate::lexer::{
    TokenV, scan, token_at, is_skipped, byte_offset, tokenize_spec, digits_end, digit_at,
    mantissa_end, exponent_end, number_end, word_token, char_at,
};

verus! {

/// Character spans `ts` scanned from index `i` of `cs`: inside `[i, len]`,
/// non-empty, in order; a number token's text is its span's characters;
/// every character at or after `i` outside all spans is whitespace.
pub open spec fn spans_well_formed(cs: Seq<char>, ts: Seq<(TokenV, int, int)>, i: int) -> bool {
    &&& forall|k: int| 0 <= k < ts.len() ==> i <= #[trigger] ts[k].1 < ts[k].2 <= cs.len()
    &&& forall|k: int| #![trigger ts[k]] 0 <= k < ts.len() - 1 ==> ts[k].2 <= ts[k + 1].1
    &&& forall|k: int|
        0 <= k < ts.len() && (#[trigger] ts[k]).0 is Number ==> ts[k].0->Number_0 == cs.subrange(
            ts[k].1,
            ts[k].2,
        )
    &&& forall|j: int|
        i <= j < cs.len() && (forall|k: int| 0 <= k < ts.len() ==> !(#[trigger] ts[k].1 <= j < ts[k].2))
            ==> is_skipped(#[trigger] cs[j])
}

#[verifier::spinoff_prover]
#[verifier::rlimit(40)]
proof fn lemma_scan_spans(cs: Seq<char>, i: int)
    requires
        0 <= i,
    ensures
        scan(cs, i) matches Ok(ts) ==> spans_well_formed(cs, ts, i),
    decreases cs.len() - i,
{
    if i >= cs.len() {
    } else if is_skipped(cs[i]) {
        lemma_scan_spans(cs, i + 1);
    } else {
        match token_at(cs, i) {
            None => {},
            Some((t, j)) => {
                if i < j <= cs.len() {
                    lemma_scan_spans(cs, j);
                    match scan(cs, j) {
                        Ok(rest) => {
                            let ts = seq![(t, i, j)] + rest;
                            assert(scan(cs, i) == Ok::<Seq<(TokenV, int, int)>, int>(ts));
                            assert forall|k: int| 1 <= k < ts.len() implies ts[k] == rest[k - 1] by {}
                            assert(ts[0] == (t, i, j));
                            assert(t is Number ==> t->Number_0 == cs.subrange(i, j));
                            assert forall|k: int| #![trigger ts[k]] 0 <= k < ts.len() - 1 implies ts[k].2
                                <= ts[k + 1].1 by {
                                if k > 0 {
                                    assert(ts[k] == rest[k - 1]);
                                    assert(ts[k + 1] == rest[k]);
                                } else if rest.len() > 0 {
                                    assert(ts[1] == rest[0]);
                                }
                            }
                            assert forall|q: int|
                                i <= q < cs.len() && (forall|k: int|
                                    0 <= k < ts.len() ==> !(#[trigger] ts[k].1 <= q < ts[k].2))
                                    implies is_skipped(#[trigger] cs[q]) by {
                                assert(!(ts[0].1 <= q < ts[0].2));
                                assert forall|k: int| 0 <= k < rest.len() implies !(
                                    #[trigger] rest[k].1 <= q < rest[k].2) by {
                                    assert(ts[k + 1] == rest[k]);
                                }
                            }
                        },
                        Err(_) => {},
                    }
                }
            },
        }
    }
}

proof fn lemma_byte_offset_strict(cs: Seq<char>, a: int, b: int)
    requires
        0 <= a < b <= cs.len(),
    ensures
        byte_offset(cs, a) < byte_offset(cs, b),
    decreases b - a,
{
    assert(cs.take(b) =~= cs.take(b - 1) + seq![cs[b - 1]]);
    crate::lexer::lemma_encode_utf8_append(cs.take(b - 1), seq![cs[b - 1]]);
    assert(seq![cs[b - 1]].drop_first() =~= Seq::<char>::empty());
    assert(encode_utf8(seq![cs[b - 1]]).len() >= 1);
    if a < b - 1 {
        lemma_byte_offset_strict(cs, a, b - 1);
    }
}

/// Token spans are non-empty, in order and disjoint, and end within the
/// source's bytes; each number token's text is the source's characters
/// under its span; every character outside all spans is a space, tab, CR
/// or LF.
#[verifier::spinoff_prover]
#[verifier::rlimit(40)]
pub proof fn law_token_spans(src: Seq<char>)
    ensures
        tokenize_spec(src) matches Ok(v) ==> {
            &&& forall|k: int|
                0 <= k < v.len() ==> 0 <= #[trigger] v[k].1 < v[k].2 <= byte_offset(src, src.len() as int)
            &&& forall|k: int| #![trigger v[k]] 0 <= k < v.len() - 1 ==> v[k].2 <= v[k + 1].1
        },
        scan(src, 0) matches Ok(ts) ==> spans_well_formed(src, ts, 0),
{
    lemma_scan_spans(src, 0);
    match scan(src, 0) {
        Ok(ts) => {
            let v = tokenize_spec(src)->Ok_0;
            assert(v.len() == ts.len());
            assert forall|k: int| 0 <= k < v.len() implies 0 <= #[trigger] v[k].1 < v[k].2
                <= byte_offset(src, src.len() as int) by {
                assert(v[k].1 == byte_offset(src, ts[k].1));
                assert(v[k].2 == byte_offset(src, ts[k].2));
                lemma_byte_offset_strict(src, ts[k].1, ts[k].2);
                crate::lexer::lemma_byte_offset_mono(src, ts[k].2, src.len() as int);
                crate::lexer::lemma_byte_offset_mono(src, 0, ts[k].1);
            }
            assert forall|k: int| #![trigger v[k]] 0 <= k < v.len() - 1 implies v[k].2 <= v[k
                + 1].1 by {
                assert(ts[k].2 <= ts[k + 1].1);
                assert(v[k].2 == byte_offset(src, ts[k].2));
                assert(v[k + 1].1 == byte_offset(src, ts[k + 1].1));
                crate::lexer::lemma_byte_offset_mono(src, ts[k].2, ts[k + 1].1);
            }
        },
        Err(_) => {},
    }
}

proof fn lemma_scan_error(cs: Seq<char>, i: int)
    requires
        0 <= i,
    ensures
        scan(cs, i) matches Err(p) ==> i <= p < cs.len() && !is_skipped(cs[p]) && !(token_at(
            cs,
            p,
        ) matches Some((_, j)) && p < j <= cs.len()),
    decreases cs.len() - i,
{
    if i < cs.len() {
        if is_skipped(cs[i]) {
            lemma_scan_error(cs, i + 1);
        } else {
            match token_at(cs, i) {
                Some((t, j)) => {
                    if i < j <= cs.len() {
                        lemma_scan_error(cs, j);
                    }
                },
                None => {},
            }
        }
    }
}

/// A lexing error names a character of the source: the character at some
/// index `p`, not whitespace, at which no token of positive length starts,
/// reported at the byte offset of `p` (a character boundary inside the
/// text).
pub proof fn law_lex_error(src: Seq<char>)
    ensures
        scan(src, 0) matches Err(p) ==> 0 <= p < src.len() && !is_skipped(src[p]) && !(token_at(
            src,
            p,
        ) matches Some((_, j)) && p < j <= src.len()) && tokenize_spec(src) == Err::<
            Seq<(TokenV, int, int)>,
            EngineErrorV,
        >(EngineErrorV::UnexpectedChar { pos: byte_offset(src, p) as usize, ch: src[p] })
            && byte_offset(src, p) < byte_offset(src, src.len() as int),
{
    lemma_scan_error(src, 0);
    match scan(src, 0) {
        Err(p) => {
            if 0 <= p < src.len() {
                lemma_byte_offset_strict(src, p, src.len() as int);
            }
        },
        Ok(_) => {},
    }
}

// ---------------------------------------------------------------------------
// Tokens read the same within a window of the text
// ---------------------------------------------------------------------------

proof fn lemma_digits_end_ge(cs: Seq<char>, i: int)
    ensures
        digits_end(cs, i) >= i,
        digit_at(cs, i) ==> digits_end(cs, i) > i && digits_end(cs, i) <= cs.len(),
    decreases cs.len() - i,
{
    if digit_at(cs, i) {
        lemma_digits_end_ge(cs, i + 1);
    }
}

proof fn lemma_digits_end_window(cs: Seq<char>, lo: int, hi: int, i: int)
    requires
        0 <= lo <= i <= hi <= cs.len(),
        digits_end(cs, i) <= hi,
    ensures
        digits_end(cs.subrange(lo, hi), i - lo) == digits_end(cs, i) - lo,
    decreases cs.len() - i,
{
    let w = cs.subrange(lo, hi);
    lemma_digits_end_ge(cs, i);
    if digit_at(cs, i) {
        lemma_digits_end_ge(cs, i + 1);
        assert(w[i - lo] == cs[i]);
        lemma_digits_end_window(cs, lo, hi, i + 1);
        assert(i - lo + 1 == (i + 1) - lo);
    } else {
        if i < hi {
            assert(w[i - lo] == cs[i]);
        }
    }
}

proof fn lemma_exponent_end_ge(cs: Seq<char>, j: int)
    ensures
        exponent_end(cs, j) >= j,
{
    if char_at(cs, j) == Some('e') || char_at(cs, j) == Some('E') {
        let k = if char_at(cs, j + 1) == Some('+') || char_at(cs, j + 1) == Some('-') {
            j + 2
        } else {
            j + 1
        };
        lemma_digits_end_ge(cs, k);
    }
}

#[verifier::spinoff_prover]
#[verifier::rlimit(40)]
proof fn lemma_exponent_window(cs: Seq<char>, lo: int, hi: int, j: int)
    requires
        0 <= lo <= j <= hi <= cs.len(),
        exponent_end(cs, j) <= hi,
    ensures
        exponent_end(cs.subrange(lo, hi), j - lo) == exponent_end(cs, j) - lo,
{
    let w = cs.subrange(lo, hi);
    assert(forall|k: int| 0 <= k < w.len() ==> #[trigger] w[k] == cs[k + lo]);
    if char_at(cs, j) == Some('e') || char_at(cs, j) == Some('E') {
        let k = if char_at(cs, j + 1) == Some('+') || char_at(cs, j + 1) == Some('-') {
            j + 2
        } else {
            j + 1
        };
        lemma_digits_end_ge(cs, k);
        if digit_at(cs, k) {
            // Taken: the whole exponent lies inside the window.
            assert(k < hi);
            assert(w[j - lo] == cs[j]);
            assert(w[j + 1 - lo] == cs[j + 1]);
            assert(w[k - lo] == cs[k]);
            lemma_digits_end_window(cs, lo, hi, k);
        } else {
            if j < hi {
                assert(w[j - lo] == cs[j]);
                if j + 1 < hi {
                    assert(w[j + 1 - lo] == cs[j + 1]);
                }
                if k < hi {
                    assert(w[k - lo] == cs[k]);
                }
            }
        }
    } else {
        if j < hi {
            assert(w[j - lo] == cs[j]);
        }
    }
}

#[verifier::spinoff_prover]
#[verifier::rlimit(40)]
proof fn lemma_mantissa_window(cs: Seq<char>, lo: int, hi: int, i: int)
    requires
        0 <= lo <= i < hi <= cs.len(),
    ensures
        mantissa_end(cs, i) is None ==> mantissa_end(cs.subrange(lo, hi), i - lo) is None,
        match mantissa_end(cs, i) {
            Some(me) => me > i && (me <= hi ==> mantissa_end(cs.subrange(lo, hi), i - lo) == Some(
                me - lo,
            )),
            None => true,
        },
{
    let w = cs.subrange(lo, hi);
    assert(forall|k: int| 0 <= k < w.len() ==> #[trigger] w[k] == cs[k + lo]);
    assert(w[i - lo] == cs[i]);
    if i + 1 < hi {
        assert(w[i + 1 - lo] == cs[i + 1]);
    }
    lemma_digits_end_ge(cs, i);
    lemma_digits_end_ge(cs, i + 1);
    if digit_at(cs, i) {
        let d = digits_end(cs, i);
        lemma_digits_end_ge(cs, d + 1);
        if d <= hi {
            lemma_digits_end_window(cs, lo, hi, i);
            if d < hi {
                assert(w[d - lo] == cs[d]);
            }
            if char_at(cs, d) == Some('.') && digits_end(cs, d + 1) <= hi {
                lemma_digits_end_window(cs, lo, hi, d + 1);
            }
        }
    } else if char_at(cs, i) == Some('.') && digit_at(cs, i + 1) {
        if digits_end(cs, i + 1) <= hi {
            lemma_digits_end_window(cs, lo, hi, i + 1);
        }
    }
}

#[verifier::spinoff_prover]
#[verifier::rlimit(40)]
proof fn lemma_word_window(cs: Seq<char>, lo: int, hi: int, i: int)
    requires
        0 <= lo <= i < hi <= cs.len(),
    ensures
        match word_token(cs, i) {
            Some((t, n)) => i + n <= hi ==> word_token(cs.subrange(lo, hi), i - lo) == Some((t, n)),
            None => true,
        },
{
    let w = cs.subrange(lo, hi);
    let i2 = i - lo;
    assert forall|d: int| 0 <= d < 6 && i + d < hi implies #[trigger] w[i2 + d] == cs[i + d] by {}
    assert forall|d: int| 0 <= d < 6 && i + d >= hi implies !(0 <= #[trigger] (i2 + d) < w.len()) by {}
}

/// A token that ends inside `[lo, hi)` reads the same in the window
/// `cs[lo..hi]`, at the shifted position.
#[verifier::spinoff_prover]
#[verifier::rlimit(40)]
proof fn lemma_token_window(cs: Seq<char>, lo: int, hi: int, i: int)
    requires
        0 <= lo <= i < hi <= cs.len(),
        token_at(cs, i) matches Some((_, j)) && i < j <= hi,
    ensures
        token_at(cs.subrange(lo, hi), i - lo) == (match token_at(cs, i) {
            Some((t, j)) => Some((t, j - lo)),
            None => None::<(TokenV, int)>,
        }),
{
    let w = cs.subrange(lo, hi);
    let i2 = i - lo;
    assert(w[i2] == cs[i]);
    lemma_mantissa_window(cs, lo, hi, i);
    lemma_word_window(cs, lo, hi, i);
    match mantissa_end(cs, i) {
        Some(me) => {
            lemma_exponent_end_ge(cs, me);
            lemma_exponent_window(cs, lo, hi, me);
            let e = exponent_end(cs, me);
            assert(w.subrange(i2, e - lo) =~= cs.subrange(i, e));
        },
        None => {},
    }
}

#[verifier::spinoff_prover]
#[verifier::rlimit(40)]
proof fn lemma_scan_prefix(cs: Seq<char>, p: int, i: int)
    requires
        0 <= i,
        scan(cs, i) == Err::<Seq<(TokenV, int, int)>, int>(p),
    ensures
        scan(cs.take(p), i) is Ok,
    decreases cs.len() - i,
{
    lemma_scan_error(cs, i);
    let w = cs.take(p);
    assert(w =~= cs.subrange(0, p));
    if i >= p {
    } else {
        assert(w[i] == cs[i]);
        if is_skipped(cs[i]) {
            lemma_scan_prefix(cs, p, i + 1);
        } else {
            let (t, j) = token_at(cs, i)->Some_0;
            lemma_scan_error(cs, j);
            lemma_token_window(cs, 0, p, i);
            lemma_scan_prefix(cs, p, j);
        }
    }
}

#[verifier::spinoff_prover]
#[verifier::rlimit(40)]
proof fn lemma_scan_tokens(cs: Seq<char>, i: int)
    requires
        0 <= i,
    ensures
        scan(cs, i) matches Ok(ts) ==> forall|k: int|
            0 <= k < ts.len() ==> token_at(cs, (#[trigger] ts[k]).1) == Some((ts[k].0, ts[k].2))
                && !is_skipped(cs[ts[k].1]),
    decreases cs.len() - i,
{
    if i < cs.len() {
        if is_skipped(cs[i]) {
            lemma_scan_tokens(cs, i + 1);
        } else {
            match token_at(cs, i) {
                Some((t, j)) => {
                    if i < j <= cs.len() {
                        lemma_scan_tokens(cs, j);
                        match scan(cs, j) {
                            Ok(rest) => {
                                let ts = seq![(t, i, j)] + rest;
                                assert forall|k: int| 1 <= k < ts.len() implies ts[k] == rest[k
                                    - 1] by {}
                            },
                            Err(_) => {},
                        }
                    }
                },
                None => {},
            }
        }
    }
}

/// Lexing stops at the first bad character: the text before it lexes
/// without error.
pub proof fn law_lex_error_prefix(src: Seq<char>)
    ensures
        scan(src, 0) matches Err(p) ==> tokenize_spec(src.take(p)) is Ok,
{
    match scan(src, 0) {
        Err(p) => {
            lemma_scan_prefix(src, p, 0);
        },
        Ok(_) => {},
    }
}

/// Each token's own text lexes to that token alone, spanning all of it.
#[verifier::spinoff_prover]
#[verifier::rlimit(40)]
pub proof fn law_relex_token(src: Seq<char>, k: int)
    ensures
        match scan(src, 0) {
            Ok(ts) => 0 <= k < ts.len() ==> {
                let w = src.subrange(ts[k].1, ts[k].2);
                tokenize_spec(w) == Ok::<Seq<(TokenV, int, int)>, EngineErrorV>(
                    seq![(ts[k].0, 0int, byte_offset(w, w.len() as int))],
                )
            },
            Err(_) => true,
        },
{
    lemma_scan_spans(src, 0);
    lemma_scan_tokens(src, 0);
    match scan(src, 0) {
        Ok(ts) => {
            if 0 <= k < ts.len() {
                let lo = ts[k].1;
                let hi = ts[k].2;
                let w = src.subrange(lo, hi);
                lemma_token_window(src, lo, hi, lo);
                assert(w[0] == src[lo]);
                assert(token_at(w, 0) == Some((ts[k].0, hi - lo)));
                assert(scan(w, hi - lo) == Ok::<Seq<(TokenV, int, int)>, int>(Seq::empty()));
                assert(scan(w, 0) == Ok::<Seq<(TokenV, int, int)>, int>(
                    seq![(ts[k].0, 0int, hi - lo)] + Seq::empty(),
                ));
                assert(seq![(ts[k].0, 0int, hi - lo)] + Seq::<(TokenV, int, int)>::empty() =~= seq![
                    (ts[k].0, 0int, hi - lo),
                ]);
                assert(w.take(0) =~= Seq::<char>::empty());
                assert(byte_offset(w, 0) == 0);
                assert(tokenize_spec(w)->Ok_0 =~= seq![
                    (ts[k].0, 0int, byte_offset(w, w.len() as int)),
                ]);
            }
        },
        Err(_) => {},
    }
}

/// The word `pi`, in any ASCII case, is the same token as the letter `π`:
/// wherever a text holds `pi` and another holds `π`, tokens of the same
/// kind start there, the word two characters long and the letter one.
pub proof fn law_pi_word_is_pi(cs: Seq<char>, i: int, ds: Seq<char>, j: int)
    requires
        0 <= i,
        i + 1 < cs.len(),
        cs[i] == 'p' || cs[i] == 'P',
        cs[i + 1] == 'i' || cs[i + 1] == 'I',
        0 <= j < ds.len(),
        ds[j] == '\u{03C0}',
    ensures
        token_at(cs, i) is Some,
        token_at(ds, j) is Some,
        token_at(cs, i)->Some_0.0 == token_at(ds, j)->Some_0.0,
        token_at(cs, i)->Some_0.1 == i + 2,
        token_at(ds, j)->Some_0.1 == j + 1,
{
    assert(number_end(cs, i) is None);
    assert(number_end(ds, j) is None);
    assert(word_token(cs, i) == Some((TokenV::Pi, 2int)));
}

} // verus!
