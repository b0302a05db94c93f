//! Expression lexer.
//!
//! Accepts both ASCII (`*`, `/`, `-`) and Unicode math (`×`, `÷`, `−`, `√`, `π`)
//! tokens so the UI can forward button glyphs directly.
//!
//! The scanner always takes the longest token that starts at the current
//! position; spaces, tabs, carriage returns and newlines between tokens are
//! skipped. Spans are byte offsets into the source string.
use vstd::prelude::*;
use vstd::utf8::encode_utf8;
use vstd::string::StringSliceAdditionalSpecFns;
use crate::error::{EngineError, EngineErrorV};
use crate::text::{chars_to_string, collect_chars};

verus! {

broadcast use vstd::string::group_string_axioms;

#[derive(Debug, Clone, PartialEq)]
pub enum Token {
    Number(String),
    Plus,
    Minus,
    Mul,
    Div,
    Pow,
    Fact,
    Percent,
    LParen,
    RParen,
    Comma,
    Pi,
    Euler,
    Sqrt,
    Sin,
    Cos,
    Tan,
    Asin,
    Acos,
    Atan,
    Ln,
    Log,
    Exp,
    Abs,
}

/// The lexer's error marker; a character that starts no token is reported
/// as [`EngineError::UnexpectedChar`].
#[derive(Debug, Clone, Copy, Default, PartialEq, Eq)]
pub struct LexErrorKind;

/// Mathematical model of a token: the text of a number literal is a
/// character sequence.
pub enum TokenV {
    Number(Seq<char>),
    Plus,
    Minus,
    Mul,
    Div,
    Pow,
    Fact,
    Percent,
    LParen,
    RParen,
    Comma,
    Pi,
    Euler,
    Sqrt,
    Sin,
    Cos,
    Tan,
    Asin,
    Acos,
    Atan,
    Ln,
    Log,
    Exp,
    Abs,
}

impl View for Token {
    type V = TokenV;

    open spec fn view(&self) -> TokenV {
        match self {
            Token::Number(s) => TokenV::Number(s@),
            Token::Plus => TokenV::Plus,
            Token::Minus => TokenV::Minus,
            Token::Mul => TokenV::Mul,
            Token::Div => TokenV::Div,
            Token::Pow => TokenV::Pow,
            Token::Fact => TokenV::Fact,
            Token::Percent => TokenV::Percent,
            Token::LParen => TokenV::LParen,
            Token::RParen => TokenV::RParen,
            Token::Comma => TokenV::Comma,
            Token::Pi => TokenV::Pi,
            Token::Euler => TokenV::Euler,
            Token::Sqrt => TokenV::Sqrt,
            Token::Sin => TokenV::Sin,
            Token::Cos => TokenV::Cos,
            Token::Tan => TokenV::Tan,
            Token::Asin => TokenV::Asin,
            Token::Acos => TokenV::Acos,
            Token::Atan => TokenV::Atan,
            Token::Ln => TokenV::Ln,
            Token::Log => TokenV::Log,
            Token::Exp => TokenV::Exp,
            Token::Abs => TokenV::Abs,
        }
    }
}

impl Token {
    /// An exact copy of the token.
    pub fn duplicate(&self) -> (r: Token)
        ensures
            r == *self,
    {
        match self {
            Token::Number(s) => Token::Number(s.clone()),
            Token::Plus => Token::Plus,
            Token::Minus => Token::Minus,
            Token::Mul => Token::Mul,
            Token::Div => Token::Div,
            Token::Pow => Token::Pow,
            Token::Fact => Token::Fact,
            Token::Percent => Token::Percent,
            Token::LParen => Token::LParen,
            Token::RParen => Token::RParen,
            Token::Comma => Token::Comma,
            Token::Pi => Token::Pi,
            Token::Euler => Token::Euler,
            Token::Sqrt => Token::Sqrt,
            Token::Sin => Token::Sin,
            Token::Cos => Token::Cos,
            Token::Tan => Token::Tan,
            Token::Asin => Token::Asin,
            Token::Acos => Token::Acos,
            Token::Atan => Token::Atan,
            Token::Ln => Token::Ln,
            Token::Log => Token::Log,
            Token::Exp => Token::Exp,
            Token::Abs => Token::Abs,
        }
    }
}

// ---------------------------------------------------------------------------
// The token grammar, over the characters of the source.
// ---------------------------------------------------------------------------

pub open spec fn char_at(cs: Seq<char>, i: int) -> Option<char> {
    if 0 <= i < cs.len() {
        Some(cs[i])
    } else {
        None
    }
}

pub open spec fn is_digit(c: char) -> bool {
    '0' <= c <= '9'
}

pub open spec fn digit_at(cs: Seq<char>, i: int) -> bool {
    0 <= i < cs.len() && is_digit(cs[i])
}

pub open spec fn is_skipped(c: char) -> bool {
    c == ' ' || c == '\t' || c == '\r' || c == '\n'
}

/// End of the run of ASCII digits that starts at `i`.
pub open spec fn digits_end(cs: Seq<char>, i: int) -> int
    decreases cs.len() - i,
{
    if digit_at(cs, i) {
        digits_end(cs, i + 1)
    } else {
        i
    }
}

/// End of the mantissa `[0-9]+\.[0-9]* | \.[0-9]+ | [0-9]+` starting at `i`.
pub open spec fn mantissa_end(cs: Seq<char>, i: int) -> Option<int> {
    if digit_at(cs, i) {
        let j = digits_end(cs, i);
        if char_at(cs, j) == Some('.') {
            Some(digits_end(cs, j + 1))
        } else {
            Some(j)
        }
    } else if char_at(cs, i) == Some('.') && digit_at(cs, i + 1) {
        Some(digits_end(cs, i + 1))
    } else {
        None
    }
}

/// End of the optional exponent `[eE][+-]?[0-9]+` starting at `j`.
pub open spec fn exponent_end(cs: Seq<char>, j: int) -> int {
    if char_at(cs, j) == Some('e') || char_at(cs, j) == Some('E') {
        let k = if char_at(cs, j + 1) == Some('+') || char_at(cs, j + 1) == Some('-') {
            j + 2
        } else {
            j + 1
        };
        if digit_at(cs, k) {
            digits_end(cs, k)
        } else {
            j
        }
    } else {
        j
    }
}

/// End of the longest number literal starting at `i`, if any.
pub open spec fn number_end(cs: Seq<char>, i: int) -> Option<int> {
    match mantissa_end(cs, i) {
        Some(j) => Some(exponent_end(cs, j)),
        None => None,
    }
}

/// `c` equals the lowercase ASCII letter `l`, ignoring ASCII case.
pub open spec fn ci_eq(c: char, l: char) -> bool {
    c as u32 == l as u32 || c as u32 + 32 == l as u32
}

pub open spec fn ci_at(cs: Seq<char>, i: int, l: char) -> bool {
    0 <= i < cs.len() && ci_eq(cs[i], l)
}

pub open spec fn kw2(cs: Seq<char>, i: int, a: char, b: char) -> bool {
    ci_at(cs, i, a) && ci_at(cs, i + 1, b)
}

pub open spec fn kw3(cs: Seq<char>, i: int, a: char, b: char, c: char) -> bool {
    kw2(cs, i, a, b) && ci_at(cs, i + 2, c)
}

pub open spec fn kw4(cs: Seq<char>, i: int, a: char, b: char, c: char, d: char) -> bool {
    kw3(cs, i, a, b, c) && ci_at(cs, i + 3, d)
}

pub open spec fn kw6(
    cs: Seq<char>,
    i: int,
    a: char,
    b: char,
    c: char,
    d: char,
    e: char,
    f: char,
) -> bool {
    kw4(cs, i, a, b, c, d) && ci_at(cs, i + 4, e) && ci_at(cs, i + 5, f)
}

/// Word tokens (case-insensitive names, and the lowercase constant `e`) with
/// their length. No two names are prefixes of one another except `e` and
/// `exp`, and `exp` is tried first, so this is the longest match.
pub open spec fn word_token(cs: Seq<char>, i: int) -> Option<(TokenV, int)> {
    if kw6(cs, i, 'a', 'r', 'c', 's', 'i', 'n') {
        Some((TokenV::Asin, 6))
    } else if kw6(cs, i, 'a', 'r', 'c', 'c', 'o', 's') {
        Some((TokenV::Acos, 6))
    } else if kw6(cs, i, 'a', 'r', 'c', 't', 'a', 'n') {
        Some((TokenV::Atan, 6))
    } else if kw4(cs, i, 's', 'q', 'r', 't') {
        Some((TokenV::Sqrt, 4))
    } else if kw4(cs, i, 'a', 's', 'i', 'n') {
        Some((TokenV::Asin, 4))
    } else if kw4(cs, i, 'a', 'c', 'o', 's') {
        Some((TokenV::Acos, 4))
    } else if kw4(cs, i, 'a', 't', 'a', 'n') {
        Some((TokenV::Atan, 4))
    } else if kw3(cs, i, 's', 'i', 'n') {
        Some((TokenV::Sin, 3))
    } else if kw3(cs, i, 'c', 'o', 's') {
        Some((TokenV::Cos, 3))
    } else if kw3(cs, i, 't', 'a', 'n') {
        Some((TokenV::Tan, 3))
    } else if kw3(cs, i, 'l', 'o', 'g') {
        Some((TokenV::Log, 3))
    } else if kw3(cs, i, 'e', 'x', 'p') {
        Some((TokenV::Exp, 3))
    } else if kw3(cs, i, 'a', 'b', 's') {
        Some((TokenV::Abs, 3))
    } else if kw2(cs, i, 'l', 'n') {
        Some((TokenV::Ln, 2))
    } else if kw2(cs, i, 'p', 'i') {
        Some((TokenV::Pi, 2))
    } else if char_at(cs, i) == Some('e') {
        Some((TokenV::Euler, 1))
    } else {
        None
    }
}

/// One-character operator and symbol tokens.
pub open spec fn symbol_token(c: char) -> Option<TokenV> {
    if c == '+' {
        Some(TokenV::Plus)
    } else if c == '-' || c == '\u{2212}' {
        Some(TokenV::Minus)
    } else if c == '*' || c == '\u{00D7}' || c == '\u{22C5}' {
        Some(TokenV::Mul)
    } else if c == '/' || c == '\u{00F7}' {
        Some(TokenV::Div)
    } else if c == '^' {
        Some(TokenV::Pow)
    } else if c == '!' {
        Some(TokenV::Fact)
    } else if c == '%' {
        Some(TokenV::Percent)
    } else if c == '(' {
        Some(TokenV::LParen)
    } else if c == ')' {
        Some(TokenV::RParen)
    } else if c == ',' {
        Some(TokenV::Comma)
    } else if c == '\u{03C0}' {
        Some(TokenV::Pi)
    } else if c == '\u{221A}' {
        Some(TokenV::Sqrt)
    } else {
        None
    }
}

/// The longest token starting at `i` (which holds a character) and the
/// position just after it.
pub open spec fn token_at(cs: Seq<char>, i: int) -> Option<(TokenV, int)> {
    match number_end(cs, i) {
        Some(j) => Some((TokenV::Number(cs.subrange(i, j)), j)),
        None => match symbol_token(cs[i]) {
            Some(t) => Some((t, i + 1)),
            None => match word_token(cs, i) {
                Some((t, n)) => Some((t, i + n)),
                None => None,
            },
        },
    }
}

/// Scanning the source from character `i`: the tokens with their character
/// ranges, or the character index at which no token starts.
pub open spec fn scan(cs: Seq<char>, i: int) -> Result<Seq<(TokenV, int, int)>, int>
    decreases cs.len() - i,
{
    if i < 0 || i >= cs.len() {
        Ok(Seq::empty())
    } else if is_skipped(cs[i]) {
        scan(cs, i + 1)
    } else {
        match token_at(cs, i) {
            None => Err(i),
            Some((t, j)) => if i < j <= cs.len() {
                match scan(cs, j) {
                    Ok(rest) => Ok(seq![(t, i, j)] + rest),
                    Err(p) => Err(p),
                }
            } else {
                Err(i)
            },
        }
    }
}

/// Byte offset of character index `i` in the UTF-8 encoding of `cs`.
pub open spec fn byte_offset(cs: Seq<char>, i: int) -> int {
    encode_utf8(cs.take(i)).len() as int
}

/// What `tokenize` yields for a source string: tokens with byte spans, or the
/// error for the first position at which no token starts.
pub open spec fn tokenize_spec(src: Seq<char>) -> Result<Seq<(TokenV, int, int)>, EngineErrorV> {
    match scan(src, 0) {
        Ok(ts) => Ok(
            ts.map_values(
                |t: (TokenV, int, int)| (t.0, byte_offset(src, t.1), byte_offset(src, t.2)),
            ),
        ),
        Err(p) => Err(EngineErrorV::UnexpectedChar { pos: byte_offset(src, p) as usize, ch: src[p] }),
    }
}

// ---------------------------------------------------------------------------
// UTF-8 byte offsets
// ---------------------------------------------------------------------------

pub proof fn lemma_encode_utf8_append(a: Seq<char>, b: Seq<char>)
    ensures
        encode_utf8(a + b) == encode_utf8(a) + encode_utf8(b),
    decreases a.len(),
{
    if a.len() == 0 {
        assert(a + b =~= b);
        assert(encode_utf8(a) =~= Seq::<u8>::empty());
        assert(encode_utf8(a) + encode_utf8(b) =~= encode_utf8(b));
    } else {
        assert((a + b).drop_first() =~= a.drop_first() + b);
        lemma_encode_utf8_append(a.drop_first(), b);
        assert((a + b)[0] == a[0]);
    }
}

proof fn lemma_byte_offset_step(cs: Seq<char>, i: int)
    requires
        0 <= i < cs.len(),
    ensures
        byte_offset(cs, i + 1) == byte_offset(cs, i) + vstd::utf8::encode_scalar(
            cs[i] as u32,
        ).len(),
        byte_offset(cs, i) <= byte_offset(cs, i + 1),
{
    assert(cs.take(i + 1) =~= cs.take(i) + seq![cs[i]]);
    lemma_encode_utf8_append(cs.take(i), seq![cs[i]]);
    assert(seq![cs[i]].drop_first() =~= Seq::<char>::empty());
    assert(encode_utf8(seq![cs[i]]) == vstd::utf8::encode_scalar(cs[i] as u32) + encode_utf8(
        Seq::<char>::empty(),
    ));
    assert(encode_utf8(seq![cs[i]]) =~= vstd::utf8::encode_scalar(cs[i] as u32));
}

pub proof fn lemma_byte_offset_mono(cs: Seq<char>, i: int, j: int)
    requires
        0 <= i <= j <= cs.len(),
    ensures
        byte_offset(cs, i) <= byte_offset(cs, j),
    decreases j - i,
{
    if i < j {
        lemma_byte_offset_step(cs, j - 1);
        lemma_byte_offset_mono(cs, i, j - 1);
    }
}

/// `str::len`: the byte length of the string, that is, the length of the
/// UTF-8 encoding of its characters. A string's length always fits in `usize`.
#[verifier::external_body]
fn str_byte_len(s: &str) -> (n: usize)
    ensures
        n as int == s.spec_bytes().len(),
{
    s.len()
}

/// Number of bytes in the UTF-8 encoding of `c`.
fn utf8_width(c: char) -> (w: usize)
    ensures
        w as int == vstd::utf8::encode_scalar(c as u32).len(),
        1 <= w <= 4,
{
    let u = c as u32;
    if u <= 0x7F {
        1
    } else if u <= 0x7FF {
        2
    } else if u <= 0xFFFF {
        3
    } else {
        4
    }
}

// ---------------------------------------------------------------------------
// Executable scanner
// ---------------------------------------------------------------------------

fn is_digit_at(cs: &Vec<char>, i: usize) -> (b: bool)
    ensures
        b == digit_at(cs@, i as int),
{
    i < cs.len() && '0' <= cs[i] && cs[i] <= '9'
}

fn is_char_at(cs: &Vec<char>, i: usize, c: char) -> (b: bool)
    ensures
        b == (char_at(cs@, i as int) == Some(c)),
{
    i < cs.len() && cs[i] == c
}

fn scan_digits(cs: &Vec<char>, i: usize) -> (j: usize)
    requires
        i <= cs.len(),
    ensures
        j as int == digits_end(cs@, i as int),
        i <= j <= cs.len(),
        digit_at(cs@, i as int) ==> i < j,
{
    let mut j = i;
    while j < cs.len() && '0' <= cs[j] && cs[j] <= '9'
        invariant
            i <= j <= cs.len(),
            digits_end(cs@, i as int) == digits_end(cs@, j as int),
        decreases cs.len() - j,
    {
        j = j + 1;
    }
    j
}

fn scan_number(cs: &Vec<char>, i: usize) -> (r: Option<usize>)
    requires
        i < cs.len(),
    ensures
        match number_end(cs@, i as int) {
            Some(j) => r == Some(j as usize) && i < j <= cs.len(),
            None => r is None,
        },
{
    let j;
    if is_digit_at(cs, i) {
        let d = scan_digits(cs, i);
        if is_char_at(cs, d, '.') {
            j = scan_digits(cs, d + 1);
        } else {
            j = d;
        }
    } else if is_char_at(cs, i, '.') && is_digit_at(cs, i + 1) {
        j = scan_digits(cs, i + 1);
    } else {
        return None;
    }
    if is_char_at(cs, j, 'e') || is_char_at(cs, j, 'E') {
        let k = if is_char_at(cs, j + 1, '+') || is_char_at(cs, j + 1, '-') {
            j + 2
        } else {
            j + 1
        };
        if is_digit_at(cs, k) {
            return Some(scan_digits(cs, k));
        }
    }
    Some(j)
}

fn ci_char(cs: &Vec<char>, i: usize, l: char) -> (b: bool)
    ensures
        b == ci_at(cs@, i as int, l),
{
    if i < cs.len() {
        let u = cs[i] as u32;
        let v = l as u32;
        u == v || (u <= 0x10FFFF && u + 32 == v)
    } else {
        false
    }
}

fn scan_word(cs: &Vec<char>, i: usize) -> (r: Option<(Token, usize)>)
    requires
        i < cs.len(),
    ensures
        match word_token(cs@, i as int) {
            Some((t, n)) => r matches Some((tok, m)) && tok@ == t && m == n,
            None => r is None,
        },
{
    let a = ci_char(cs, i, 'a');
    let c = ci_char(cs, i, 'c');
    let s = ci_char(cs, i, 's');
    let t = ci_char(cs, i, 't');
    let l = ci_char(cs, i, 'l');
    let e = ci_char(cs, i, 'e');
    let p = ci_char(cs, i, 'p');
    if a && ci_char(cs, i + 1, 'r') && ci_char(cs, i + 2, 'c') && ci_char(cs, i + 3, 's')
        && ci_char(cs, i + 4, 'i') && ci_char(cs, i + 5, 'n') {
        Some((Token::Asin, 6))
    } else if a && ci_char(cs, i + 1, 'r') && ci_char(cs, i + 2, 'c') && ci_char(cs, i + 3, 'c')
        && ci_char(cs, i + 4, 'o') && ci_char(cs, i + 5, 's') {
        Some((Token::Acos, 6))
    } else if a && ci_char(cs, i + 1, 'r') && ci_char(cs, i + 2, 'c') && ci_char(cs, i + 3, 't')
        && ci_char(cs, i + 4, 'a') && ci_char(cs, i + 5, 'n') {
        Some((Token::Atan, 6))
    } else if s && ci_char(cs, i + 1, 'q') && ci_char(cs, i + 2, 'r') && ci_char(cs, i + 3, 't') {
        Some((Token::Sqrt, 4))
    } else if a && ci_char(cs, i + 1, 's') && ci_char(cs, i + 2, 'i') && ci_char(cs, i + 3, 'n') {
        Some((Token::Asin, 4))
    } else if a && ci_char(cs, i + 1, 'c') && ci_char(cs, i + 2, 'o') && ci_char(cs, i + 3, 's') {
        Some((Token::Acos, 4))
    } else if a && ci_char(cs, i + 1, 't') && ci_char(cs, i + 2, 'a') && ci_char(cs, i + 3, 'n') {
        Some((Token::Atan, 4))
    } else if s && ci_char(cs, i + 1, 'i') && ci_char(cs, i + 2, 'n') {
        Some((Token::Sin, 3))
    } else if c && ci_char(cs, i + 1, 'o') && ci_char(cs, i + 2, 's') {
        Some((Token::Cos, 3))
    } else if t && ci_char(cs, i + 1, 'a') && ci_char(cs, i + 2, 'n') {
        Some((Token::Tan, 3))
    } else if l && ci_char(cs, i + 1, 'o') && ci_char(cs, i + 2, 'g') {
        Some((Token::Log, 3))
    } else if e && ci_char(cs, i + 1, 'x') && ci_char(cs, i + 2, 'p') {
        Some((Token::Exp, 3))
    } else if a && ci_char(cs, i + 1, 'b') && ci_char(cs, i + 2, 's') {
        Some((Token::Abs, 3))
    } else if l && ci_char(cs, i + 1, 'n') {
        Some((Token::Ln, 2))
    } else if p && ci_char(cs, i + 1, 'i') {
        Some((Token::Pi, 2))
    } else if cs[i] == 'e' {
        Some((Token::Euler, 1))
    } else {
        None
    }
}

fn scan_symbol(c: char) -> (r: Option<Token>)
    ensures
        match symbol_token(c) {
            Some(t) => r matches Some(tok) && tok@ == t,
            None => r is None,
        },
{
    if c == '+' {
        Some(Token::Plus)
    } else if c == '-' || c == '\u{2212}' {
        Some(Token::Minus)
    } else if c == '*' || c == '\u{00D7}' || c == '\u{22C5}' {
        Some(Token::Mul)
    } else if c == '/' || c == '\u{00F7}' {
        Some(Token::Div)
    } else if c == '^' {
        Some(Token::Pow)
    } else if c == '!' {
        Some(Token::Fact)
    } else if c == '%' {
        Some(Token::Percent)
    } else if c == '(' {
        Some(Token::LParen)
    } else if c == ')' {
        Some(Token::RParen)
    } else if c == ',' {
        Some(Token::Comma)
    } else if c == '\u{03C0}' {
        Some(Token::Pi)
    } else if c == '\u{221A}' {
        Some(Token::Sqrt)
    } else {
        None
    }
}

fn scan_token(cs: &Vec<char>, i: usize) -> (r: Option<(Token, usize)>)
    requires
        i < cs.len(),
    ensures
        match token_at(cs@, i as int) {
            Some((t, j)) => r matches Some((tok, k)) && tok@ == t && k == j && i < j <= cs.len(),
            None => r is None,
        },
{
    if let Some(j) = scan_number(cs, i) {
        let s = chars_to_string(cs, i, j);
        return Some((Token::Number(s), j));
    }
    if let Some(t) = scan_symbol(cs[i]) {
        return Some((t, i + 1));
    }
    if let Some((t, n)) = scan_word(cs, i) {
        return Some((t, i + n));
    }
    None
}

pub open spec fn prepend_tokens(
    done: Seq<(TokenV, int, int)>,
    rest: Result<Seq<(TokenV, int, int)>, int>,
) -> Result<Seq<(TokenV, int, int)>, int> {
    match rest {
        Ok(s) => Ok(done + s),
        Err(p) => Err(p),
    }
}

/// Lex into `(token, source_span)` pairs so the parser can report precise
/// error locations.
pub fn tokenize(src: &str) -> (res: Result<Vec<(Token, std::ops::Range<usize>)>, EngineError>)
    ensures
        match tokenize_spec(src@) {
            Ok(ts) => res matches Ok(v) && v@.len() == ts.len() && forall|k: int|
                0 <= k < ts.len() ==> {
                    &&& (#[trigger] v@[k]).0@ == ts[k].0
                    &&& v@[k].1.start as int == ts[k].1
                    &&& v@[k].1.end as int == ts[k].2
                },
            Err(e) => res matches Err(x) && x@ == e,
        },
{
    let cs = collect_chars(src);
    let total = str_byte_len(src);
    proof {
        assert(cs@.take(cs@.len() as int) =~= cs@);
    }
    let mut out: Vec<(Token, std::ops::Range<usize>)> = Vec::new();
    let ghost mut done: Seq<(TokenV, int, int)> = Seq::empty();
    let mut i: usize = 0;
    let mut b: usize = 0;
    while i < cs.len()
        invariant
            cs@ == src@,
            total as int == byte_offset(cs@, cs@.len() as int),
            i <= cs.len(),
            b as int == byte_offset(cs@, i as int),
            scan(cs@, 0) == prepend_tokens(done, scan(cs@, i as int)),
            out@.len() == done.len(),
            forall|k: int|
                0 <= k < done.len() ==> {
                    &&& (#[trigger] out@[k]).0@ == done[k].0
                    &&& out@[k].1.start as int == byte_offset(cs@, done[k].1)
                    &&& out@[k].1.end as int == byte_offset(cs@, done[k].2)
                    &&& 0 <= done[k].1 <= done[k].2 <= i
                },
        decreases cs.len() - i,
    {
        let c = cs[i];
        if c == ' ' || c == '\t' || c == '\r' || c == '\n' {
            proof {
                lemma_byte_offset_step(cs@, i as int);
                lemma_byte_offset_mono(cs@, i + 1, cs@.len() as int);
            }
            b = b + utf8_width(c);
            i = i + 1;
        } else {
            match scan_token(&cs, i) {
                None => {
                    proof {
                        assert(scan(cs@, i as int) == Err::<Seq<(TokenV, int, int)>, int>(i as int));
                    }
                    return Err(EngineError::UnexpectedChar { pos: b, ch: c });
                },
                Some((t, j)) => {
                    let start = b;
                    let mut k = i;
                    while k < j
                        invariant
                            i <= k <= j <= cs.len(),
                            cs@ == src@,
                            total as int == byte_offset(cs@, cs@.len() as int),
                            b as int == byte_offset(cs@, k as int),
                        decreases j - k,
                    {
                        proof {
                            lemma_byte_offset_step(cs@, k as int);
                            lemma_byte_offset_mono(cs@, k + 1, cs@.len() as int);
                        }
                        b = b + utf8_width(cs[k]);
                        k = k + 1;
                    }
                    let ghost entry = (t@, i as int, j as int);
                    proof {
                        assert(scan(cs@, i as int) == prepend_tokens(seq![entry], scan(cs@, j as int)));
                        assert(done + seq![entry] + Seq::<(TokenV, int, int)>::empty() =~= done.push(entry));
                        match scan(cs@, j as int) {
                            Ok(s) => {
                                assert(done + (seq![entry] + s) =~= done.push(entry) + s);
                            },
                            Err(_) => {},
                        }
                        done = done.push(entry);
                    }
                    out.push((t, start..b));
                    i = j;
                },
            }
        }
    }
    proof {
        assert(scan(cs@, i as int) == Ok::<Seq<(TokenV, int, int)>, int>(Seq::empty()));
        assert(done + Seq::<(TokenV, int, int)>::empty() =~= done);
        let ts = done;
        let mapped = ts.map_values(
            |t: (TokenV, int, int)| (t.0, byte_offset(src@, t.1), byte_offset(src@, t.2)),
        );
        assert forall|k: int| 0 <= k < ts.len() implies {
            &&& (#[trigger] out@[k]).0@ == mapped[k].0
            &&& out@[k].1.start as int == mapped[k].1
            &&& out@[k].1.end as int == mapped[k].2
        } by {}
    }
    Ok(out)
}

} // verus!
