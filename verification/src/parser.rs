//! Recursive-descent parser with a 6-level precedence hierarchy.
//!
//! Precedence (lowest → highest):
//!  1. Additive      (+, −)
//!  2. Multiplicative (×, ÷, implicit multiplication)
//!  3. Unary         (leading −)
//!  4. Power         (^, right-associative)
//!  5. Postfix       (!, %)
//!  6. Atom          (number, constant, func call, paren group)
//!
//! Two number literals in a row are not multiplied implicitly (`1..2` and
//! `.5.5` are rejected), and a decimal literal directly followed by `(` is
//! an invalid number (the legacy repeating-decimal notation `0.(3)`).
use vstd::prelude::*;
use crate::error::{EngineError, EngineErrorV};
use crate::lexer::{tokenize, tokenize_spec, Token, TokenV};
use crate::text::collect_chars;

verus! {

/// Intermediate representation: an AST node.
#[derive(Debug, PartialEq)]
pub enum Expr {
    Number(String),
    Pi,
    Euler,
    Negate(Box<Expr>),
    BinOp(Box<Expr>, BinOp, Box<Expr>),
    UnaryFn(UnaryFn, Box<Expr>),
    Pow(Box<Expr>, Box<Expr>),
    Factorial(Box<Expr>),
    Percent(Box<Expr>),
}

#[derive(Debug, Clone, Copy, PartialEq, Eq, Structural)]
pub enum BinOp {
    Add,
    Sub,
    Mul,
    Div,
}

#[derive(Debug, Clone, Copy, PartialEq, Eq, Structural)]
pub enum UnaryFn {
    Sin,
    Cos,
    Tan,
    Asin,
    Acos,
    Atan,
    Ln,
    Log,
    Exp,
    Abs,
    Sqrt,
}

/// Mathematical model of an expression: number literals are character
/// sequences.
pub enum ExprV {
    Number(Seq<char>),
    Pi,
    Euler,
    Negate(Box<ExprV>),
    BinOp(Box<ExprV>, BinOp, Box<ExprV>),
    UnaryFn(UnaryFn, Box<ExprV>),
    Pow(Box<ExprV>, Box<ExprV>),
    Factorial(Box<ExprV>),
    Percent(Box<ExprV>),
}

pub open spec fn expr_view(e: Expr) -> ExprV
    decreases e,
{
    match e {
        Expr::Number(s) => ExprV::Number(s@),
        Expr::Pi => ExprV::Pi,
        Expr::Euler => ExprV::Euler,
        Expr::Negate(x) => ExprV::Negate(Box::new(expr_view(*x))),
        Expr::BinOp(l, op, r) => ExprV::BinOp(Box::new(expr_view(*l)), op, Box::new(expr_view(*r))),
        Expr::UnaryFn(f, x) => ExprV::UnaryFn(f, Box::new(expr_view(*x))),
        Expr::Pow(b, x) => ExprV::Pow(Box::new(expr_view(*b)), Box::new(expr_view(*x))),
        Expr::Factorial(x) => ExprV::Factorial(Box::new(expr_view(*x))),
        Expr::Percent(x) => ExprV::Percent(Box::new(expr_view(*x))),
    }
}

impl View for Expr {
    type V = ExprV;

    open spec fn view(&self) -> ExprV {
        expr_view(*self)
    }
}

// ---------------------------------------------------------------------------
// The grammar, as a functional parser over (token, start offset) pairs.
// A result is the expression and the index of the first unconsumed token.
// ---------------------------------------------------------------------------

pub type PRes = Result<(ExprV, int), EngineErrorV>;

pub open spec fn tok(t: Seq<(TokenV, int)>, p: int) -> Option<TokenV> {
    if 0 <= p < t.len() {
        Some(t[p].0)
    } else {
        None
    }
}

/// Source offset reported for an unexpected token (`usize::MAX` at the end).
pub open spec fn span_start(t: Seq<(TokenV, int)>, p: int) -> usize {
    if 0 <= p < t.len() {
        t[p].1 as usize
    } else {
        usize::MAX
    }
}

/// Tokens that start an operand and so multiply implicitly (`2π`, `2(3)`, `2sin(x)`).
pub open spec fn starts_operand(k: TokenV) -> bool {
    match k {
        TokenV::Number(_) | TokenV::Pi | TokenV::Euler | TokenV::LParen | TokenV::Sin
        | TokenV::Cos | TokenV::Tan | TokenV::Asin | TokenV::Acos | TokenV::Atan | TokenV::Ln
        | TokenV::Log | TokenV::Exp | TokenV::Abs | TokenV::Sqrt => true,
        _ => false,
    }
}

pub open spec fn fn_of(k: TokenV) -> Option<UnaryFn> {
    match k {
        TokenV::Sqrt => Some(UnaryFn::Sqrt),
        TokenV::Sin => Some(UnaryFn::Sin),
        TokenV::Cos => Some(UnaryFn::Cos),
        TokenV::Tan => Some(UnaryFn::Tan),
        TokenV::Asin => Some(UnaryFn::Asin),
        TokenV::Acos => Some(UnaryFn::Acos),
        TokenV::Atan => Some(UnaryFn::Atan),
        TokenV::Ln => Some(UnaryFn::Ln),
        TokenV::Log => Some(UnaryFn::Log),
        TokenV::Exp => Some(UnaryFn::Exp),
        TokenV::Abs => Some(UnaryFn::Abs),
        _ => None,
    }
}

pub open spec fn is_number_tok(k: Option<TokenV>) -> bool {
    k matches Some(TokenV::Number(_))
}

pub open spec fn bin(l: ExprV, op: BinOp, r: ExprV) -> ExprV {
    ExprV::BinOp(Box::new(l), op, Box::new(r))
}

/// Level 1: `mul (('+' | '−') mul)*`, left-associative.
pub open spec fn p_add(t: Seq<(TokenV, int)>, p: int) -> PRes
    decreases t.len() - p, 9int,
{
    if p < 0 || p > t.len() {
        Err(EngineErrorV::UnexpectedEof)
    } else {
        match p_mul(t, p) {
            Err(e) => Err(e),
            Ok((lhs, q)) => if p < q <= t.len() {
                p_add_rest(t, lhs, q)
            } else {
                Err(EngineErrorV::UnexpectedEof)
            },
        }
    }
}

pub open spec fn p_add_rest(t: Seq<(TokenV, int)>, lhs: ExprV, p: int) -> PRes
    decreases t.len() - p, 1int,
{
    if p < 0 || p > t.len() {
        Err(EngineErrorV::UnexpectedEof)
    } else if tok(t, p) == Some(TokenV::Plus) || tok(t, p) == Some(TokenV::Minus) {
        let op = if tok(t, p) == Some(TokenV::Plus) {
            BinOp::Add
        } else {
            BinOp::Sub
        };
        match p_mul(t, p + 1) {
            Err(e) => Err(e),
            Ok((rhs, q)) => if p < q <= t.len() {
                p_add_rest(t, bin(lhs, op, rhs), q)
            } else {
                Err(EngineErrorV::UnexpectedEof)
            },
        }
    } else {
        Ok((lhs, p))
    }
}

/// Level 2: `unary (('×' | '÷') unary | unary)*`, left-associative; the bare
/// form is implicit multiplication.
pub open spec fn p_mul(t: Seq<(TokenV, int)>, p: int) -> PRes
    decreases t.len() - p, 8int,
{
    if p < 0 || p > t.len() {
        Err(EngineErrorV::UnexpectedEof)
    } else {
        match p_unary(t, p) {
            Err(e) => Err(e),
            Ok((lhs, q)) => if p < q <= t.len() {
                p_mul_rest(t, lhs, q)
            } else {
                Err(EngineErrorV::UnexpectedEof)
            },
        }
    }
}

pub open spec fn p_mul_rest(t: Seq<(TokenV, int)>, lhs: ExprV, p: int) -> PRes
    decreases t.len() - p, 7int,
{
    if p < 0 || p > t.len() {
        Err(EngineErrorV::UnexpectedEof)
    } else if tok(t, p) == Some(TokenV::Mul) || tok(t, p) == Some(TokenV::Div) {
        let op = if tok(t, p) == Some(TokenV::Mul) {
            BinOp::Mul
        } else {
            BinOp::Div
        };
        match p_unary(t, p + 1) {
            Err(e) => Err(e),
            Ok((rhs, q)) => if p < q <= t.len() {
                p_mul_rest(t, bin(lhs, op, rhs), q)
            } else {
                Err(EngineErrorV::UnexpectedEof)
            },
        }
    } else if p < t.len() && starts_operand(t[p].0) {
        if is_number_tok(tok(t, p)) && is_number_tok(tok(t, p - 1)) {
            // Two number literals in a row do not multiply.
            Ok((lhs, p))
        } else if tok(t, p) == Some(TokenV::LParen) && (tok(t, p - 1) matches Some(
            TokenV::Number(s),
        ) && s.contains('.')) {
            Err(EngineErrorV::InvalidNumber(tok(t, p - 1)->Some_0->Number_0))
        } else {
            match p_unary(t, p) {
                Err(e) => Err(e),
                Ok((rhs, q)) => if p < q <= t.len() {
                    p_mul_rest(t, bin(lhs, BinOp::Mul, rhs), q)
                } else {
                    Err(EngineErrorV::UnexpectedEof)
                },
            }
        }
    } else {
        Ok((lhs, p))
    }
}

/// Level 3: `'−' unary | pow`.
pub open spec fn p_unary(t: Seq<(TokenV, int)>, p: int) -> PRes
    decreases t.len() - p, 6int,
{
    if p < 0 || p > t.len() {
        Err(EngineErrorV::UnexpectedEof)
    } else if tok(t, p) == Some(TokenV::Minus) {
        match p_unary(t, p + 1) {
            Err(e) => Err(e),
            Ok((e, q)) => Ok((ExprV::Negate(Box::new(e)), q)),
        }
    } else {
        p_pow(t, p)
    }
}

/// Level 4: `postfix ('^' unary)?`, so `a^b^c = a^(b^c)`.
pub open spec fn p_pow(t: Seq<(TokenV, int)>, p: int) -> PRes
    decreases t.len() - p, 5int,
{
    if p < 0 || p > t.len() {
        Err(EngineErrorV::UnexpectedEof)
    } else {
        match p_postfix(t, p) {
            Err(e) => Err(e),
            Ok((base, q)) => if p < q <= t.len() {
                if tok(t, q) == Some(TokenV::Pow) {
                    match p_unary(t, q + 1) {
                        Err(e) => Err(e),
                        Ok((ex, r)) => Ok((ExprV::Pow(Box::new(base), Box::new(ex)), r)),
                    }
                } else {
                    Ok((base, q))
                }
            } else {
                Err(EngineErrorV::UnexpectedEof)
            },
        }
    }
}

/// Level 5: `atom ('!' | '%')*`.
pub open spec fn p_postfix(t: Seq<(TokenV, int)>, p: int) -> PRes
    decreases t.len() - p, 4int,
{
    if p < 0 || p > t.len() {
        Err(EngineErrorV::UnexpectedEof)
    } else {
        match p_atom(t, p) {
            Err(e) => Err(e),
            Ok((e, q)) => if p < q <= t.len() {
                p_postfix_rest(t, e, q)
            } else {
                Err(EngineErrorV::UnexpectedEof)
            },
        }
    }
}

pub open spec fn p_postfix_rest(t: Seq<(TokenV, int)>, e: ExprV, p: int) -> PRes
    decreases t.len() - p, 0int,
{
    if p < 0 || p > t.len() {
        Err(EngineErrorV::UnexpectedEof)
    } else if tok(t, p) == Some(TokenV::Fact) {
        p_postfix_rest(t, ExprV::Factorial(Box::new(e)), p + 1)
    } else if tok(t, p) == Some(TokenV::Percent) {
        p_postfix_rest(t, ExprV::Percent(Box::new(e)), p + 1)
    } else {
        Ok((e, p))
    }
}

/// Level 6: number, constant, function call, parenthesised expression.
pub open spec fn p_atom(t: Seq<(TokenV, int)>, p: int) -> PRes
    decreases t.len() - p, 3int,
{
    if p < 0 || p >= t.len() {
        Err(EngineErrorV::UnexpectedEof)
    } else {
        match t[p].0 {
            TokenV::Number(s) => Ok((ExprV::Number(s), p + 1)),
            TokenV::Pi => Ok((ExprV::Pi, p + 1)),
            TokenV::Euler => Ok((ExprV::Euler, p + 1)),
            TokenV::LParen => match p_add(t, p + 1) {
                Err(e) => Err(e),
                Ok((inner, q)) => if tok(t, q) == Some(TokenV::RParen) {
                    Ok((inner, q + 1))
                } else {
                    Err(EngineErrorV::MissingCloseParen)
                },
            },
            k => match fn_of(k) {
                Some(f) => p_fn1(t, f, p),
                None => Err(EngineErrorV::UnexpectedToken { pos: span_start(t, p) }),
            },
        }
    }
}

/// A function name at `p` followed by `(arg)`; `√` also takes a bare atom.
pub open spec fn p_fn1(t: Seq<(TokenV, int)>, f: UnaryFn, p: int) -> PRes
    decreases t.len() - p, 2int,
{
    if p < 0 || p >= t.len() {
        Err(EngineErrorV::UnexpectedEof)
    } else if tok(t, p + 1) == Some(TokenV::LParen) {
        match p_add(t, p + 2) {
            Err(e) => Err(e),
            Ok((arg, q)) => if tok(t, q) == Some(TokenV::RParen) {
                Ok((ExprV::UnaryFn(f, Box::new(arg)), q + 1))
            } else {
                Err(EngineErrorV::MissingCloseParen)
            },
        }
    } else if f == UnaryFn::Sqrt {
        match p_atom(t, p + 1) {
            Err(e) => Err(e),
            Ok((arg, q)) => Ok((ExprV::UnaryFn(f, Box::new(arg)), q)),
        }
    } else {
        Err(EngineErrorV::UnexpectedToken { pos: span_start(t, p + 1) })
    }
}

/// A whole token sequence: one additive expression and nothing after it.
pub open spec fn parse_tokens(t: Seq<(TokenV, int)>) -> Result<ExprV, EngineErrorV> {
    if t.len() == 0 {
        Err(EngineErrorV::UnexpectedEof)
    } else {
        match p_add(t, 0) {
            Err(e) => Err(e),
            Ok((e, q)) => if q < t.len() {
                Err(EngineErrorV::UnexpectedToken { pos: span_start(t, q) })
            } else {
                Ok(e)
            },
        }
    }
}

/// Each token with the byte offset where it starts.
pub open spec fn token_pairs(ts: Seq<(TokenV, int, int)>) -> Seq<(TokenV, int)> {
    ts.map_values(|x: (TokenV, int, int)| (x.0, x.1))
}

/// What `parse` yields for a source string.
pub open spec fn parse_spec(src: Seq<char>) -> Result<ExprV, EngineErrorV> {
    match tokenize_spec(src) {
        Err(e) => Err(e),
        Ok(ts) => parse_tokens(token_pairs(ts)),
    }
}

pub open spec fn toks_view(v: Seq<(Token, std::ops::Range<usize>)>) -> Seq<(TokenV, int)> {
    v.map_values(|x: (Token, std::ops::Range<usize>)| (x.0@, x.1.start as int))
}

// ---------------------------------------------------------------------------
// Executable parser
// ---------------------------------------------------------------------------

struct Parser {
    tokens: Vec<(Token, std::ops::Range<usize>)>,
    pos: usize,
}

/// `s` contains a decimal point.
fn has_dot(s: &String) -> (b: bool)
    ensures
        b == s@.contains('.'),
{
    let cs = collect_chars(s.as_str());
    let mut i: usize = 0;
    while i < cs.len()
        invariant
            cs@ == s@,
            i <= cs.len(),
            forall|k: int| 0 <= k < i ==> cs@[k] != '.',
        decreases cs.len() - i,
    {
        if cs[i] == '.' {
            return true;
        }
        i = i + 1;
    }
    false
}

fn token_eq(a: &Token, b: &Token) -> (r: bool)
    ensures
        r == (a@ == b@),
{
    match (a, b) {
        (Token::Number(x), Token::Number(y)) => x.eq(y),
        (Token::Plus, Token::Plus) => true,
        (Token::Minus, Token::Minus) => true,
        (Token::Mul, Token::Mul) => true,
        (Token::Div, Token::Div) => true,
        (Token::Pow, Token::Pow) => true,
        (Token::Fact, Token::Fact) => true,
        (Token::Percent, Token::Percent) => true,
        (Token::LParen, Token::LParen) => true,
        (Token::RParen, Token::RParen) => true,
        (Token::Comma, Token::Comma) => true,
        (Token::Pi, Token::Pi) => true,
        (Token::Euler, Token::Euler) => true,
        (Token::Sqrt, Token::Sqrt) => true,
        (Token::Sin, Token::Sin) => true,
        (Token::Cos, Token::Cos) => true,
        (Token::Tan, Token::Tan) => true,
        (Token::Asin, Token::Asin) => true,
        (Token::Acos, Token::Acos) => true,
        (Token::Atan, Token::Atan) => true,
        (Token::Ln, Token::Ln) => true,
        (Token::Log, Token::Log) => true,
        (Token::Exp, Token::Exp) => true,
        (Token::Abs, Token::Abs) => true,
        _ => false,
    }
}

impl Parser {
    spec fn tv(&self) -> Seq<(TokenV, int)> {
        toks_view(self.tokens@)
    }

    spec fn len(&self) -> int {
        self.tokens@.len() as int
    }

    fn new(tokens: Vec<(Token, std::ops::Range<usize>)>) -> (p: Self)
        ensures
            p.tokens == tokens,
            p.pos == 0,
    {
        Parser { tokens, pos: 0 }
    }

    fn peek(&self) -> (r: Option<&Token>)
        ensures
            match tok(self.tv(), self.pos as int) {
                Some(k) => r matches Some(t) && t@ == k,
                None => r is None,
            },
    {
        if self.pos < self.tokens.len() {
            Some(&self.tokens[self.pos].0)
        } else {
            None
        }
    }

    fn pos_span(&self) -> (r: usize)
        ensures
            r == span_start(self.tv(), self.pos as int),
    {
        if self.pos < self.tokens.len() {
            self.tokens[self.pos].1.start
        } else {
            usize::MAX
        }
    }

    fn advance(&mut self) -> (r: Option<Token>)
        ensures
            final(self).tokens == old(self).tokens,
            match tok(old(self).tv(), old(self).pos as int) {
                Some(k) => r matches Some(t) && t@ == k && final(self).pos == old(self).pos + 1,
                None => r is None && final(self).pos == old(self).pos,
            },
    {
        if self.pos < self.tokens.len() {
            let t = self.tokens[self.pos].0.duplicate();
            self.pos = self.pos + 1;
            Some(t)
        } else {
            None
        }
    }

    fn expect(&mut self, expected: Token) -> (r: Result<(), EngineError>)
        ensures
            final(self).tokens == old(self).tokens,
            match tok(old(self).tv(), old(self).pos as int) {
                Some(k) => if k == expected@ {
                    r is Ok && final(self).pos == old(self).pos + 1
                } else {
                    r is Err && final(self).pos == old(self).pos
                },
                None => r is Err && final(self).pos == old(self).pos,
            },
    {
        match self.peek() {
            Some(t) => {
                if token_eq(t, &expected) {
                    self.advance();
                    Ok(())
                } else {
                    Err(EngineError::UnexpectedToken { pos: self.pos_span() })
                }
            },
            None => Err(EngineError::UnexpectedEof),
        }
    }

    // Level 1 — additive (+, −).
    fn parse_add(&mut self) -> (r: Result<Expr, EngineError>)
        requires
            old(self).pos <= old(self).tokens.len(),
        ensures
            final(self).tokens == old(self).tokens,
            match p_add(old(self).tv(), old(self).pos as int) {
                Ok((e, q)) => r matches Ok(x) && x@ == e && final(self).pos == q,
                Err(err) => r matches Err(x) && x@ == err,
            },
            r is Ok ==> old(self).pos < final(self).pos <= final(self).tokens.len(),
        decreases old(self).tokens.len() - old(self).pos, 9int,
    {
        let ghost p0 = self.pos as int;
        let ghost t = self.tv();
        let mut lhs = self.parse_mul()?;
        loop
            invariant
                self.tokens == old(self).tokens,
                t == self.tv(),
                t == old(self).tv(),
                p0 == old(self).pos,
                p0 < self.pos <= self.tokens.len(),
                p_add(t, p0) == p_add_rest(t, lhs@, self.pos as int),
            decreases self.tokens.len() - self.pos,
        {
            let op = match self.peek() {
                Some(Token::Plus) => BinOp::Add,
                Some(Token::Minus) => BinOp::Sub,
                _ => {
                    return Ok(lhs);
                },
            };
            self.advance();
            let rhs = self.parse_mul()?;
            lhs = Expr::BinOp(Box::new(lhs), op, Box::new(rhs));
        }
    }

    // Level 2 — multiplicative (×, ÷, implicit).
    fn parse_mul(&mut self) -> (r: Result<Expr, EngineError>)
        requires
            old(self).pos <= old(self).tokens.len(),
        ensures
            final(self).tokens == old(self).tokens,
            match p_mul(old(self).tv(), old(self).pos as int) {
                Ok((e, q)) => r matches Ok(x) && x@ == e && final(self).pos == q,
                Err(err) => r matches Err(x) && x@ == err,
            },
            r is Ok ==> old(self).pos < final(self).pos <= final(self).tokens.len(),
        decreases old(self).tokens.len() - old(self).pos, 8int,
    {
        let ghost p0 = self.pos as int;
        let ghost t = self.tv();
        let mut lhs = self.parse_unary()?;
        loop
            invariant
                self.tokens == old(self).tokens,
                t == self.tv(),
                t == old(self).tv(),
                p0 == old(self).pos,
                p0 < self.pos <= self.tokens.len(),
                p_mul(t, p0) == p_mul_rest(t, lhs@, self.pos as int),
            decreases self.tokens.len() - self.pos,
        {
            let explicit = match self.peek() {
                Some(Token::Mul) => Some(BinOp::Mul),
                Some(Token::Div) => Some(BinOp::Div),
                Some(Token::Number(_)) => {
                    // A number literal right after another one is no operand.
                    if let Token::Number(_) = &self.tokens[self.pos - 1].0 {
                        return Ok(lhs);
                    }
                    None
                },
                Some(Token::LParen) => {
                    if let Token::Number(s) = &self.tokens[self.pos - 1].0 {
                        if has_dot(s) {
                            return Err(EngineError::InvalidNumber(s.clone()));
                        }
                    }
                    None
                },
                Some(Token::Pi) | Some(Token::Euler) | Some(Token::Sin) | Some(Token::Cos)
                | Some(Token::Tan) | Some(Token::Asin) | Some(Token::Acos) | Some(Token::Atan)
                | Some(Token::Ln) | Some(Token::Log) | Some(Token::Exp) | Some(Token::Abs)
                | Some(Token::Sqrt) => None,
                _ => {
                    return Ok(lhs);
                },
            };
            match explicit {
                Some(op) => {
                    self.advance();
                    let rhs = self.parse_unary()?;
                    lhs = Expr::BinOp(Box::new(lhs), op, Box::new(rhs));
                },
                None => {
                    // Implicit multiplication: `2π`, `2(x+1)`, `(a)(b)`.
                    let rhs = self.parse_unary()?;
                    lhs = Expr::BinOp(Box::new(lhs), BinOp::Mul, Box::new(rhs));
                },
            }
        }
    }

    // Level 3 — leading unary negation.
    fn parse_unary(&mut self) -> (r: Result<Expr, EngineError>)
        requires
            old(self).pos <= old(self).tokens.len(),
        ensures
            final(self).tokens == old(self).tokens,
            match p_unary(old(self).tv(), old(self).pos as int) {
                Ok((e, q)) => r matches Ok(x) && x@ == e && final(self).pos == q,
                Err(err) => r matches Err(x) && x@ == err,
            },
            r is Ok ==> old(self).pos < final(self).pos <= final(self).tokens.len(),
        decreases old(self).tokens.len() - old(self).pos, 6int,
    {
        if let Some(Token::Minus) = self.peek() {
            self.advance();
            let e = self.parse_unary()?;
            return Ok(Expr::Negate(Box::new(e)));
        }
        self.parse_pow()
    }

    // Level 4 — power (right-associative).
    fn parse_pow(&mut self) -> (r: Result<Expr, EngineError>)
        requires
            old(self).pos <= old(self).tokens.len(),
        ensures
            final(self).tokens == old(self).tokens,
            match p_pow(old(self).tv(), old(self).pos as int) {
                Ok((e, q)) => r matches Ok(x) && x@ == e && final(self).pos == q,
                Err(err) => r matches Err(x) && x@ == err,
            },
            r is Ok ==> old(self).pos < final(self).pos <= final(self).tokens.len(),
        decreases old(self).tokens.len() - old(self).pos, 5int,
    {
        let base = self.parse_postfix()?;
        if let Some(Token::Pow) = self.peek() {
            self.advance();
            let exp = self.parse_unary()?;  // right-assoc: a^b^c = a^(b^c)
            return Ok(Expr::Pow(Box::new(base), Box::new(exp)));
        }
        Ok(base)
    }

    // Level 5 — postfix (!, %).
    fn parse_postfix(&mut self) -> (r: Result<Expr, EngineError>)
        requires
            old(self).pos <= old(self).tokens.len(),
        ensures
            final(self).tokens == old(self).tokens,
            match p_postfix(old(self).tv(), old(self).pos as int) {
                Ok((e, q)) => r matches Ok(x) && x@ == e && final(self).pos == q,
                Err(err) => r matches Err(x) && x@ == err,
            },
            r is Ok ==> old(self).pos < final(self).pos <= final(self).tokens.len(),
        decreases old(self).tokens.len() - old(self).pos, 4int,
    {
        let ghost p0 = self.pos as int;
        let ghost t = self.tv();
        let mut e = self.parse_atom()?;
        loop
            invariant
                self.tokens == old(self).tokens,
                t == self.tv(),
                t == old(self).tv(),
                p0 == old(self).pos,
                p0 < self.pos <= self.tokens.len(),
                p_postfix(t, p0) == p_postfix_rest(t, e@, self.pos as int),
            decreases self.tokens.len() - self.pos,
        {
            match self.peek() {
                Some(Token::Fact) => {
                    self.advance();
                    e = Expr::Factorial(Box::new(e));
                },
                Some(Token::Percent) => {
                    self.advance();
                    e = Expr::Percent(Box::new(e));
                },
                _ => {
                    return Ok(e);
                },
            }
        }
    }

    // Level 6 — atoms: number literals, constants, function calls, paren groups.
    fn parse_atom(&mut self) -> (r: Result<Expr, EngineError>)
        requires
            old(self).pos <= old(self).tokens.len(),
        ensures
            final(self).tokens == old(self).tokens,
            match p_atom(old(self).tv(), old(self).pos as int) {
                Ok((e, q)) => r matches Ok(x) && x@ == e && final(self).pos == q,
                Err(err) => r matches Err(x) && x@ == err,
            },
            r is Ok ==> old(self).pos < final(self).pos <= final(self).tokens.len(),
        decreases old(self).tokens.len() - old(self).pos, 3int,
    {
        let next = match self.peek() {
            Some(t) => t.duplicate(),
            None => {
                return Err(EngineError::UnexpectedEof);
            },
        };
        match next {
            Token::Number(s) => {
                self.advance();
                Ok(Expr::Number(s))
            },
            Token::Pi => {
                self.advance();
                Ok(Expr::Pi)
            },
            Token::Euler => {
                self.advance();
                Ok(Expr::Euler)
            },
            Token::LParen => {
                self.advance();
                let inner = self.parse_add()?;
                match self.expect(Token::RParen) {
                    Ok(()) => Ok(inner),
                    Err(_) => Err(EngineError::MissingCloseParen),
                }
            },
            Token::Sqrt => self.parse_fn1(UnaryFn::Sqrt),
            Token::Sin => self.parse_fn1(UnaryFn::Sin),
            Token::Cos => self.parse_fn1(UnaryFn::Cos),
            Token::Tan => self.parse_fn1(UnaryFn::Tan),
            Token::Asin => self.parse_fn1(UnaryFn::Asin),
            Token::Acos => self.parse_fn1(UnaryFn::Acos),
            Token::Atan => self.parse_fn1(UnaryFn::Atan),
            Token::Ln => self.parse_fn1(UnaryFn::Ln),
            Token::Log => self.parse_fn1(UnaryFn::Log),
            Token::Exp => self.parse_fn1(UnaryFn::Exp),
            Token::Abs => self.parse_fn1(UnaryFn::Abs),
            _ => Err(EngineError::UnexpectedToken { pos: self.pos_span() }),
        }
    }

    /// Parse a unary function that accepts `(arg)` or a bare `arg` (for √).
    fn parse_fn1(&mut self, func: UnaryFn) -> (r: Result<Expr, EngineError>)
        requires
            old(self).pos < old(self).tokens.len(),
        ensures
            final(self).tokens == old(self).tokens,
            match p_fn1(old(self).tv(), func, old(self).pos as int) {
                Ok((e, q)) => r matches Ok(x) && x@ == e && final(self).pos == q,
                Err(err) => r matches Err(x) && x@ == err,
            },
            r is Ok ==> old(self).pos < final(self).pos <= final(self).tokens.len(),
        decreases old(self).tokens.len() - old(self).pos, 2int,
    {
        self.advance();  // consume function name
        // Allow `sqrt 4` (no paren) for √ symbol convenience; all others require parens.
        let arg = if let Some(Token::LParen) = self.peek() {
            self.advance();  // consume '('
            let e = self.parse_add()?;
            match self.expect(Token::RParen) {
                Ok(()) => {},
                Err(_) => {
                    return Err(EngineError::MissingCloseParen);
                },
            }
            e
        } else if matches!(func, UnaryFn::Sqrt) {
            self.parse_atom()?
        } else {
            return Err(EngineError::UnexpectedToken { pos: self.pos_span() });
        };
        Ok(Expr::UnaryFn(func, Box::new(arg)))
    }
}

/// Parse an expression string into an [`Expr`] AST.
pub fn parse(src: &str) -> (r: Result<Expr, EngineError>)
    ensures
        match parse_spec(src@) {
            Ok(e) => r matches Ok(x) && x@ == e,
            Err(err) => r matches Err(x) && x@ == err,
        },
{
    let tokens = tokenize(src)?;
    let ghost ts = tokenize_spec(src@)->Ok_0;
    proof {
        assert(toks_view(tokens@) =~= token_pairs(ts));
    }
    if tokens.len() == 0 {
        return Err(EngineError::UnexpectedEof);
    }
    let mut p = Parser::new(tokens);
    let expr = p.parse_add()?;
    if p.pos < p.tokens.len() {
        return Err(EngineError::UnexpectedToken { pos: p.pos_span() });
    }
    Ok(expr)
}

} // verus!
