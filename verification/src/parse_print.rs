//! Printing an expression with every node in parentheses, and the law that
//! parsing such a printout gives the expression back.
use vstd::prelude::*;
use crate::lexer::TokenV;
use crate::parser::{
    BinOp, ExprV, UnaryFn, bin, fn_of, p_add, p_add_rest, p_atom, p_fn1, p_mul, p_mul_rest, p_postfix,
    p_postfix_rest, p_pow, p_unary, parse_tokens, starts_operand, tok,
};

verus! {

pub open spec fn op_token(op: BinOp) -> TokenV {
    match op {
        BinOp::Add => TokenV::Plus,
        BinOp::Sub => TokenV::Minus,
        BinOp::Mul => TokenV::Mul,
        BinOp::Div => TokenV::Div,
    }
}

pub open spec fn fn_token(f: UnaryFn) -> TokenV {
    match f {
        UnaryFn::Sin => TokenV::Sin,
        UnaryFn::Cos => TokenV::Cos,
        UnaryFn::Tan => TokenV::Tan,
        UnaryFn::Asin => TokenV::Asin,
        UnaryFn::Acos => TokenV::Acos,
        UnaryFn::Atan => TokenV::Atan,
        UnaryFn::Ln => TokenV::Ln,
        UnaryFn::Log => TokenV::Log,
        UnaryFn::Exp => TokenV::Exp,
        UnaryFn::Abs => TokenV::Abs,
        UnaryFn::Sqrt => TokenV::Sqrt,
    }
}

/// The tokens of `e` written as `( body )`.
pub open spec fn print_expr(e: ExprV) -> Seq<TokenV>
    decreases e, 1int,
{
    seq![TokenV::LParen] + print_body(e) + seq![TokenV::RParen]
}

/// The tokens of `e` without its own parentheses; every operand is printed
/// with `print_expr`.
pub open spec fn print_body(e: ExprV) -> Seq<TokenV>
    decreases e, 0int,
{
    match e {
        ExprV::Number(s) => seq![TokenV::Number(s)],
        ExprV::Pi => seq![TokenV::Pi],
        ExprV::Euler => seq![TokenV::Euler],
        ExprV::Negate(x) => seq![TokenV::Minus] + print_expr(*x),
        ExprV::BinOp(l, op, r) => print_expr(*l) + seq![op_token(op)] + print_expr(*r),
        ExprV::UnaryFn(f, x) => seq![fn_token(f)] + print_expr(*x),
        ExprV::Pow(b, x) => print_expr(*b) + seq![TokenV::Pow] + print_expr(*x),
        ExprV::Factorial(x) => print_expr(*x) + seq![TokenV::Fact],
        ExprV::Percent(x) => print_expr(*x) + seq![TokenV::Percent],
    }
}

/// The tokens of `t` from `p` on begin with `s`.
pub open spec fn toks_at(t: Seq<(TokenV, int)>, p: int, s: Seq<TokenV>) -> bool {
    &&& 0 <= p
    &&& p + s.len() <= t.len()
    &&& forall|i: int| 0 <= i < s.len() ==> #[trigger] t[p + i].0 == s[i]
}

proof fn lemma_toks_at_split(t: Seq<(TokenV, int)>, p: int, a: Seq<TokenV>, b: Seq<TokenV>)
    requires
        toks_at(t, p, a + b),
    ensures
        toks_at(t, p, a),
        toks_at(t, p + a.len(), b),
{
    assert forall|i: int| 0 <= i < a.len() implies #[trigger] t[p + i].0 == a[i] by {
        assert(t[p + i].0 == (a + b)[i]);
    }
    assert forall|i: int| 0 <= i < b.len() implies #[trigger] t[p + a.len() + i].0 == b[i] by {
        assert(t[p + (a.len() + i)].0 == (a + b)[a.len() + i]);
        assert(p + (a.len() + i) == p + a.len() + i);
    }
}

proof fn lemma_toks_at_three(
    t: Seq<(TokenV, int)>,
    p: int,
    a: Seq<TokenV>,
    b: Seq<TokenV>,
    c: Seq<TokenV>,
)
    requires
        toks_at(t, p, a + b + c),
    ensures
        toks_at(t, p, a),
        toks_at(t, p + a.len(), b),
        toks_at(t, p + a.len() + b.len(), c),
{
    lemma_toks_at_split(t, p, a + b, c);
    lemma_toks_at_split(t, p, a, b);
}

proof fn lemma_fn_token(f: UnaryFn)
    ensures
        fn_of(fn_token(f)) == Some(f),
        !starts_operand(fn_token(f)) || fn_token(f) != TokenV::Minus,
{
}

/// An atom that is a printed expression parses to that expression.
proof fn lemma_atom(e: ExprV, t: Seq<(TokenV, int)>, p: int)
    requires
        toks_at(t, p, print_expr(e)),
    ensures
        p_atom(t, p) == Ok::<(ExprV, int), crate::error::EngineErrorV>(
            (e, p + print_expr(e).len()),
        ),
    decreases e, 3int,
{
    let b = print_body(e);
    lemma_toks_at_three(t, p, seq![TokenV::LParen], b, seq![TokenV::RParen]);
    assert(t[p + 0].0 == seq![TokenV::LParen][0]);
    assert(t[p + 1 + b.len() + 0].0 == seq![TokenV::RParen][0]);
    lemma_body(e, t, p + 1);
}

/// A printed expression followed by a token that neither applies a postfix
/// operator nor raises it to a power is a complete unary expression.
proof fn lemma_unary(e: ExprV, t: Seq<(TokenV, int)>, p: int)
    requires
        toks_at(t, p, print_expr(e)),
        tok(t, p + print_expr(e).len()) != Some(TokenV::Fact),
        tok(t, p + print_expr(e).len()) != Some(TokenV::Percent),
        tok(t, p + print_expr(e).len()) != Some(TokenV::Pow),
    ensures
        p_unary(t, p) == Ok::<(ExprV, int), crate::error::EngineErrorV>(
            (e, p + print_expr(e).len()),
        ),
    decreases e, 4int,
{
    assert(t[p + 0].0 == print_expr(e)[0]);
    lemma_atom(e, t, p);
    let q = p + print_expr(e).len();
    assert(p_postfix_rest(t, e, q) == Ok::<(ExprV, int), crate::error::EngineErrorV>((e, q)));
    assert(p_postfix(t, p) == Ok::<(ExprV, int), crate::error::EngineErrorV>((e, q)));
    assert(p_pow(t, p) == Ok::<(ExprV, int), crate::error::EngineErrorV>((e, q)));
}

/// ... and, when the next token is not a multiplicative operator or an
/// operand, a complete multiplicative expression.
proof fn lemma_mul(e: ExprV, t: Seq<(TokenV, int)>, p: int)
    requires
        toks_at(t, p, print_expr(e)),
        tok(t, p + print_expr(e).len()) == Some(TokenV::Plus) || tok(
            t,
            p + print_expr(e).len(),
        ) == Some(TokenV::Minus) || tok(t, p + print_expr(e).len()) == Some(TokenV::RParen)
            || tok(t, p + print_expr(e).len()) is None,
    ensures
        p_mul(t, p) == Ok::<(ExprV, int), crate::error::EngineErrorV>(
            (e, p + print_expr(e).len()),
        ),
    decreases e, 5int,
{
    lemma_unary(e, t, p);
    let q = p + print_expr(e).len();
    assert(p_mul_rest(t, e, q) == Ok::<(ExprV, int), crate::error::EngineErrorV>((e, q)));
}

/// The body of a printed expression, followed by `)`, is a complete
/// additive expression.
proof fn lemma_body(e: ExprV, t: Seq<(TokenV, int)>, p: int)
    requires
        toks_at(t, p, print_body(e)),
        tok(t, p + print_body(e).len()) == Some(TokenV::RParen),
    ensures
        p_add(t, p) == Ok::<(ExprV, int), crate::error::EngineErrorV>(
            (e, p + print_body(e).len()),
        ),
    decreases e, 2int,
{
    let n = print_body(e).len();
    let end = p + n;
    match e {
        ExprV::BinOp(l, op, r) => {
            let pl = print_expr(*l);
            let pr = print_expr(*r);
            lemma_toks_at_three(t, p, pl, seq![op_token(op)], pr);
            assert(t[p + pl.len() + 0].0 == seq![op_token(op)][0]);
            let m = p + pl.len();
            if op == BinOp::Add || op == BinOp::Sub {
                lemma_mul(*l, t, p);
                lemma_mul(*r, t, m + 1);
                assert(p_add_rest(t, e, end) == Ok::<(ExprV, int), crate::error::EngineErrorV>(
                    (e, end),
                ));
                assert(p_add_rest(t, *l, m) == p_add_rest(t, e, end));
            } else {
                lemma_unary(*l, t, p);
                lemma_unary(*r, t, m + 1);
                assert(p_mul_rest(t, e, end) == Ok::<(ExprV, int), crate::error::EngineErrorV>(
                    (e, end),
                ));
                assert(p_mul_rest(t, *l, m) == p_mul_rest(t, e, end));
                assert(p_add_rest(t, e, end) == Ok::<(ExprV, int), crate::error::EngineErrorV>(
                    (e, end),
                ));
            }
        },
        _ => {
            lemma_body_unary(e, t, p);
            assert(p_mul_rest(t, e, end) == Ok::<(ExprV, int), crate::error::EngineErrorV>(
                (e, end),
            ));
            assert(p_add_rest(t, e, end) == Ok::<(ExprV, int), crate::error::EngineErrorV>(
                (e, end),
            ));
        },
    }
}

/// The body of a printed non-binary expression, followed by `)`, is a
/// complete unary expression.
proof fn lemma_body_unary(e: ExprV, t: Seq<(TokenV, int)>, p: int)
    requires
        toks_at(t, p, print_body(e)),
        tok(t, p + print_body(e).len()) == Some(TokenV::RParen),
        !(e is BinOp),
    ensures
        p_unary(t, p) == Ok::<(ExprV, int), crate::error::EngineErrorV>(
            (e, p + print_body(e).len()),
        ),
    decreases e, 1int,
{
    match e {
        ExprV::Negate(x) => lemma_body_negate(e, t, p),
        ExprV::UnaryFn(f, x) => lemma_body_fn(e, t, p),
        ExprV::Pow(b, x) => lemma_body_pow(e, t, p),
        ExprV::Factorial(x) => lemma_body_postfix(e, t, p),
        ExprV::Percent(x) => lemma_body_postfix(e, t, p),
        _ => lemma_body_leaf(e, t, p),
    }
}

proof fn lemma_body_leaf(e: ExprV, t: Seq<(TokenV, int)>, p: int)
    requires
        toks_at(t, p, print_body(e)),
        tok(t, p + print_body(e).len()) == Some(TokenV::RParen),
        e is Number || e is Pi || e is Euler,
    ensures
        p_unary(t, p) == Ok::<(ExprV, int), crate::error::EngineErrorV>(
            (e, p + print_body(e).len()),
        ),
    decreases e, 0int,
{
    assert(t[p + 0].0 == print_body(e)[0]);
    assert(print_body(e).len() == 1);
    assert(p_atom(t, p) == Ok::<(ExprV, int), crate::error::EngineErrorV>((e, p + 1)));
    assert(p_postfix_rest(t, e, p + 1) == Ok::<(ExprV, int), crate::error::EngineErrorV>(
        (e, p + 1),
    ));
    assert(p_postfix(t, p) == Ok::<(ExprV, int), crate::error::EngineErrorV>((e, p + 1)));
    assert(p_pow(t, p) == Ok::<(ExprV, int), crate::error::EngineErrorV>((e, p + 1)));
}

proof fn lemma_body_negate(e: ExprV, t: Seq<(TokenV, int)>, p: int)
    requires
        toks_at(t, p, print_body(e)),
        tok(t, p + print_body(e).len()) == Some(TokenV::RParen),
        e is Negate,
    ensures
        p_unary(t, p) == Ok::<(ExprV, int), crate::error::EngineErrorV>(
            (e, p + print_body(e).len()),
        ),
    decreases e, 0int,
{
    if let ExprV::Negate(x) = e {
        lemma_toks_at_split(t, p, seq![TokenV::Minus], print_expr(*x));
        assert(t[p + 0].0 == seq![TokenV::Minus][0]);
        lemma_unary(*x, t, p + 1);
    }
}

proof fn lemma_body_fn(e: ExprV, t: Seq<(TokenV, int)>, p: int)
    requires
        toks_at(t, p, print_body(e)),
        tok(t, p + print_body(e).len()) == Some(TokenV::RParen),
        e is UnaryFn,
    ensures
        p_unary(t, p) == Ok::<(ExprV, int), crate::error::EngineErrorV>(
            (e, p + print_body(e).len()),
        ),
    decreases e, 0int,
{
    if let ExprV::UnaryFn(f, x) = e {
        let end = p + print_body(e).len();
        let px = print_expr(*x);
        lemma_toks_at_split(t, p, seq![fn_token(f)], px);
        assert(t[p + 0].0 == seq![fn_token(f)][0]);
        lemma_fn_token(f);
        let bx = print_body(*x);
        lemma_toks_at_three(t, p + 1, seq![TokenV::LParen], bx, seq![TokenV::RParen]);
        assert(t[p + 1 + 0].0 == seq![TokenV::LParen][0]);
        assert(t[p + 1 + 1 + bx.len() + 0].0 == seq![TokenV::RParen][0]);
        lemma_body(*x, t, p + 2);
        assert(p_fn1(t, f, p) == Ok::<(ExprV, int), crate::error::EngineErrorV>((e, end)));
        assert(p_atom(t, p) == Ok::<(ExprV, int), crate::error::EngineErrorV>((e, end)));
        assert(p_postfix_rest(t, e, end) == Ok::<(ExprV, int), crate::error::EngineErrorV>(
            (e, end),
        ));
        assert(p_postfix(t, p) == Ok::<(ExprV, int), crate::error::EngineErrorV>((e, end)));
        assert(p_pow(t, p) == Ok::<(ExprV, int), crate::error::EngineErrorV>((e, end)));
    }
}

proof fn lemma_body_pow(e: ExprV, t: Seq<(TokenV, int)>, p: int)
    requires
        toks_at(t, p, print_body(e)),
        tok(t, p + print_body(e).len()) == Some(TokenV::RParen),
        e is Pow,
    ensures
        p_unary(t, p) == Ok::<(ExprV, int), crate::error::EngineErrorV>(
            (e, p + print_body(e).len()),
        ),
    decreases e, 0int,
{
    if let ExprV::Pow(b, x) = e {
        let end = p + print_body(e).len();
        let pb = print_expr(*b);
        lemma_toks_at_three(t, p, pb, seq![TokenV::Pow], print_expr(*x));
        assert(t[p + pb.len() + 0].0 == seq![TokenV::Pow][0]);
        assert(t[p + 0].0 == pb[0]);
        lemma_atom(*b, t, p);
        let q = p + pb.len();
        assert(p_postfix_rest(t, *b, q) == Ok::<(ExprV, int), crate::error::EngineErrorV>(
            (*b, q),
        ));
        assert(p_postfix(t, p) == Ok::<(ExprV, int), crate::error::EngineErrorV>((*b, q)));
        lemma_unary(*x, t, q + 1);
        assert(p_pow(t, p) == Ok::<(ExprV, int), crate::error::EngineErrorV>((e, end)));
    }
}

proof fn lemma_body_postfix(e: ExprV, t: Seq<(TokenV, int)>, p: int)
    requires
        toks_at(t, p, print_body(e)),
        tok(t, p + print_body(e).len()) == Some(TokenV::RParen),
        e is Factorial || e is Percent,
    ensures
        p_unary(t, p) == Ok::<(ExprV, int), crate::error::EngineErrorV>(
            (e, p + print_body(e).len()),
        ),
    decreases e, 0int,
{
    let x = match e {
        ExprV::Factorial(x) => *x,
        ExprV::Percent(x) => *x,
        _ => e,
    };
    let op = if e is Factorial {
        TokenV::Fact
    } else {
        TokenV::Percent
    };
    let px = print_expr(x);
    assert(print_body(e) == px + seq![op]);
    lemma_toks_at_split(t, p, px, seq![op]);
    assert(t[p + px.len() + 0].0 == seq![op][0]);
    assert(t[p + 0].0 == px[0]);
    lemma_atom(x, t, p);
    let q = p + px.len();
    assert(p_postfix_rest(t, e, q + 1) == Ok::<(ExprV, int), crate::error::EngineErrorV>(
        (e, q + 1),
    ));
    assert(p_postfix_rest(t, x, q) == p_postfix_rest(t, e, q + 1));
    assert(p_postfix(t, p) == Ok::<(ExprV, int), crate::error::EngineErrorV>((e, q + 1)));
    assert(p_pow(t, p) == Ok::<(ExprV, int), crate::error::EngineErrorV>((e, q + 1)));
}

/// Law: writing an expression with every node in parentheses and parsing
/// those tokens gives back the same expression, whatever the token offsets.
pub proof fn law_parse_of_printed(e: ExprV, starts: Seq<int>)
    requires
        starts.len() == print_expr(e).len(),
    ensures
        parse_tokens(
            Seq::new(print_expr(e).len(), |i: int| (print_expr(e)[i], starts[i])),
        ) == Ok::<ExprV, crate::error::EngineErrorV>(e),
{
    let s = print_expr(e);
    let t = Seq::new(s.len(), |i: int| (s[i], starts[i]));
    assert(toks_at(t, 0, s)) by {
        assert forall|i: int| 0 <= i < s.len() implies #[trigger] t[0 + i].0 == s[i] by {}
    }
    lemma_mul(e, t, 0);
    assert(p_add_rest(t, e, s.len() as int) == Ok::<(ExprV, int), crate::error::EngineErrorV>(
        (e, s.len() as int),
    ));
}

/// Law: two parenthesised groups side by side multiply, `(a)(b) = a × b`,
/// for every pair of expressions, whatever the token offsets.
pub proof fn law_adjacent_groups_multiply(a: ExprV, b: ExprV, starts: Seq<int>)
    requires
        starts.len() == print_expr(a).len() + print_expr(b).len(),
    ensures
        parse_tokens(
            Seq::new(
                starts.len(),
                |i: int| ((print_expr(a) + print_expr(b))[i], starts[i]),
            ),
        ) == Ok::<ExprV, crate::error::EngineErrorV>(bin(a, BinOp::Mul, b)),
{
    let pa = print_expr(a);
    let pb = print_expr(b);
    let s = pa + pb;
    let t = Seq::new(s.len(), |i: int| (s[i], starts[i]));
    let na = pa.len() as int;
    let n = s.len() as int;
    assert(toks_at(t, 0, s)) by {
        assert forall|i: int| 0 <= i < s.len() implies #[trigger] t[0 + i].0 == s[i] by {}
    }
    lemma_toks_at_split(t, 0, pa, pb);
    assert(t[na].0 == TokenV::LParen) by {
        assert(t[na + 0].0 == pb[0]);
    }
    assert(t[na - 1].0 == TokenV::RParen) by {
        assert(t[0 + (na - 1)].0 == pa[na - 1]);
    }
    lemma_unary(a, t, 0);
    lemma_unary(b, t, na);
    let e = bin(a, BinOp::Mul, b);
    assert(p_mul_rest(t, e, n) == Ok::<(ExprV, int), crate::error::EngineErrorV>((e, n)));
    assert(p_mul_rest(t, a, na) == Ok::<(ExprV, int), crate::error::EngineErrorV>((e, n)));
    assert(p_mul(t, 0) == Ok::<(ExprV, int), crate::error::EngineErrorV>((e, n)));
    assert(p_add_rest(t, e, n) == Ok::<(ExprV, int), crate::error::EngineErrorV>((e, n)));
    assert(p_add(t, 0) == Ok::<(ExprV, int), crate::error::EngineErrorV>((e, n)));
}

/// Law: after a complete operand, any token that starts an operand begins
/// an implicit product (`2π`, `2(x+1)`, `(a)(b)`, `3sin(x)`): the operand
/// that follows is multiplied in and the product continues from there. The
/// two exceptions are a number right after a number, and `(` right after a
/// number with a decimal point.
pub proof fn law_implicit_multiplication(
    t: Seq<(TokenV, int)>,
    lhs: ExprV,
    p: int,
    y: ExprV,
    q: int,
)
    requires
        0 < p < q <= t.len(),
        starts_operand(t[p].0),
        !(t[p].0 is Number && t[p - 1].0 is Number),
        !(t[p].0 == TokenV::LParen && (t[p - 1].0 matches TokenV::Number(s) && s.contains('.'))),
        p_unary(t, p) == Ok::<(ExprV, int), crate::error::EngineErrorV>((y, q)),
    ensures
        p_mul_rest(t, lhs, p) == p_mul_rest(t, bin(lhs, BinOp::Mul, y), q),
{
    assert(t[p].0 != TokenV::Mul && t[p].0 != TokenV::Div);
}

} // verus!
