use calcrux::lexer::{tokenize, Token};
use calcrux::EngineError;

fn lex(src: &str) -> Vec<Token> {
    tokenize(src).unwrap().into_iter().map(|(t, _)| t).collect()
}

fn number(s: &str) -> Token {
    Token::Number(s.to_string())
}

#[test]
fn single_digits() {
    assert_eq!(lex("1+2"), vec![number("1"), Token::Plus, number("2")]);
}

#[test]
fn decimals_and_scientific() {
    assert_eq!(
        lex("3.14 + .5 - 2e10 * 1.5E-3"),
        vec![
            number("3.14"),
            Token::Plus,
            number(".5"),
            Token::Minus,
            number("2e10"),
            Token::Mul,
            number("1.5E-3"),
        ]
    );
}

#[test]
fn unicode_operators() {
    assert_eq!(
        lex("7 × 8 ÷ 2 − 1"),
        vec![
            number("7"),
            Token::Mul,
            number("8"),
            Token::Div,
            number("2"),
            Token::Minus,
            number("1"),
        ]
    );
}

#[test]
fn constants_and_functions() {
    assert_eq!(
        lex("sin(π) + e + ln(2)"),
        vec![
            Token::Sin,
            Token::LParen,
            Token::Pi,
            Token::RParen,
            Token::Plus,
            Token::Euler,
            Token::Plus,
            Token::Ln,
            Token::LParen,
            number("2"),
            Token::RParen,
        ]
    );
}

#[test]
fn sqrt_alternate_spellings() {
    assert_eq!(lex("√4"), vec![Token::Sqrt, number("4")]);
    assert_eq!(lex("sqrt(4)"), vec![Token::Sqrt, Token::LParen, number("4"), Token::RParen]);
}

#[test]
fn factorial_and_percent_and_power() {
    assert_eq!(
        lex("5! + 10% ^ 2"),
        vec![
            number("5"),
            Token::Fact,
            Token::Plus,
            number("10"),
            Token::Percent,
            Token::Pow,
            number("2"),
        ]
    );
}

#[test]
fn euler_vs_scientific_notation() {
    // `2e5` is one number token (scientific).
    assert_eq!(lex("2e5"), vec![number("2e5")]);
    // `2e` with no digit after it is a number, then Euler's constant.
    assert_eq!(lex("2e"), vec![number("2"), Token::Euler]);
    // A bare `e` is Euler's constant.
    assert_eq!(lex("e"), vec![Token::Euler]);
}

#[test]
fn unexpected_character() {
    let err = tokenize("1 @ 2").unwrap_err();
    assert!(matches!(err, EngineError::UnexpectedChar { ch: '@', .. }));
}

#[test]
fn whitespace_is_ignored() {
    assert_eq!(lex("  1\t+\n2 "), vec![number("1"), Token::Plus, number("2")]);
}

#[test]
fn spans_are_byte_offsets() {
    let toks = tokenize("π+12").unwrap();
    assert_eq!(toks[0].1, 0..2);
    assert_eq!(toks[1].1, 2..3);
    assert_eq!(toks[2].1, 3..5);
}

#[test]
fn unexpected_character_position_is_a_byte_offset() {
    let err = tokenize("π#").unwrap_err();
    assert_eq!(err, EngineError::UnexpectedChar { pos: 2, ch: '#' });
}

#[test]
fn each_token_text_relexes_to_itself() {
    let src = "2sin(1.5e-3) × √π";
    for (t, sp) in tokenize(src).unwrap() {
        let text = &src[sp.clone()];
        assert_eq!(tokenize(text).unwrap(), vec![(t, 0..text.len())]);
    }
}

#[test]
fn text_before_a_bad_character_lexes() {
    let src = "1 + 2e @";
    match tokenize(src).unwrap_err() {
        EngineError::UnexpectedChar { pos, ch } => {
            assert_eq!(ch, '@');
            assert!(src.is_char_boundary(pos));
            assert!(tokenize(&src[..pos]).is_ok());
        }
        e => panic!("unexpected error {e:?}"),
    }
}

#[test]
fn spans_are_ordered_and_gaps_are_whitespace() {
    let src = " 12 \t+ π\n";
    let toks = tokenize(src).unwrap();
    let mut last = 0;
    for (_, sp) in &toks {
        assert!(sp.start < sp.end && last <= sp.start);
        assert!(src[last..sp.start].chars().all(|c| c == ' ' || c == '\t' || c == '\r' || c == '\n'));
        last = sp.end;
    }
    assert!(src[last..].chars().all(|c| c.is_whitespace()));
}
