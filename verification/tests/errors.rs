use calcrux::EngineError;

#[test]
fn engine_error_messages() {
    assert_eq!(
        EngineError::UnexpectedChar { pos: 3, ch: '#' }.message(),
        "unexpected character at position 3: '#'"
    );
    assert_eq!(EngineError::UnexpectedToken { pos: 7 }.message(), "unexpected token at position 7");
    assert_eq!(EngineError::UnexpectedEof.message(), "unexpected end of input");
    assert_eq!(EngineError::MissingCloseParen.message(), "expected closing parenthesis");
    assert_eq!(EngineError::DivisionByZero.message(), "division by zero");
    assert_eq!(EngineError::Domain("ln domain is (0, ∞)").message(), "domain error: ln domain is (0, ∞)");
    assert_eq!(EngineError::Overflow.message(), "overflow");
    assert_eq!(
        EngineError::InvalidNumber("0.".to_string()).message(),
        "invalid number literal: 0."
    );
}

#[test]
fn unexpected_character_message_escapes_the_character() {
    assert_eq!(
        EngineError::UnexpectedChar { pos: 0, ch: '\'' }.message(),
        "unexpected character at position 0: '\\''"
    );
}
