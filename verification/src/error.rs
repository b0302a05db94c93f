use vstd::prelude::*;
use crate::rational::{nat_dec, i128_to_string};

verus! {

/// Errors raised while lexing, parsing or evaluating an expression.
#[derive(Debug, Clone, PartialEq, Eq)]
pub enum EngineError {
    UnexpectedChar { pos: usize, ch: char },
    UnexpectedToken { pos: usize },
    UnexpectedEof,
    MissingCloseParen,
    DivisionByZero,
    Domain(&'static str),
    Overflow,
    InvalidNumber(String),
}

/// Mathematical model of an [`EngineError`]: texts are character sequences.
pub enum EngineErrorV {
    UnexpectedChar { pos: usize, ch: char },
    UnexpectedToken { pos: usize },
    UnexpectedEof,
    MissingCloseParen,
    DivisionByZero,
    Domain(Seq<char>),
    Overflow,
    InvalidNumber(Seq<char>),
}

impl View for EngineError {
    type V = EngineErrorV;

    open spec fn view(&self) -> EngineErrorV {
        match self {
            EngineError::UnexpectedChar { pos, ch } => EngineErrorV::UnexpectedChar { pos: *pos, ch: *ch },
            EngineError::UnexpectedToken { pos } => EngineErrorV::UnexpectedToken { pos: *pos },
            EngineError::UnexpectedEof => EngineErrorV::UnexpectedEof,
            EngineError::MissingCloseParen => EngineErrorV::MissingCloseParen,
            EngineError::DivisionByZero => EngineErrorV::DivisionByZero,
            EngineError::Domain(s) => EngineErrorV::Domain(s@),
            EngineError::Overflow => EngineErrorV::Overflow,
            EngineError::InvalidNumber(s) => EngineErrorV::InvalidNumber(s@),
        }
    }
}

/// `Debug` of a `char`: the character quoted, with escapes.
pub uninterp spec fn char_debug(c: char) -> Seq<char>;

/// `format!("{:?}", c)`.
#[verifier::external_body]
fn char_debug_text(c: char) -> (s: String)
    ensures
        s@ == char_debug(c),
{
    format!("{:?}", c)
}

/// The message of an error.
pub open spec fn engine_error_text(e: EngineErrorV) -> Seq<char> {
    match e {
        EngineErrorV::UnexpectedChar { pos, ch } => "unexpected character at position "@ + nat_dec(
            pos as nat,
        ) + ": "@ + char_debug(ch),
        EngineErrorV::UnexpectedToken { pos } => "unexpected token at position "@ + nat_dec(
            pos as nat,
        ),
        EngineErrorV::UnexpectedEof => "unexpected end of input"@,
        EngineErrorV::MissingCloseParen => "expected closing parenthesis"@,
        EngineErrorV::DivisionByZero => "division by zero"@,
        EngineErrorV::Domain(s) => "domain error: "@ + s,
        EngineErrorV::Overflow => "overflow"@,
        EngineErrorV::InvalidNumber(s) => "invalid number literal: "@ + s,
    }
}

impl EngineError {
    /// The error's message, as its `Display` shows it.
    pub fn message(&self) -> (s: String)
        ensures
            s@ == engine_error_text(self@),
    {
        match self {
            EngineError::UnexpectedChar { pos, ch } => {
                let mut s = "unexpected character at position ".to_owned();
                s.append(i128_to_string(*pos as i128).as_str());
                s.append(": ");
                s.append(char_debug_text(*ch).as_str());
                s
            },
            EngineError::UnexpectedToken { pos } => {
                let mut s = "unexpected token at position ".to_owned();
                s.append(i128_to_string(*pos as i128).as_str());
                s
            },
            EngineError::UnexpectedEof => "unexpected end of input".to_owned(),
            EngineError::MissingCloseParen => "expected closing parenthesis".to_owned(),
            EngineError::DivisionByZero => "division by zero".to_owned(),
            EngineError::Domain(d) => {
                let mut s = "domain error: ".to_owned();
                s.append(d);
                s
            },
            EngineError::Overflow => "overflow".to_owned(),
            EngineError::InvalidNumber(n) => {
                let mut s = "invalid number literal: ".to_owned();
                s.append(n.as_str());
                s
            },
        }
    }
}

} // verus!
