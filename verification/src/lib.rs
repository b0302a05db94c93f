//! Calculator core: an expression lexer and parser, an evaluator that stays
//! exact on rationals and falls back to arbitrary-precision reals, decimal
//! display, and the decisions behind unit, currency and loan conversions.

pub mod error;
pub mod text;
pub mod lexer;
pub mod parser;
pub mod parse_print;
pub mod rational;
pub mod fraction;
pub mod bigfloat;
pub mod number;
pub mod eval;
pub mod display;
pub mod refeed;
pub mod repeating;
pub mod api;
pub mod loan;
pub mod fx;
pub mod units;
pub mod laws;
pub mod eval_laws;
pub mod op_laws;
pub mod lexer_laws;

pub use error::EngineError;
