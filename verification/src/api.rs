//! The calculator's outward API: expression evaluation to a display string,
//! the error types handed to callers, and the library version.
use vstd::prelude::*;
use crate::error::engine_error_text;
use crate::eval::{AngleMode, Evaluator, eval_str_spec};
use crate::display::decimal_string_spec;
use crate::number::DEFAULT_PREC;

verus! {

/// Calculator evaluation error.
#[derive(Debug, Clone, PartialEq, Eq)]
pub enum CalcError {
    Eval(String),
}

/// Unit conversion error.
#[derive(Debug, Clone, PartialEq, Eq)]
pub enum ConvertError {
    Convert(String),
}

/// Loan calculation error.
#[derive(Debug, Clone, PartialEq, Eq)]
pub enum FfiLoanError {
    Loan(String),
}

impl CalcError {
    /// The message (the carried text).
    pub fn message(&self) -> (s: String)
        ensures
            s@ == (match self {
                CalcError::Eval(m) => m@,
            }),
    {
        match self {
            CalcError::Eval(m) => m.clone(),
        }
    }
}

impl ConvertError {
    /// The message (the carried text).
    pub fn message(&self) -> (s: String)
        ensures
            s@ == (match self {
                ConvertError::Convert(m) => m@,
            }),
    {
        match self {
            ConvertError::Convert(m) => m.clone(),
        }
    }
}

impl FfiLoanError {
    /// The message (the carried text).
    pub fn message(&self) -> (s: String)
        ensures
            s@ == (match self {
                FfiLoanError::Loan(m) => m@,
            }),
    {
        match self {
            FfiLoanError::Loan(m) => m.clone(),
        }
    }
}

pub open spec fn mode_of(degrees_mode: bool) -> AngleMode {
    if degrees_mode {
        AngleMode::Degrees
    } else {
        AngleMode::Radians
    }
}

/// Evaluate an arithmetic expression; `degrees_mode` makes trigonometric
/// functions work in degrees. The result is a decimal string of up to 18
/// significant digits; an error carries the engine error's message.
pub fn calc_eval(expression: String, degrees_mode: bool) -> (r: Result<String, CalcError>)
    ensures
        match eval_str_spec(mode_of(degrees_mode), DEFAULT_PREC, expression@) {
            Ok(v) => r matches Ok(s) && s@ == decimal_string_spec(v, 18),
            Err(e) => r matches Err(CalcError::Eval(m)) && m@ == engine_error_text(e),
        },
{
    let mode = if degrees_mode {
        AngleMode::Degrees
    } else {
        AngleMode::Radians
    };
    let eval = Evaluator::new(mode);
    match eval.eval_str(expression.as_str()) {
        Ok(n) => Ok(n.to_decimal_string(18)),
        Err(e) => Err(CalcError::Eval(e.message())),
    }
}

/// Library version string.
pub fn calcrux_version() -> (v: String)
    ensures
        v@ == "0.1.4"@,
{
    "0.1.4".to_owned()
}

} // verus!
