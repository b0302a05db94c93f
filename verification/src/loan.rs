//! Loan amortization: the error type, the two repayment methods and the
//! checks made on a loan's terms before any schedule is computed.
//!
//! - **Equal Payment** ("annuity"): a fixed monthly payment; each instalment
//!   covers accrued interest first, then principal.
//! - **Equal Principal**: a fixed principal repayment each period; the total
//!   payment decreases over time.
use vstd::prelude::*;

pub mod repayment_method;

pub use repayment_method::{EqualPayment, EqualPrincipal};

verus! {

#[derive(Debug, Clone, Copy, PartialEq, Eq, Structural)]
pub enum LoanError {
    InvalidPrincipal,
    InvalidRate,
    InvalidTerm,
}

impl LoanError {
    /// The error's message, as its `Display` shows it.
    pub fn message(&self) -> (s: &'static str)
        ensures
            s@ == (match self {
                LoanError::InvalidPrincipal => "principal must be positive"@,
                LoanError::InvalidRate => "annual rate must be non-negative"@,
                LoanError::InvalidTerm => "term must be at least 1 month"@,
            }),
    {
        match self {
            LoanError::InvalidPrincipal => "principal must be positive",
            LoanError::InvalidRate => "annual rate must be non-negative",
            LoanError::InvalidTerm => "term must be at least 1 month",
        }
    }
}

/// The checks on a loan's terms, in order: a principal that is not above
/// zero, then a negative annual rate, then a term of zero months.
pub fn check_terms(principal_at_most_zero: bool, rate_below_zero: bool, months: u32) -> (r:
    Result<(), LoanError>)
    ensures
        principal_at_most_zero ==> r == Err::<(), LoanError>(LoanError::InvalidPrincipal),
        !principal_at_most_zero && rate_below_zero ==> r == Err::<(), LoanError>(
            LoanError::InvalidRate,
        ),
        !principal_at_most_zero && !rate_below_zero && months == 0 ==> r == Err::<(), LoanError>(
            LoanError::InvalidTerm,
        ),
        !principal_at_most_zero && !rate_below_zero && months > 0 ==> r == Ok::<(), LoanError>(()),
{
    if principal_at_most_zero {
        return Err(LoanError::InvalidPrincipal);
    }
    if rate_below_zero {
        return Err(LoanError::InvalidRate);
    }
    if months == 0 {
        return Err(LoanError::InvalidTerm);
    }
    Ok(())
}

pub fn version() -> (v: &'static str)
    ensures
        v@ == "0.1.4"@,
{
    "0.1.4"
}

} // verus!
