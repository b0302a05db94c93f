//! The repayment methods.
use vstd::prelude::*;

verus! {

/// Fixed monthly payment; interest-heavy at first.
#[derive(Debug, Clone, Copy, PartialEq, Eq, Structural)]
pub struct EqualPayment;

/// Fixed principal per period; the payment falls each month.
#[derive(Debug, Clone, Copy, PartialEq, Eq, Structural)]
pub struct EqualPrincipal;

} // verus!
