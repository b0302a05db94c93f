//! Foreign-exchange conversion: the error type and the decisions made
//! before rates are applied.
//!
//! All rates are relative to USD (1 USD = X units of a currency); `amount`
//! converts from `from` to `to` as `amount × (rate[to] / rate[from])`.
use vstd::prelude::*;
use crate::text::same_text;

verus! {

#[derive(Debug, Clone, PartialEq, Eq)]
pub enum FxError {
    UnknownCode(String),
    InvalidRate(String),
}

/// Mathematical model of an [`FxError`].
pub enum FxErrorV {
    UnknownCode(Seq<char>),
    InvalidRate(Seq<char>),
}

impl View for FxError {
    type V = FxErrorV;

    open spec fn view(&self) -> FxErrorV {
        match self {
            FxError::UnknownCode(c) => FxErrorV::UnknownCode(c@),
            FxError::InvalidRate(c) => FxErrorV::InvalidRate(c@),
        }
    }
}

impl FxError {
    /// The error's message, as its `Display` shows it.
    pub fn message(&self) -> (s: String)
        ensures
            s@ == (match self@ {
                FxErrorV::UnknownCode(c) => "unknown currency code '"@ + c + "'"@,
                FxErrorV::InvalidRate(c) => "invalid rate for '"@ + c + "': must be positive"@,
            }),
    {
        match self {
            FxError::UnknownCode(c) => {
                let mut s = "unknown currency code '".to_owned();
                s.append(c.as_str());
                s.append("'");
                s
            },
            FxError::InvalidRate(c) => {
                let mut s = "invalid rate for '".to_owned();
                s.append(c.as_str());
                s.append("': must be positive");
                s
            },
        }
    }
}

/// What a rate table holds for a currency code.
#[derive(Debug, Clone, Copy, PartialEq, Eq, Structural)]
pub enum RateStatus {
    Missing,
    NotPositive,
    Positive,
}

/// How an amount converts.
#[derive(Debug, Clone, Copy, PartialEq, Eq, Structural)]
pub enum FxRoute {
    /// Same currency: the amount as it is.
    Identity,
    /// `amount × (rate[to] / rate[from])`.
    Scale,
}

pub open spec fn plan_spec(from: Seq<char>, to: Seq<char>, fr: RateStatus, tr: RateStatus) -> Result<
    FxRoute,
    FxErrorV,
> {
    if from == to {
        Ok(FxRoute::Identity)
    } else if fr == RateStatus::Missing {
        Err(FxErrorV::UnknownCode(from))
    } else if tr == RateStatus::Missing {
        Err(FxErrorV::UnknownCode(to))
    } else if fr == RateStatus::NotPositive {
        Err(FxErrorV::InvalidRate(from))
    } else if tr == RateStatus::NotPositive {
        Err(FxErrorV::InvalidRate(to))
    } else {
        Ok(FxRoute::Scale)
    }
}

/// The decisions of a conversion from `from` to `to`, given what the table
/// holds for each code: the same code converts to itself, an unknown code
/// and then a rate that is not positive are errors, in that order.
pub fn plan_conversion(from: &str, to: &str, from_rate: RateStatus, to_rate: RateStatus) -> (r:
    Result<FxRoute, FxError>)
    ensures
        match plan_spec(from@, to@, from_rate, to_rate) {
            Ok(route) => r == Ok::<FxRoute, FxError>(route),
            Err(e) => r matches Err(x) && x@ == e,
        },
{
    if same_text(from, to) {
        return Ok(FxRoute::Identity);
    }
    if from_rate == RateStatus::Missing {
        return Err(FxError::UnknownCode(from.to_owned()));
    }
    if to_rate == RateStatus::Missing {
        return Err(FxError::UnknownCode(to.to_owned()));
    }
    if from_rate == RateStatus::NotPositive {
        return Err(FxError::InvalidRate(from.to_owned()));
    }
    if to_rate == RateStatus::NotPositive {
        return Err(FxError::InvalidRate(to.to_owned()));
    }
    Ok(FxRoute::Scale)
}

pub fn version() -> (v: &'static str)
    ensures
        v@ == "0.1.4"@,
{
    "0.1.4"
}

} // verus!
