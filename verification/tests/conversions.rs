use calcrux::fx::{plan_conversion, FxError, FxRoute, RateStatus};
use calcrux::loan::{check_terms, LoanError};
use calcrux::units::{conversion_route, CategoryRules, Leg, Rule, RuleKind, UnitError};

fn rule(from: &str, to: &str, kind: RuleKind) -> Rule<()> {
    Rule { from: from.to_string(), to: to.to_string(), kind, payload: () }
}

fn ratio() -> RuleKind {
    RuleKind::Ratio { invertible: true }
}

/// A temperature-like category: base C, formulas C→F, F→C, a ratio C→X.
fn category() -> CategoryRules<()> {
    let mut c = CategoryRules::new("C".to_string());
    c.add_rule(rule("C", "F", RuleKind::Formula));
    c.add_rule(rule("F", "C", RuleKind::Formula));
    c.add_rule(rule("C", "X", ratio()));
    c.add_rule(rule("C", "Z", RuleKind::Ratio { invertible: false }));
    c.add_rule(rule("K", "C", RuleKind::Formula));
    c
}

#[test]
fn same_unit_needs_no_step_even_in_unknown_category() {
    let r = conversion_route::<()>("energy", None, "J", "J").unwrap();
    assert!(r.is_empty());
}

#[test]
fn unknown_category_is_reported() {
    assert_eq!(
        conversion_route::<()>("energy", None, "J", "cal").unwrap_err(),
        UnitError::UnknownCategory("energy".to_string())
    );
}

#[test]
fn direct_rule_is_used() {
    let c = category();
    assert_eq!(c.route("C", "F").unwrap(), vec![Leg::Apply(0)]);
}

#[test]
fn route_via_base_with_inverted_ratio() {
    let c = category();
    // X → C by inverting C → X, then C → F.
    assert_eq!(c.route("X", "F").unwrap(), vec![Leg::Invert(2), Leg::Apply(0)]);
    // K → C directly, then C → X.
    assert_eq!(c.route("K", "X").unwrap(), vec![Leg::Apply(4), Leg::Apply(2)]);
    // To the base only.
    assert_eq!(c.route("X", "C").unwrap(), vec![Leg::Invert(2)]);
}

#[test]
fn zero_ratio_cannot_be_inverted() {
    let c = category();
    assert_eq!(c.route("Z", "F").unwrap_err(), UnitError::Eval("ratio is zero or NaN".to_string()));
}

#[test]
fn missing_paths_are_reported() {
    let c = category();
    assert_eq!(
        c.route("Q", "F").unwrap_err(),
        UnitError::NoPath { from: "Q".to_string(), to: "C".to_string() }
    );
    assert_eq!(
        c.route("F", "K").unwrap_err(),
        UnitError::NoPath { from: "F".to_string(), to: "K".to_string() }
    );
}

#[test]
fn adding_a_rule_for_a_held_key_replaces_it() {
    let mut c = category();
    let n = c.len();
    let i = c.add_rule(rule("C", "X", RuleKind::Ratio { invertible: false }));
    assert_eq!(i, 2);
    assert_eq!(c.len(), n);
    assert_eq!(c.rule(2).kind, RuleKind::Ratio { invertible: false });
    assert_eq!(c.find("C", "X"), Some(2));
    assert_eq!(c.find("X", "C"), None);
    assert_eq!(c.base(), "C");
}

#[test]
fn unit_error_messages() {
    assert_eq!(UnitError::UnknownCategory("energy".into()).message(), "unknown category 'energy'");
    assert_eq!(
        UnitError::NoPath { from: "a".into(), to: "b".into() }.message(),
        "no conversion path from 'a' to 'b'"
    );
    assert_eq!(UnitError::Eval("bad".into()).message(), "formula evaluation error: bad");
}

#[test]
fn fx_same_code_is_identity() {
    assert_eq!(
        plan_conversion("USD", "USD", RateStatus::Missing, RateStatus::Missing),
        Ok(FxRoute::Identity)
    );
}

#[test]
fn fx_unknown_then_invalid_codes() {
    assert_eq!(
        plan_conversion("USD", "XYZ", RateStatus::Positive, RateStatus::Missing),
        Err(FxError::UnknownCode("XYZ".to_string()))
    );
    assert_eq!(
        plan_conversion("ABC", "XYZ", RateStatus::Missing, RateStatus::Missing),
        Err(FxError::UnknownCode("ABC".to_string()))
    );
    assert_eq!(
        plan_conversion("USD", "EUR", RateStatus::NotPositive, RateStatus::Positive),
        Err(FxError::InvalidRate("USD".to_string()))
    );
    assert_eq!(
        plan_conversion("USD", "EUR", RateStatus::Positive, RateStatus::NotPositive),
        Err(FxError::InvalidRate("EUR".to_string()))
    );
    assert_eq!(
        plan_conversion("USD", "EUR", RateStatus::Positive, RateStatus::Positive),
        Ok(FxRoute::Scale)
    );
}

#[test]
fn fx_error_messages() {
    assert_eq!(FxError::UnknownCode("XYZ".into()).message(), "unknown currency code 'XYZ'");
    assert_eq!(
        FxError::InvalidRate("EUR".into()).message(),
        "invalid rate for 'EUR': must be positive"
    );
}

#[test]
fn loan_terms_are_checked_in_order() {
    assert_eq!(check_terms(true, true, 0), Err(LoanError::InvalidPrincipal));
    assert_eq!(check_terms(false, true, 0), Err(LoanError::InvalidRate));
    assert_eq!(check_terms(false, false, 0), Err(LoanError::InvalidTerm));
    assert_eq!(check_terms(false, false, 12), Ok(()));
}

#[test]
fn loan_error_messages() {
    assert_eq!(LoanError::InvalidPrincipal.message(), "principal must be positive");
    assert_eq!(LoanError::InvalidRate.message(), "annual rate must be non-negative");
    assert_eq!(LoanError::InvalidTerm.message(), "term must be at least 1 month");
}
