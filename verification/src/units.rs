//! Unit conversion routing.
//!
//! Each category has a **base** unit and directed conversion rules, either a
//! constant **ratio** (`to = from × ratio`) or a **formula** in `x`. To
//! convert A → B a converter
//! 1. uses a direct `(A, B)` rule when there is one;
//! 2. otherwise goes A → base, then base → B. For the A → base leg, when
//!    only the inverse `base → A` ratio rule is stored, that ratio is
//!    inverted (`value / r`).
//!
//! This module decides the route: which stored rules are applied, or
//! inverted, in which order. The rules carry a payload (the ratio or the
//! formula) that is read only by whoever applies the route.
use vstd::prelude::*;
use crate::text::same_text;

verus! {

#[derive(Debug, Clone, PartialEq, Eq)]
pub enum UnitError {
    UnknownCategory(String),
    NoPath { from: String, to: String },
    Eval(String),
}

/// Mathematical model of a [`UnitError`].
pub enum UnitErrorV {
    UnknownCategory(Seq<char>),
    NoPath { from: Seq<char>, to: Seq<char> },
    Eval(Seq<char>),
}

impl View for UnitError {
    type V = UnitErrorV;

    open spec fn view(&self) -> UnitErrorV {
        match self {
            UnitError::UnknownCategory(c) => UnitErrorV::UnknownCategory(c@),
            UnitError::NoPath { from, to } => UnitErrorV::NoPath { from: from@, to: to@ },
            UnitError::Eval(m) => UnitErrorV::Eval(m@),
        }
    }
}

pub open spec fn unit_error_text(e: UnitErrorV) -> Seq<char> {
    match e {
        UnitErrorV::UnknownCategory(c) => "unknown category '"@ + c + "'"@,
        UnitErrorV::NoPath { from, to } => "no conversion path from '"@ + from + "' to '"@ + to
            + "'"@,
        UnitErrorV::Eval(m) => "formula evaluation error: "@ + m,
    }
}

impl UnitError {
    /// The error's message, as its `Display` shows it.
    pub fn message(&self) -> (s: String)
        ensures
            s@ == unit_error_text(self@),
    {
        match self {
            UnitError::UnknownCategory(c) => {
                let mut s = "unknown category '".to_owned();
                s.append(c.as_str());
                s.append("'");
                s
            },
            UnitError::NoPath { from, to } => {
                let mut s = "no conversion path from '".to_owned();
                s.append(from.as_str());
                s.append("' to '");
                s.append(to.as_str());
                s.append("'");
                s
            },
            UnitError::Eval(m) => {
                let mut s = "formula evaluation error: ".to_owned();
                s.append(m.as_str());
                s
            },
        }
    }
}

/// The kind of a stored rule.
#[derive(Debug, Clone, Copy, PartialEq, Eq, Structural)]
pub enum RuleKind {
    /// A constant ratio; `invertible` when it is neither zero nor NaN.
    Ratio { invertible: bool },
    /// A formula in `x`.
    Formula,
}

/// A directed rule `from → to` with its payload.
pub struct Rule<P> {
    pub from: String,
    pub to: String,
    pub kind: RuleKind,
    pub payload: P,
}

/// One step of a route: apply the rule at an index, or divide by the ratio
/// of the rule at an index.
#[derive(Debug, Clone, Copy, PartialEq, Eq, Structural)]
pub enum Leg {
    Apply(usize),
    Invert(usize),
}

/// A category's base unit and its rules. A key `(from, to)` is held at
/// most once: adding a rule for a held key replaces it.
pub struct CategoryRules<P> {
    base: String,
    rules: Vec<Rule<P>>,
}

pub type RuleV = (Seq<char>, Seq<char>, RuleKind);

/// Mathematical model of [`CategoryRules`]: the base and the rules' keys
/// and kinds, in order.
pub struct CategoryV {
    pub base: Seq<char>,
    pub rules: Seq<RuleV>,
}

pub open spec fn rule_view<P>(r: Rule<P>) -> RuleV {
    (r.from@, r.to@, r.kind)
}

impl<P> View for CategoryRules<P> {
    type V = CategoryV;

    closed spec fn view(&self) -> CategoryV {
        CategoryV { base: self.base@, rules: self.rules@.map_values(|r: Rule<P>| rule_view(r)) }
    }
}

/// The first index at or after `i` whose rule has the key `(from, to)`.
pub open spec fn find_from(rules: Seq<RuleV>, from: Seq<char>, to: Seq<char>, i: int) -> Option<
    int,
>
    decreases rules.len() - i,
{
    if i < 0 || i >= rules.len() {
        None
    } else if rules[i].0 == from && rules[i].1 == to {
        Some(i)
    } else {
        find_from(rules, from, to, i + 1)
    }
}

pub open spec fn find_rule(rules: Seq<RuleV>, from: Seq<char>, to: Seq<char>) -> Option<int> {
    find_from(rules, from, to, 0)
}

/// The rules after adding `r`: it replaces the rule with its key, if any,
/// else it is appended.
pub open spec fn with_rule(rules: Seq<RuleV>, r: RuleV) -> Seq<RuleV> {
    match find_rule(rules, r.0, r.1) {
        Some(i) => rules.update(i, r),
        None => rules.push(r),
    }
}

/// The legs that bring `from` to the base unit.
pub open spec fn to_base_spec(c: CategoryV, from: Seq<char>) -> Result<Seq<Leg>, UnitErrorV> {
    if from == c.base {
        Ok(Seq::empty())
    } else {
        match find_rule(c.rules, from, c.base) {
            Some(i) => Ok(seq![Leg::Apply(i as usize)]),
            None => match find_rule(c.rules, c.base, from) {
                Some(i) => match c.rules[i].2 {
                    RuleKind::Ratio { invertible } => if invertible {
                        Ok(seq![Leg::Invert(i as usize)])
                    } else {
                        Err(UnitErrorV::Eval("ratio is zero or NaN"@))
                    },
                    RuleKind::Formula => Err(UnitErrorV::NoPath { from, to: c.base }),
                },
                None => Err(UnitErrorV::NoPath { from, to: c.base }),
            },
        }
    }
}

/// The route from `from` to `to` within a category.
pub open spec fn route_spec(c: CategoryV, from: Seq<char>, to: Seq<char>) -> Result<
    Seq<Leg>,
    UnitErrorV,
> {
    match find_rule(c.rules, from, to) {
        Some(i) => Ok(seq![Leg::Apply(i as usize)]),
        None => match to_base_spec(c, from) {
            Err(e) => Err(e),
            Ok(legs) => if to == c.base {
                Ok(legs)
            } else {
                match find_rule(c.rules, c.base, to) {
                    Some(j) => Ok(legs.push(Leg::Apply(j as usize))),
                    None => Err(UnitErrorV::NoPath { from, to }),
                }
            },
        },
    }
}

/// The outcome `r` of a routing is the one that `s` describes.
pub open spec fn route_outcome(r: Result<Vec<Leg>, UnitError>, s: Result<Seq<Leg>, UnitErrorV>) -> bool {
    match s {
        Ok(legs) => r matches Ok(v) && v@ == legs,
        Err(e) => r matches Err(x) && x@ == e,
    }
}

impl<P> CategoryRules<P> {
    /// The payload of the rule at index `i`.
    pub closed spec fn payload(&self, i: int) -> P {
        self.rules@[i].payload
    }

    pub fn new(base: String) -> (c: Self)
        ensures
            c@.base == base@,
            c@.rules == Seq::<RuleV>::empty(),
    {
        let c = CategoryRules { base, rules: Vec::new() };
        assert(c@.rules =~= Seq::<RuleV>::empty());
        c
    }

    pub fn base(&self) -> (b: &String)
        ensures
            b@ == self@.base,
    {
        &self.base
    }

    pub fn len(&self) -> (n: usize)
        ensures
            n == self@.rules.len(),
    {
        self.rules.len()
    }

    /// The rule at index `i`.
    pub fn rule(&self, i: usize) -> (r: &Rule<P>)
        requires
            i < self@.rules.len(),
        ensures
            rule_view(*r) == self@.rules[i as int],
            r.payload == self.payload(i as int),
    {
        &self.rules[i]
    }

    /// The index of the rule with key `(from, to)`, if one is held.
    pub fn find(&self, from: &str, to: &str) -> (r: Option<usize>)
        ensures
            match r {
                Some(i) => find_rule(self@.rules, from@, to@) == Some(i as int) && i
                    < self@.rules.len(),
                None => find_rule(self@.rules, from@, to@) is None,
            },
    {
        let mut i: usize = 0;
        while i < self.rules.len()
            invariant
                i <= self.rules.len(),
                find_rule(self@.rules, from@, to@) == find_from(self@.rules, from@, to@, i as int),
            decreases self.rules.len() - i,
        {
            let r = &self.rules[i];
            assert(rule_view(*r) == self@.rules[i as int]);
            if same_text(r.from.as_str(), from) && same_text(r.to.as_str(), to) {
                return Some(i);
            }
            i = i + 1;
        }
        None
    }

    /// Add a rule, replacing the one with the same key; returns its index.
    pub fn add_rule(&mut self, rule: Rule<P>) -> (idx: usize)
        ensures
            final(self)@.base == old(self)@.base,
            final(self)@.rules == with_rule(old(self)@.rules, rule_view(rule)),
            idx < final(self)@.rules.len(),
            final(self)@.rules[idx as int] == rule_view(rule),
            final(self).payload(idx as int) == rule.payload,
            forall|j: int|
                0 <= j < old(self)@.rules.len() && j != idx ==> final(self).payload(j) == old(
                    self,
                ).payload(j),
    {
        let ghost rv = rule_view(rule);
        match self.find(rule.from.as_str(), rule.to.as_str()) {
            Some(i) => {
                self.rules.set(i, rule);
                assert(self@.rules =~= old(self)@.rules.update(i as int, rv));
                i
            },
            None => {
                self.rules.push(rule);
                assert(self@.rules =~= old(self)@.rules.push(rv));
                self.rules.len() - 1
            },
        }
    }

    fn to_base(&self, from: &str) -> (r: Result<Vec<Leg>, UnitError>)
        ensures
            route_outcome(r, to_base_spec(self@, from@)),
    {
        if same_text(from, self.base.as_str()) {
            let v: Vec<Leg> = Vec::new();
            assert(v@ =~= Seq::<Leg>::empty());
            return Ok(v);
        }
        // Direct (from → base) rule.
        if let Some(i) = self.find(from, self.base.as_str()) {
            let v = vec![Leg::Apply(i)];
            assert(v@ =~= seq![Leg::Apply(i)]);
            return Ok(v);
        }
        // Invert a stored (base → from) ratio rule.
        if let Some(i) = self.find(self.base.as_str(), from) {
            let r = &self.rules[i];
            assert(rule_view(*r) == self@.rules[i as int]);
            if let RuleKind::Ratio { invertible } = r.kind {
                if !invertible {
                    return Err(UnitError::Eval("ratio is zero or NaN".to_owned()));
                }
                let v = vec![Leg::Invert(i)];
                assert(v@ =~= seq![Leg::Invert(i)]);
                return Ok(v);
            }
        }
        Err(UnitError::NoPath { from: from.to_owned(), to: self.base.clone() })
    }

    /// The route from unit `from` to unit `to`.
    pub fn route(&self, from: &str, to: &str) -> (r: Result<Vec<Leg>, UnitError>)
        ensures
            route_outcome(r, route_spec(self@, from@, to@)),
    {
        // 1 – direct rule
        if let Some(i) = self.find(from, to) {
            let v = vec![Leg::Apply(i)];
            assert(v@ =~= seq![Leg::Apply(i)]);
            return Ok(v);
        }
        // 2 – two legs via the base: from → base → to
        let mut legs = self.to_base(from)?;
        if same_text(to, self.base.as_str()) {
            return Ok(legs);
        }
        match self.find(self.base.as_str(), to) {
            Some(j) => {
                legs.push(Leg::Apply(j));
                Ok(legs)
            },
            None => Err(UnitError::NoPath { from: from.to_owned(), to: to.to_owned() }),
        }
    }
}

/// The route of a conversion within a category (`None` when the category is
/// unknown): the same unit needs no step, whatever the category.
pub fn conversion_route<P>(
    category: &str,
    rules: Option<&CategoryRules<P>>,
    from: &str,
    to: &str,
) -> (r: Result<Vec<Leg>, UnitError>)
    ensures
        from@ == to@ ==> route_outcome(r, Ok(Seq::<Leg>::empty())),
        from@ != to@ && rules is None ==> route_outcome(
            r,
            Err(UnitErrorV::UnknownCategory(category@)),
        ),
        from@ != to@ && rules is Some ==> route_outcome(r, route_spec(rules->0@, from@, to@)),
{
    if same_text(from, to) {
        let v: Vec<Leg> = Vec::new();
        assert(v@ =~= Seq::<Leg>::empty());
        return Ok(v);
    }
    match rules {
        None => Err(UnitError::UnknownCategory(category.to_owned())),
        Some(c) => c.route(from, to),
    }
}

pub fn version() -> (v: &'static str)
    ensures
        v@ == "0.1.4"@,
{
    "0.1.4"
}

} // verus!
