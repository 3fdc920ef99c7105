//! Exception routing: an ordered list of rules, the first that applies wins.
use vstd::prelude::*;
use vstd::string::StringSliceAdditionalSpecFns;
use crate::method::Method;
use crate::template::{extract_spec, generate_spec, PathTemplate, SegmentView};

verus! {

/// A rejected request whose path matches `source` is sent to `destination`,
/// filled from the captures, with `method`.
pub struct ExceptionRule {
    pub source: PathTemplate,
    pub destination: PathTemplate,
    pub method: Method,
}

pub struct RuleView {
    pub source: Seq<SegmentView>,
    pub destination: Seq<SegmentView>,
    pub method: Method,
}

impl View for ExceptionRule {
    type V = RuleView;

    open spec fn view(&self) -> RuleView {
        RuleView { source: self.source@, destination: self.destination@, method: self.method }
    }
}

pub open spec fn rules_view(rules: Seq<ExceptionRule>) -> Seq<RuleView> {
    rules.map_values(|r: ExceptionRule| r@)
}

/// What one rule makes of a path: the rewritten path and method, if its source
/// matches and its destination can be generated from the captures.
pub open spec fn apply_rule(rule: RuleView, path: Seq<u8>) -> Option<(Seq<u8>, Method)> {
    match extract_spec(rule.source, path) {
        Some(caps) => match generate_spec(rule.destination, caps) {
            Some(out) => Some((out, rule.method)),
            None => None,
        },
        None => None,
    }
}

/// The result of the first rule from `k` on that applies to `path`.
pub open spec fn route_from(rules: Seq<RuleView>, k: int, path: Seq<u8>) -> Option<(Seq<u8>, Method)>
    decreases rules.len() - k,
{
    if k < 0 || k >= rules.len() {
        None
    } else {
        match apply_rule(rules[k], path) {
            Some(r) => Some(r),
            None => route_from(rules, k + 1, path),
        }
    }
}

pub open spec fn route_spec(rules: Seq<RuleView>, path: Seq<u8>) -> Option<(Seq<u8>, Method)> {
    route_from(rules, 0, path)
}

/// Finds the rewrite for a rejected request, trying the rules in order.
pub fn route(rules: &Vec<ExceptionRule>, path: &str) -> (r: Option<(Vec<u8>, Method)>)
    ensures
        r is Some == route_spec(rules_view(rules@), path.spec_bytes()) is Some,
        r is Some ==> r->Some_0.0@ == route_spec(rules_view(rules@), path.spec_bytes())->Some_0.0
            && r->Some_0.1 == route_spec(rules_view(rules@), path.spec_bytes())->Some_0.1,
{
    let ghost rv = rules_view(rules@);
    let mut k: usize = 0;
    while k < rules.len()
        invariant
            k <= rules@.len(),
            rv == rules_view(rules@),
            rv.len() == rules@.len(),
            route_spec(rv, path.spec_bytes()) == route_from(rv, k as int, path.spec_bytes()),
        decreases rules@.len() - k,
    {
        let rule = &rules[k];
        assert(rv[k as int] == rule@);
        match rule.source.extract(path) {
            Some(caps) => {
                match rule.destination.generate(&caps) {
                    Some(out) => {
                        return Some((out, rule.method));
                    },
                    None => {},
                }
            },
            None => {},
        }
        k = k + 1;
    }
    None
}

/// Rules are tried in order: the first rule that applies decides, whatever
/// the rules after it say.
pub proof fn lemma_first_rule_wins(rules: Seq<RuleView>, path: Seq<u8>, i: int)
    requires
        0 <= i < rules.len(),
        apply_rule(rules[i], path) is Some,
        forall|j: int| 0 <= j < i ==> apply_rule(#[trigger] rules[j], path) is None,
    ensures
        route_spec(rules, path) == apply_rule(rules[i], path),
{
    lemma_route_skip(rules, path, 0, i);
}

proof fn lemma_route_skip(rules: Seq<RuleView>, path: Seq<u8>, k: int, i: int)
    requires
        0 <= k <= i < rules.len(),
        apply_rule(rules[i], path) is Some,
        forall|j: int| 0 <= j < i ==> apply_rule(#[trigger] rules[j], path) is None,
    ensures
        route_from(rules, k, path) == apply_rule(rules[i], path),
    decreases i - k,
{
    if k < i {
        lemma_route_skip(rules, path, k + 1, i);
    }
}

} // verus!
