//! A read-only trace of a trust chain, for diagnostics: from a certificate,
//! each certificate and the key that signed it, which schema rules applied
//! at each hop, and why the walk stopped short of an anchor.
//!
//! Certificates come from a cache the caller holds. A certificate that is
//! not there ends the trace with `CertNotFound`; a caller that can fetch it
//! adds it to the cache and traces again (the trace reads nothing else, so
//! the second trace goes further).

use vstd::prelude::*;

use crate::ca::Certificate;
use crate::chain::{cert_named, find_cert};
use crate::name::{ComponentView, Name};
use crate::trust_schema::{pattern_shown, rule_allows, SchemaRule};

verus! {

/// One hop: a certificate and the key that signed it.
#[derive(Debug, Clone, PartialEq, Eq)]
pub struct ChainTraceStep {
    pub name: Name,
    pub signed_by: Name,
    pub is_anchor: bool,
}

/// A schema rule tried at a hop, as text, and whether it let the issuer sign.
#[derive(Debug, Clone, PartialEq, Eq)]
pub struct TraceRuleApplied {
    pub data_pattern: String,
    pub key_pattern: String,
    pub matches: bool,
}

/// Why a trace stopped short of an anchor.
#[derive(Debug, Clone, PartialEq, Eq)]
pub enum TraceFailure {
    /// The certificate of this key is not at hand.
    CertNotFound { name: Name },
    /// The certificate names no signing key.
    NoKeyLocator { name: Name },
    /// A self-signed certificate that is not a trust anchor.
    AnchorNotTrusted { name: Name },
    /// The walk went past the limit.
    ChainTooDeep { limit: usize },
}

/// A trace of the chain of `target`.
#[derive(Debug, Clone, PartialEq, Eq)]
pub struct ChainTrace {
    pub target: Name,
    pub steps: Vec<ChainTraceStep>,
    pub rules_applied: Vec<TraceRuleApplied>,
    pub failure: Option<TraceFailure>,
}

pub struct StepView {
    pub name: Seq<ComponentView>,
    pub signed_by: Seq<ComponentView>,
    pub is_anchor: bool,
}

pub struct RuleView {
    pub data_pattern: Seq<char>,
    pub key_pattern: Seq<char>,
    pub matches: bool,
}

pub enum FailureView {
    CertNotFound(Seq<ComponentView>),
    NoKeyLocator(Seq<ComponentView>),
    AnchorNotTrusted(Seq<ComponentView>),
    ChainTooDeep(usize),
}

/// A trace as plain values.
pub struct TraceView {
    pub target: Seq<ComponentView>,
    pub steps: Seq<StepView>,
    pub rules: Seq<RuleView>,
    pub failure: Option<FailureView>,
}

impl View for ChainTraceStep {
    type V = StepView;

    open spec fn view(&self) -> StepView {
        StepView { name: self.name@, signed_by: self.signed_by@, is_anchor: self.is_anchor }
    }
}

impl View for TraceRuleApplied {
    type V = RuleView;

    open spec fn view(&self) -> RuleView {
        RuleView { data_pattern: self.data_pattern@, key_pattern: self.key_pattern@, matches: self.matches }
    }
}

impl View for TraceFailure {
    type V = FailureView;

    open spec fn view(&self) -> FailureView {
        match self {
            TraceFailure::CertNotFound { name } => FailureView::CertNotFound(name@),
            TraceFailure::NoKeyLocator { name } => FailureView::NoKeyLocator(name@),
            TraceFailure::AnchorNotTrusted { name } => FailureView::AnchorNotTrusted(name@),
            TraceFailure::ChainTooDeep { limit } => FailureView::ChainTooDeep(*limit),
        }
    }
}

impl View for ChainTrace {
    type V = TraceView;

    open spec fn view(&self) -> TraceView {
        TraceView {
            target: self.target@,
            steps: self.steps@.map_values(|s: ChainTraceStep| s@),
            rules: self.rules_applied@.map_values(|r: TraceRuleApplied| r@),
            failure: match self.failure {
                Some(f) => Some(f@),
                None => None,
            },
        }
    }
}

/// What each rule says of `key` signing `data`, in order.
pub open spec fn rules_applied(rules: Seq<SchemaRule>, data: Seq<ComponentView>, key: Seq<ComponentView>) -> Seq<RuleView> {
    rules.map_values(
        |r: SchemaRule|
            RuleView {
                data_pattern: pattern_shown(r.data_pattern@),
                key_pattern: pattern_shown(r.key_pattern@),
                matches: rule_allows(r.data_pattern@, r.key_pattern@, data, key),
            },
    )
}

/// The trace of `target` from certificate `cur`, with `fuel` hops left,
/// having recorded `steps` and `applied`.
pub open spec fn trace_from(
    target: Seq<ComponentView>,
    anchors: Seq<Certificate>,
    cache: Seq<Certificate>,
    rules: Seq<SchemaRule>,
    cur: Certificate,
    fuel: nat,
    limit: usize,
    steps: Seq<StepView>,
    applied: Seq<RuleView>,
) -> TraceView
    decreases fuel,
{
    if fuel == 0 {
        TraceView { target, steps, rules: applied, failure: Some(FailureView::ChainTooDeep(limit)) }
    } else {
        match cur.issuer {
            None => TraceView {
                target,
                steps: steps.push(StepView { name: cur.name@, signed_by: cur.name@, is_anchor: false }),
                rules: applied,
                failure: Some(FailureView::NoKeyLocator(cur.name@)),
            },
            Some(iss) => {
                let i = iss@;
                let applied2 = applied + rules_applied(rules, cur.name@, i);
                let steps2 = steps.push(StepView { name: cur.name@, signed_by: i, is_anchor: false });
                if cert_named(anchors, i) is Some {
                    TraceView {
                        target,
                        steps: steps2.push(StepView { name: i, signed_by: i, is_anchor: true }),
                        rules: applied2,
                        failure: None,
                    }
                } else if i == cur.name@ {
                    TraceView { target, steps: steps2, rules: applied2, failure: Some(FailureView::AnchorNotTrusted(i)) }
                } else {
                    match cert_named(cache, i) {
                        None => TraceView { target, steps: steps2, rules: applied2, failure: Some(FailureView::CertNotFound(i)) },
                        Some(c) => trace_from(target, anchors, cache, rules, c, (fuel - 1) as nat, limit, steps2, applied2),
                    }
                }
            },
        }
    }
}

/// The trace of `target`: an anchor is its own one-step trace; otherwise
/// the walk starts at the target's certificate and may take `limit + 1`
/// hops.
pub open spec fn trace_of(
    anchors: Seq<Certificate>,
    cache: Seq<Certificate>,
    rules: Seq<SchemaRule>,
    target: Seq<ComponentView>,
    limit: usize,
) -> TraceView {
    if cert_named(anchors, target) is Some {
        TraceView {
            target,
            steps: seq![StepView { name: target, signed_by: target, is_anchor: true }],
            rules: Seq::empty(),
            failure: None,
        }
    } else {
        match cert_named(cache, target) {
            None => TraceView { target, steps: Seq::empty(), rules: Seq::empty(), failure: Some(FailureView::CertNotFound(target)) },
            Some(c) => trace_from(target, anchors, cache, rules, c, (limit + 1) as nat, limit, Seq::empty(), Seq::empty()),
        }
    }
}

/// Each rule tried on `key` signing `data`, appended to `out`.
fn apply_rules(rules: &Vec<SchemaRule>, data: &Name, key: &Name, out: &mut Vec<TraceRuleApplied>)
    ensures
        final(out)@.map_values(|r: TraceRuleApplied| r@) == old(out)@.map_values(|r: TraceRuleApplied| r@)
            + rules_applied(rules@, data@, key@),
{
    let ghost start = old(out)@.map_values(|r: TraceRuleApplied| r@);
    let mut i: usize = 0;
    while i < rules.len()
        invariant
            i <= rules@.len(),
            out@.map_values(|r: TraceRuleApplied| r@) == start + rules_applied(rules@.take(i as int), data@, key@),
        decreases rules@.len() - i,
    {
        let ghost before = out@;
        let r = &rules[i];
        let entry = TraceRuleApplied {
            data_pattern: r.data_pattern.to_text(),
            key_pattern: r.key_pattern.to_text(),
            matches: r.check(data, key),
        };
        out.push(entry);
        proof {
            assert(rules@.take(i + 1) =~= rules@.take(i as int).push(rules@[i as int]));
            assert(rules_applied(rules@.take(i + 1), data@, key@) =~= rules_applied(rules@.take(i as int), data@, key@).push(
                rules_applied(rules@, data@, key@)[i as int],
            ));
            assert(out@.map_values(|r: TraceRuleApplied| r@) =~= before.map_values(|r: TraceRuleApplied| r@).push(entry@));
        }
        i = i + 1;
    }
    proof {
        assert(rules@.take(i as int) =~= rules@);
    }
}

/// Trace the chain of `target` over `anchors` and the certificates in
/// `cache`, applying the schema `rules` at each hop; at most `limit + 1`
/// hops are walked.
pub fn trace(
    anchors: &Vec<Certificate>,
    cache: &Vec<Certificate>,
    rules: &Vec<SchemaRule>,
    target: &Name,
    limit: usize,
) -> (r: ChainTrace)
    ensures
        r.target@ == target@,
        r@ == trace_of(anchors@, cache@, rules@, target@, limit),
{
    let mut steps: Vec<ChainTraceStep> = Vec::new();
    let mut applied: Vec<TraceRuleApplied> = Vec::new();
    if find_cert(anchors, target).is_some() {
        steps.push(ChainTraceStep { name: target.copy(), signed_by: target.copy(), is_anchor: true });
        let r = ChainTrace { target: target.copy(), steps, rules_applied: applied, failure: None };
        proof {
            assert(r@.steps =~= seq![StepView { name: target@, signed_by: target@, is_anchor: true }]);
            assert(r@.rules =~= Seq::<RuleView>::empty());
        }
        return r;
    }
    let mut cur: Certificate = match find_cert(cache, target) {
        Some(k) => cache[k].copy(),
        None => {
            let r = ChainTrace {
                target: target.copy(),
                steps,
                rules_applied: applied,
                failure: Some(TraceFailure::CertNotFound { name: target.copy() }),
            };
            proof {
                assert(r@.steps =~= Seq::<StepView>::empty());
                assert(r@.rules =~= Seq::<RuleView>::empty());
            }
            return r;
        },
    };
    let ghost mut gcur = cert_named(cache@, target@).unwrap();
    let mut done: usize = 0;
    proof {
        assert(steps@.map_values(|s: ChainTraceStep| s@) =~= Seq::<StepView>::empty());
        assert(applied@.map_values(|r: TraceRuleApplied| r@) =~= Seq::<RuleView>::empty());
    }
    loop
        invariant
            done <= limit,
            cur.name@ == gcur.name@,
            cur.issuer is Some == gcur.issuer is Some,
            cur.issuer is Some ==> cur.issuer.unwrap()@ == gcur.issuer.unwrap()@,
            trace_of(anchors@, cache@, rules@, target@, limit) == trace_from(
                target@,
                anchors@,
                cache@,
                rules@,
                gcur,
                (limit + 1 - done) as nat,
                limit,
                steps@.map_values(|s: ChainTraceStep| s@),
                applied@.map_values(|r: TraceRuleApplied| r@),
            ),
        decreases limit - done,
    {
        let ghost fuel = (limit + 1 - done) as nat;
        let ghost sv = steps@.map_values(|s: ChainTraceStep| s@);
        let issuer = match &cur.issuer {
            None => {
                steps.push(ChainTraceStep { name: cur.name.copy(), signed_by: cur.name.copy(), is_anchor: false });
                let r = ChainTrace {
                    target: target.copy(),
                    steps,
                    rules_applied: applied,
                    failure: Some(TraceFailure::NoKeyLocator { name: cur.name.copy() }),
                };
                proof {
                    assert(r@.steps =~= sv.push(StepView { name: cur.name@, signed_by: cur.name@, is_anchor: false }));
                }
                return r;
            },
            Some(n) => n.copy(),
        };
        apply_rules(rules, &cur.name, &issuer, &mut applied);
        steps.push(ChainTraceStep { name: cur.name.copy(), signed_by: issuer.copy(), is_anchor: false });
        proof {
            assert(steps@.map_values(|s: ChainTraceStep| s@) =~= sv.push(
                StepView { name: cur.name@, signed_by: issuer@, is_anchor: false },
            ));
        }
        if find_cert(anchors, &issuer).is_some() {
            let ghost sv2 = steps@.map_values(|s: ChainTraceStep| s@);
            steps.push(ChainTraceStep { name: issuer.copy(), signed_by: issuer.copy(), is_anchor: true });
            proof {
                assert(steps@.map_values(|s: ChainTraceStep| s@) =~= sv2.push(
                    StepView { name: issuer@, signed_by: issuer@, is_anchor: true },
                ));
            }
            return ChainTrace { target: target.copy(), steps, rules_applied: applied, failure: None };
        }
        if issuer.same_as(&cur.name) {
            return ChainTrace {
                target: target.copy(),
                steps,
                rules_applied: applied,
                failure: Some(TraceFailure::AnchorNotTrusted { name: issuer }),
            };
        }
        let next = match find_cert(cache, &issuer) {
            Some(k) => cache[k].copy(),
            None => {
                return ChainTrace {
                    target: target.copy(),
                    steps,
                    rules_applied: applied,
                    failure: Some(TraceFailure::CertNotFound { name: issuer }),
                };
            },
        };
        if done == limit {
            return ChainTrace {
                target: target.copy(),
                steps,
                rules_applied: applied,
                failure: Some(TraceFailure::ChainTooDeep { limit }),
            };
        }
        proof {
            gcur = cert_named(cache@, issuer@).unwrap();
        }
        cur = next;
        done = done + 1;
    }
}

} // verus!
