//! NDNCERT issuance policy: the namespace gate before a challenge, the
//! issuance gate after it, the validity a certificate is issued for, and the
//! validity mode of a node with or without a wall clock.

use vstd::prelude::*;

use crate::attestation::AttestationSet;
use crate::name::{spec_has_prefix, spec_strip_ca_suffix, spec_strip_key_suffix, ComponentView, Name};
use crate::name_uri::spec_uri_text;
use crate::text::{concat3, push_text, string_from_static};

verus! {

/// A certificate request as the CA records it.
#[derive(Debug, Clone, PartialEq, Eq)]
pub struct CertRequest {
    /// The key name, as a URI.
    pub name: String,
    /// The public key, base64url without padding.
    pub public_key: String,
    /// Requested validity, milliseconds since the epoch.
    pub not_before: u64,
    pub not_after: u64,
}

/// Errors of the NDNCERT CA.
#[derive(Debug, Clone, PartialEq, Eq)]
pub enum CertError {
    InvalidRequest(String),
    PolicyDenied(String),
    RequestNotFound(String),
    Name(String),
    Security(String),
}

#[derive(Debug, Clone, PartialEq, Eq)]
pub enum PolicyDecision {
    Allow,
    Deny(String),
}

/// A namespace decision as plain values.
pub enum DecisionView {
    Allow,
    Deny(Seq<char>),
}

impl View for PolicyDecision {
    type V = DecisionView;

    open spec fn view(&self) -> DecisionView {
        match self {
            PolicyDecision::Allow => DecisionView::Allow,
            PolicyDecision::Deny(m) => DecisionView::Deny(m@),
        }
    }
}

/// The pre-challenge gate: is the requested name in scope?
/// `requester_cert` is the name of the requester's certificate, `None` for a
/// first enrollment.
pub trait NamespacePolicy {
    /// What the policy decides on a request, as plain values. A policy that
    /// does not state it leaves it unspecified.
    closed spec fn decision(
        &self,
        requested_name: Seq<ComponentView>,
        requester_cert: Option<Seq<ComponentView>>,
        ca_prefix: Seq<ComponentView>,
    ) -> DecisionView {
        arbitrary()
    }

    fn evaluate(&self, requested_name: &Name, requester_cert: Option<&Name>, ca_prefix: &Name) -> (r: PolicyDecision)
        ensures
            r@ == self.decision(requested_name@, opt_name(requester_cert), ca_prefix@),
    ;
}

/// Allow requests under the requester's own identity (or anywhere under the
/// CA's identity for a first enrollment).
#[derive(Debug, Clone, Copy, PartialEq, Eq)]
pub struct HierarchicalPolicy;

/// The prefix a request must fall under for the hierarchical policy.
pub open spec fn requester_prefix(requester_cert: Option<Seq<ComponentView>>, ca_prefix: Seq<ComponentView>) -> Seq<ComponentView> {
    match requester_cert {
        None => spec_strip_ca_suffix(ca_prefix),
        Some(c) => spec_strip_key_suffix(c),
    }
}

pub open spec fn opt_name(n: Option<&Name>) -> Option<Seq<ComponentView>> {
    match n {
        Some(x) => Some(x@),
        None => None,
    }
}

impl NamespacePolicy for HierarchicalPolicy {
    open spec fn decision(
        &self,
        requested_name: Seq<ComponentView>,
        requester_cert: Option<Seq<ComponentView>>,
        ca_prefix: Seq<ComponentView>,
    ) -> DecisionView {
        let p = requester_prefix(requester_cert, ca_prefix);
        if spec_has_prefix(requested_name, p) {
            DecisionView::Allow
        } else {
            DecisionView::Deny(spec_uri_text(requested_name) + " is not under requester prefix "@ + spec_uri_text(p))
        }
    }

    fn evaluate(&self, requested_name: &Name, requester_cert: Option<&Name>, ca_prefix: &Name) -> (r: PolicyDecision)
        ensures
            ({
                let p = requester_prefix(opt_name(requester_cert), ca_prefix@);
                &&& (r is Allow <==> spec_has_prefix(requested_name@, p))
                &&& (r matches PolicyDecision::Deny(m) ==> m@ == spec_uri_text(requested_name@) + " is not under requester prefix "@ + spec_uri_text(p))
            }),
    {
        let prefix = match requester_cert {
            None => ca_prefix.strip_ca_suffix(),
            Some(cert) => cert.strip_key_suffix(),
        };
        if requested_name.has_prefix(&prefix) {
            PolicyDecision::Allow
        } else {
            let mut m = requested_name.to_uri();
            push_text(&mut m, " is not under requester prefix ");
            let p = prefix.to_uri();
            push_text(&mut m, p.as_str());
            PolicyDecision::Deny(m)
        }
    }
}

/// Explicit (requester prefix -> allowed prefix) delegation rules.
#[derive(Debug, Clone, PartialEq, Eq)]
pub struct DelegationPolicy {
    pub rules: Vec<(Name, Name)>,
    /// If true, requesters without a certificate may request under any
    /// allowed prefix.
    pub allow_new_devices: bool,
}

pub open spec fn rule_views(rules: Seq<(Name, Name)>) -> Seq<(Seq<ComponentView>, Seq<ComponentView>)> {
    rules.map_values(|r: (Name, Name)| (r.0@, r.1@))
}

/// Some rule allows `requested` for a new device.
pub open spec fn new_device_allowed(rules: Seq<(Seq<ComponentView>, Seq<ComponentView>)>, requested: Seq<ComponentView>) -> bool {
    exists|i: int| 0 <= i < rules.len() && spec_has_prefix(requested, #[trigger] rules[i].1)
}

/// Some rule allows `requested` for a requester with this identity.
pub open spec fn delegation_allowed(
    rules: Seq<(Seq<ComponentView>, Seq<ComponentView>)>,
    identity: Seq<ComponentView>,
    requested: Seq<ComponentView>,
) -> bool {
    exists|i: int|
        0 <= i < rules.len() && spec_has_prefix(identity, #[trigger] rules[i].0) && spec_has_prefix(
            requested,
            rules[i].1,
        )
}

impl DelegationPolicy {
    pub fn new() -> (r: DelegationPolicy)
        ensures
            r.rules@.len() == 0,
            r.allow_new_devices,
    {
        DelegationPolicy { rules: Vec::new(), allow_new_devices: true }
    }

    /// Add a rule (builder style).
    pub fn allow(self, requester_prefix: Name, allowed_prefix: Name) -> (r: DelegationPolicy)
        ensures
            r.allow_new_devices == self.allow_new_devices,
            r.rules@ == self.rules@.push((requester_prefix, allowed_prefix)),
    {
        let mut rules = self.rules;
        rules.push((requester_prefix, allowed_prefix));
        DelegationPolicy { rules, allow_new_devices: self.allow_new_devices }
    }
}

impl Default for DelegationPolicy {
    fn default() -> (r: DelegationPolicy)
        ensures
            r.rules@.len() == 0,
            r.allow_new_devices,
    {
        DelegationPolicy::new()
    }
}

impl NamespacePolicy for DelegationPolicy {
    open spec fn decision(
        &self,
        requested_name: Seq<ComponentView>,
        requester_cert: Option<Seq<ComponentView>>,
        ca_prefix: Seq<ComponentView>,
    ) -> DecisionView {
        match requester_cert {
            None => if !self.allow_new_devices {
                DecisionView::Deny("new devices not allowed"@)
            } else if new_device_allowed(rule_views(self.rules@), requested_name) {
                DecisionView::Allow
            } else {
                DecisionView::Deny("no matching rule for new device"@)
            },
            Some(c) => if delegation_allowed(rule_views(self.rules@), spec_strip_key_suffix(c), requested_name) {
                DecisionView::Allow
            } else {
                DecisionView::Deny("no matching delegation rule"@)
            },
        }
    }

    fn evaluate(&self, requested_name: &Name, requester_cert: Option<&Name>, ca_prefix: &Name) -> (r: PolicyDecision)
        ensures
            match requester_cert {
                None => if self.allow_new_devices {
                    (r is Allow <==> new_device_allowed(rule_views(self.rules@), requested_name@))
                        && (r matches PolicyDecision::Deny(m) ==> m@ == "no matching rule for new device"@)
                } else {
                    r matches PolicyDecision::Deny(m) && m@ == "new devices not allowed"@
                },
                Some(c) => (r is Allow <==> delegation_allowed(
                    rule_views(self.rules@),
                    spec_strip_key_suffix(c@),
                    requested_name@,
                )) && (r matches PolicyDecision::Deny(m) ==> m@ == "no matching delegation rule"@),
            },
    {
        let ghost rv = rule_views(self.rules@);
        match requester_cert {
            None => {
                if self.allow_new_devices {
                    let mut i: usize = 0;
                    while i < self.rules.len()
                        invariant
                            i <= self.rules@.len(),
                            rv == rule_views(self.rules@),
                            requester_cert is None,
                            self.allow_new_devices,
                            forall|j: int| 0 <= j < i ==> !spec_has_prefix(requested_name@, #[trigger] rv[j].1),
                        decreases self.rules@.len() - i,
                    {
                        if requested_name.has_prefix(&self.rules[i].1) {
                            proof {
                                assert(rv[i as int].1 == self.rules@[i as int].1@);
                                assert(spec_has_prefix(requested_name@, rv[i as int].1));
                            }
                            return PolicyDecision::Allow;
                        }
                        proof {
                            assert(rv[i as int].1 == self.rules@[i as int].1@);
                        }
                        i = i + 1;
                    }
                    PolicyDecision::Deny(string_from_static("no matching rule for new device"))
                } else {
                    PolicyDecision::Deny(string_from_static("new devices not allowed"))
                }
            },
            Some(cert) => {
                let identity = cert.strip_key_suffix();
                let mut i: usize = 0;
                while i < self.rules.len()
                    invariant
                        i <= self.rules@.len(),
                        rv == rule_views(self.rules@),
                        requester_cert == Some(cert),
                        identity@ == spec_strip_key_suffix(cert@),
                        forall|j: int|
                            0 <= j < i ==> !(spec_has_prefix(identity@, #[trigger] rv[j].0) && spec_has_prefix(
                                requested_name@,
                                rv[j].1,
                            )),
                    decreases self.rules@.len() - i,
                {
                    proof {
                        assert(rv[i as int] == (self.rules@[i as int].0@, self.rules@[i as int].1@));
                    }
                    if identity.has_prefix(&self.rules[i].0) && requested_name.has_prefix(&self.rules[i].1) {
                        proof {
                            assert(spec_has_prefix(identity@, rv[i as int].0) && spec_has_prefix(requested_name@, rv[i as int].1));
                        }
                        return PolicyDecision::Allow;
                    }
                    i = i + 1;
                }
                PolicyDecision::Deny(string_from_static("no matching delegation rule"))
            },
        }
    }
}

// ---------------------------------------------------------------------------
// Issuance
// ---------------------------------------------------------------------------

/// What the issuance gate sees of a request whose challenge was satisfied.
pub struct IssuanceContext<'a> {
    pub cert_request: &'a CertRequest,
    pub challenge_type: &'a str,
    /// The attestation the satisfied challenge produced.
    pub attestation: Option<&'a AttestationSet>,
    pub ca_prefix: &'a Name,
    /// Validity, in milliseconds.
    pub default_validity_ms: u64,
    pub max_validity_ms: u64,
}

#[derive(Debug, Clone, PartialEq, Eq)]
pub enum IssuanceDecision {
    /// Issue, for this validity in milliseconds (clamped to the maximum
    /// before signing).
    Issue { validity_ms: u64 },
    /// Deny; the reason is surfaced to the requester.
    Deny(String),
}

/// An issuance decision as plain values.
pub enum IssuanceView {
    Issue(u64),
    Deny(Seq<char>),
}

impl View for IssuanceDecision {
    type V = IssuanceView;

    open spec fn view(&self) -> IssuanceView {
        match self {
            IssuanceDecision::Issue { validity_ms } => IssuanceView::Issue(*validity_ms),
            IssuanceDecision::Deny(m) => IssuanceView::Deny(m@),
        }
    }
}

/// The attestation set a context carries, by value.
pub open spec fn opt_set(a: Option<&AttestationSet>) -> Option<AttestationSet> {
    match a {
        Some(s) => Some(*s),
        None => None,
    }
}

/// The post-challenge gate: issue (with what validity) or deny.
pub trait IssuancePolicy {
    /// What the policy decides on an approved request, as plain values. A
    /// policy that does not state it leaves it unspecified.
    closed spec fn decision(
        &self,
        cert_request: CertRequest,
        challenge_type: Seq<char>,
        attestation: Option<AttestationSet>,
        ca_prefix: Seq<ComponentView>,
        default_validity_ms: u64,
        max_validity_ms: u64,
    ) -> IssuanceView {
        arbitrary()
    }

    fn decide(&self, ctx: &IssuanceContext) -> (r: IssuanceDecision)
        ensures
            r@ == self.decision(
                *ctx.cert_request,
                ctx.challenge_type@,
                opt_set(ctx.attestation),
                ctx.ca_prefix@,
                ctx.default_validity_ms,
                ctx.max_validity_ms,
            ),
    ;
}

/// Issues every challenge-passing request at the default validity.
#[derive(Debug, Clone, Copy, PartialEq, Eq)]
pub struct AcceptAllIssuance;

impl IssuancePolicy for AcceptAllIssuance {
    open spec fn decision(
        &self,
        cert_request: CertRequest,
        challenge_type: Seq<char>,
        attestation: Option<AttestationSet>,
        ca_prefix: Seq<ComponentView>,
        default_validity_ms: u64,
        max_validity_ms: u64,
    ) -> IssuanceView {
        IssuanceView::Issue(default_validity_ms)
    }

    fn decide(&self, ctx: &IssuanceContext) -> (r: IssuanceDecision)
        ensures
            r == (IssuanceDecision::Issue { validity_ms: ctx.default_validity_ms }),
    {
        IssuanceDecision::Issue { validity_ms: ctx.default_validity_ms }
    }
}

/// Under `prefix`, require the attestation to carry a leaf of
/// `required_kind` (and, with `require_signed`, a signed one). Requests
/// outside `prefix` issue normally.
#[derive(Debug, Clone, PartialEq, Eq)]
pub struct RequireAttestationKind {
    pub prefix: Name,
    pub required_kind: String,
    pub require_signed: bool,
}

impl RequireAttestationKind {
    pub fn new(prefix: Name, required_kind: String) -> (r: RequireAttestationKind)
        ensures
            r.prefix == prefix,
            r.required_kind == required_kind,
            !r.require_signed,
    {
        RequireAttestationKind { prefix, required_kind, require_signed: false }
    }

    pub fn require_signed(self, yes: bool) -> (r: RequireAttestationKind)
        ensures
            r.prefix == self.prefix,
            r.required_kind == self.required_kind,
            r.require_signed == yes,
    {
        RequireAttestationKind { prefix: self.prefix, required_kind: self.required_kind, require_signed: yes }
    }
}

/// The attestation set has a leaf of `kind` (signed, if required).
pub open spec fn attested(set: Option<AttestationSet>, kind: Seq<char>, require_signed: bool) -> bool {
    match set {
        None => false,
        Some(s) => exists|i: int|
            0 <= i < s.leaves@.len() && (#[trigger] s.leaves@[i]).kind@ == kind && (!require_signed
                || s.leaves@[i].signature is Some),
    }
}

impl IssuancePolicy for RequireAttestationKind {
    open spec fn decision(
        &self,
        cert_request: CertRequest,
        challenge_type: Seq<char>,
        attestation: Option<AttestationSet>,
        ca_prefix: Seq<ComponentView>,
        default_validity_ms: u64,
        max_validity_ms: u64,
    ) -> IssuanceView {
        match crate::name_uri::uri_parse(crate::text::utf8_bytes(cert_request.name@)) {
            None => IssuanceView::Deny("unparsable subject name: "@ + cert_request.name@),
            Some(n) => if !spec_has_prefix(n, self.prefix@) || attested(attestation, self.required_kind@, self.require_signed) {
                IssuanceView::Issue(default_validity_ms)
            } else {
                IssuanceView::Deny(
                    "names under "@ + spec_uri_text(self.prefix@) + " require a "@ + (if self.require_signed {
                        "signed "@
                    } else {
                        ""@
                    }) + "`"@ + self.required_kind@ + "` challenge attestation"@,
                )
            },
        }
    }

    fn decide(&self, ctx: &IssuanceContext) -> (r: IssuanceDecision)
        ensures
            match crate::name_uri::uri_parse(crate::text::utf8_bytes(ctx.cert_request.name@)) {
                None => r matches IssuanceDecision::Deny(m) && m@ == "unparsable subject name: "@ + ctx.cert_request.name@,
                Some(n) => if !spec_has_prefix(n, self.prefix@) || attested(opt_set(ctx.attestation), self.required_kind@, self.require_signed) {
                    r == (IssuanceDecision::Issue { validity_ms: ctx.default_validity_ms })
                } else {
                    r matches IssuanceDecision::Deny(m) && m@ == "names under "@ + spec_uri_text(self.prefix@) + " require a "@
                        + (if self.require_signed { "signed "@ } else { ""@ }) + "`"@ + self.required_kind@ + "` challenge attestation"@
                },
            },
    {
        let name = match Name::from_uri(ctx.cert_request.name.as_str()) {
            Some(n) => n,
            None => {
                let mut m = string_from_static("unparsable subject name: ");
                push_text(&mut m, ctx.cert_request.name.as_str());
                return IssuanceDecision::Deny(m);
            },
        };
        if !name.has_prefix(&self.prefix) {
            return IssuanceDecision::Issue { validity_ms: ctx.default_validity_ms };
        }
        let satisfied = match ctx.attestation {
            None => false,
            Some(set) => {
                let mut found = false;
                let mut i: usize = 0;
                while i < set.leaves.len()
                    invariant
                        i <= set.leaves@.len(),
                        found == exists|j: int|
                            0 <= j < i && (#[trigger] set.leaves@[j]).kind@ == self.required_kind@ && (
                            !self.require_signed || set.leaves@[j].signature is Some),
                    decreases set.leaves@.len() - i,
                {
                    let leaf = &set.leaves[i];
                    if crate::text::str_eq(leaf.kind.as_str(), self.required_kind.as_str()) && (!self.require_signed
                        || leaf.signature.is_some()) {
                        found = true;
                    }
                    i = i + 1;
                }
                found
            },
        };
        if satisfied {
            IssuanceDecision::Issue { validity_ms: ctx.default_validity_ms }
        } else {
            let mut m = string_from_static("names under ");
            let p = self.prefix.to_uri();
            push_text(&mut m, p.as_str());
            push_text(&mut m, " require a ");
            if self.require_signed {
                push_text(&mut m, "signed ");
            } else {
                push_text(&mut m, "");
            }
            push_text(&mut m, "`");
            push_text(&mut m, self.required_kind.as_str());
            push_text(&mut m, "` challenge attestation");
            IssuanceDecision::Deny(m)
        }
    }
}

/// The validity a certificate is issued for, in milliseconds: the policy's
/// validity clamped to the CA maximum, and to the requester's own window
/// when it asked for one.
pub open spec fn issued_validity_ms(policy_ms: u64, max_ms: u64, not_before: u64, not_after: u64) -> u64 {
    let p = if policy_ms < max_ms {
        policy_ms
    } else {
        max_ms
    };
    let requested = if not_after > not_before {
        (not_after - not_before) as u64
    } else {
        0
    };
    if requested > 0 && requested < p {
        requested
    } else {
        p
    }
}

/// Clamp the issuance validity (NDNCERT: `not_after <= min(now +
/// max_validity, requested window)`).
pub fn clamp_validity_ms(policy_ms: u64, max_ms: u64, not_before: u64, not_after: u64) -> (r: u64)
    ensures
        r == issued_validity_ms(policy_ms, max_ms, not_before, not_after),
        r <= max_ms,
        r <= policy_ms,
{
    let policy_ms = if policy_ms < max_ms {
        policy_ms
    } else {
        max_ms
    };
    let requested_ms = not_after.saturating_sub(not_before);
    if requested_ms > 0 {
        if requested_ms < policy_ms {
            requested_ms
        } else {
            policy_ms
        }
    } else {
        policy_ms
    }
}

// ---------------------------------------------------------------------------
// Validity mode
// ---------------------------------------------------------------------------

/// How a node enforces validity, given whether it has a reliable clock.
#[derive(Debug, Clone, Copy, PartialEq, Eq, Structural)]
pub enum ValidityMode {
    /// Wall clock present: enforce `ValidityPeriod` against the current time.
    WallClock,
    /// No reliable clock: rely on the monotonic context version and
    /// single-use or scoped tokens instead of TTL.
    Clockless,
}

impl ValidityMode {
    /// Pick a mode from whether a trusted wall clock is available.
    pub fn detect(has_wall_clock: bool) -> (r: ValidityMode)
        ensures
            r == (if has_wall_clock {
                ValidityMode::WallClock
            } else {
                ValidityMode::Clockless
            }),
    {
        if has_wall_clock {
            ValidityMode::WallClock
        } else {
            ValidityMode::Clockless
        }
    }

    /// Whether validity may rely on TTL / `ValidityPeriod`.
    pub fn ttl_enforceable(&self) -> (r: bool)
        ensures
            r == (*self == ValidityMode::WallClock),
    {
        match self {
            ValidityMode::WallClock => true,
            ValidityMode::Clockless => false,
        }
    }
}

/// A node without a clock never relies on TTL, and one with a clock does.
pub proof fn lemma_ttl_needs_clock(has_wall_clock: bool)
    ensures
        (if has_wall_clock {
            ValidityMode::WallClock
        } else {
            ValidityMode::Clockless
        } == ValidityMode::WallClock) == has_wall_clock,
{
}

} // verus!
