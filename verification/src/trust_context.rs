//! Trust contexts: a portable trust domain, a name scope with the anchors
//! and schema to verify inside it and the identities that may sign within
//! it.

use vstd::prelude::*;

use crate::ca::Certificate;
use crate::chain::{
    cert_named, copy_anchors, err_text, lemma_walk_agree, listed, names_view, validate_chain, walk, ChainContext,
    ChainValidation, ErrView, TrustPath, WalkView,
};
use crate::digest::sha256_of;
use crate::custodian::CustodianRef;
use crate::delegation::{CapabilitySet, IdentityLifetime, IdentityRef, KeyId};
use crate::name::{ComponentView, Name, GENERIC_COMPONENT};
use crate::signer::{trust_error_text, TrustError, SIGNATURE_TYPE_DIGEST_SHA256};
use crate::text::string_from_static;
use crate::trust_schema::{pattern_under, rules_view, schema_allows, NamePattern, PatView, PatternComponent, TrustSchema};

verus! {

/// How a context came to be held.
#[derive(Debug, Clone, PartialEq, Eq)]
pub enum AdoptionProvenance {
    /// Trusted on first use, from a scan (seconds since the epoch).
    TofuRoot { scanned_at: u64, scanner_id: String },
    /// Replicated from another device of the same user.
    Replicated { from_device: Name, at: u64 },
    /// Enrolled with a CA, which issued `cert`.
    Enrolled { issued_by: Name, cert: Certificate, at: u64 },
}

/// A trust domain.
pub struct TrustContext {
    pub name: Name,
    pub anchors: Vec<Certificate>,
    pub schema: TrustSchema,
    pub identities: Vec<IdentityRef>,
    pub ca_endpoints: Vec<Name>,
    pub sync_namespace: Option<Name>,
    pub publish_hints: Vec<Name>,
    pub provenance: AdoptionProvenance,
}

/// The outcome of verifying a packet against a context.
#[derive(Debug, Clone, PartialEq, Eq)]
pub enum VerificationOutcome {
    /// The packet chained to this anchor.
    Verified { anchor: Name },
    Rejected(String),
}

/// Whether a pattern covers a name: literals compare component values,
/// a capture takes one component, and a multi-capture absorbs the rest.
pub open spec fn covers(pat: Seq<PatView>, name: Seq<ComponentView>, i: int) -> bool
    decreases pat.len(),
{
    if pat.len() == 0 {
        i == name.len()
    } else {
        match pat[0] {
            PatView::Literal(c) => 0 <= i < name.len() && name[i].1 == c.1 && covers(pat.drop_first(), name, i + 1),
            PatView::Capture(_) => 0 <= i < name.len() && covers(pat.drop_first(), name, i + 1),
            PatView::MultiCapture(_) => true,
        }
    }
}

/// Whether some sign pattern of the identity covers `name`.
pub open spec fn identity_covers(id: IdentityRef, name: Seq<ComponentView>) -> bool {
    exists|j: int| 0 <= j < id.capabilities.sign@.len() && covers(#[trigger] id.capabilities.sign@[j]@, name, 0)
}

/// Whether `pat` covers `name`.
pub fn pattern_matches(pat: &NamePattern, name: &Name) -> (r: bool)
    ensures
        r == covers(pat@, name@, 0),
{
    let ghost p = pat@;
    let mut i: usize = 0;
    let mut k: usize = 0;
    proof {
        assert(p.skip(0) =~= p);
    }
    while k < pat.0.len()
        invariant
            k <= pat.0@.len(),
            p == pat@,
            p.len() == pat.0@.len(),
            i <= name@.len(),
            covers(p, name@, 0) == covers(p.skip(k as int), name@, i as int),
        decreases pat.0@.len() - k,
    {
        proof {
            assert(p.skip(k as int)[0] == p[k as int]);
            assert(p.skip(k as int).drop_first() =~= p.skip(k + 1));
        }
        match &pat.0[k] {
            PatternComponent::Literal(lit) => {
                if i >= name.components.len() {
                    return false;
                }
                if !crate::name::bytes_eq(name.components[i].value.as_slice(), lit.value.as_slice()) {
                    return false;
                }
                i = i + 1;
            },
            PatternComponent::Capture(_) => {
                if i >= name.components.len() {
                    return false;
                }
                i = i + 1;
            },
            PatternComponent::MultiCapture(_) => {
                return true;
            },
        }
        k = k + 1;
    }
    proof {
        assert(p.skip(k as int).len() == 0);
    }
    i == name.components.len()
}

impl TrustContext {
    /// An adopted-only context at `name`: no anchors or identities yet, and
    /// every rule accepting.
    pub fn adopted(name: Name, scanned_at: u64, scanner_id: String) -> (r: TrustContext)
        ensures
            r.name == name,
            r.anchors@.len() == 0,
            r.identities@.len() == 0,
            r.ca_endpoints@.len() == 0,
            r.sync_namespace is None,
            r.publish_hints@.len() == 0,
            r.schema.rules@.len() == 1,
            r.provenance == (AdoptionProvenance::TofuRoot { scanned_at, scanner_id }),
    {
        TrustContext {
            name,
            anchors: Vec::new(),
            schema: TrustSchema::accept_all(),
            identities: Vec::new(),
            ca_endpoints: Vec::new(),
            sync_namespace: None,
            publish_hints: Vec::new(),
            provenance: AdoptionProvenance::TofuRoot { scanned_at, scanner_id },
        }
    }

    /// The root context holding flat legacy anchors, replicated from the
    /// root at time `now`.
    pub fn legacy_root(anchors: Vec<Certificate>, now: u64) -> (r: TrustContext)
        ensures
            r.name@.len() == 0,
            r.anchors == anchors,
            r.identities@.len() == 0,
            r.schema.rules@.len() == 1,
            r.provenance matches AdoptionProvenance::Replicated { from_device, at } && from_device@.len() == 0 && at
                == now,
    {
        TrustContext {
            name: Name::root(),
            anchors,
            schema: TrustSchema::accept_all(),
            identities: Vec::new(),
            ca_endpoints: Vec::new(),
            sync_namespace: None,
            publish_hints: Vec::new(),
            provenance: AdoptionProvenance::Replicated { from_device: Name::root(), at: now },
        }
    }

    /// An enrolled context with its identities and anchors.
    pub fn enrolled(
        name: Name,
        anchors: Vec<Certificate>,
        identities: Vec<IdentityRef>,
        issued_by: Name,
        cert: Certificate,
        now: u64,
    ) -> (r: TrustContext)
        ensures
            r.name == name,
            r.anchors == anchors,
            r.identities == identities,
            r.schema.rules@.len() == 1,
            r.provenance == (AdoptionProvenance::Enrolled { issued_by, cert, at: now }),
    {
        TrustContext {
            name,
            anchors,
            schema: TrustSchema::accept_all(),
            identities,
            ca_endpoints: Vec::new(),
            sync_namespace: None,
            publish_hints: Vec::new(),
            provenance: AdoptionProvenance::Enrolled { issued_by, cert, at: now },
        }
    }

    /// The first held identity whose sign patterns cover `name`.
    pub fn can_sign(&self, name: &Name) -> (r: Option<&IdentityRef>)
        ensures
            match r {
                Some(id) => exists|k: int|
                    0 <= k < self.identities@.len() && self.identities@[k] == *id && identity_covers(*id, name@)
                        && forall|j: int| 0 <= j < k ==> !identity_covers(#[trigger] self.identities@[j], name@),
                None => forall|j: int| 0 <= j < self.identities@.len() ==> !identity_covers(#[trigger] self.identities@[j], name@),
            },
    {
        let mut k: usize = 0;
        while k < self.identities.len()
            invariant
                k <= self.identities@.len(),
                forall|j: int| 0 <= j < k ==> !identity_covers(#[trigger] self.identities@[j], name@),
            decreases self.identities@.len() - k,
        {
            let id = &self.identities[k];
            let mut j: usize = 0;
            while j < id.capabilities.sign.len()
                invariant
                    j <= id.capabilities.sign@.len(),
                    k < self.identities@.len(),
                    *id == self.identities@[k as int],
                    forall|m: int| 0 <= m < k ==> !identity_covers(#[trigger] self.identities@[m], name@),
                    forall|m: int| 0 <= m < j ==> !covers(#[trigger] id.capabilities.sign@[m]@, name@, 0),
                decreases id.capabilities.sign@.len() - j,
            {
                if pattern_matches(&id.capabilities.sign[j], name) {
                    proof {
                        assert(identity_covers(*id, name@));
                        assert(self.identities@[k as int] == *id);
                    }
                    return Some(id);
                }
                j = j + 1;
            }
            proof {
                assert(!identity_covers(self.identities@[k as int], name@));
            }
            k = k + 1;
        }
        None
    }

    /// A sub-identity for `scope`, derived from `parent`: it may sign under
    /// `scope` and nothing more; its key is yet to be generated.
    pub fn derive_sub(
        &self,
        scope: Name,
        lifetime: IdentityLifetime,
        parent: &IdentityRef,
        custodian: CustodianRef,
    ) -> (r: IdentityRef)
        ensures
            r.name@ == scope@,
            r.key_id.0@ == scope@.push((GENERIC_COMPONENT, seq![0x4Bu8, 0x45u8, 0x59u8])).push(
                (GENERIC_COMPONENT, seq![0x70u8, 0x65u8, 0x6eu8, 0x64u8, 0x69u8, 0x6eu8, 0x67u8]),
            ),
            r.custodian == custodian,
            r.lifetime == lifetime,
            r.derived_from matches Some(k) && k.0@ == parent.key_id.0@,
            r.capabilities.sign@.len() == 1,
            r.capabilities.sign@[0]@ == scope@.map_values(|c: ComponentView| PatView::Literal(c)).push(
                PatView::MultiCapture("_"@),
            ),
            !r.capabilities.unwrap_for && !r.capabilities.enroll && !r.capabilities.mgmt,
    {
        let key_id = KeyId::placeholder_for(&scope);
        let pattern = pattern_under(&scope);
        IdentityRef {
            name: scope,
            key_id,
            custodian,
            lifetime,
            derived_from: Some(KeyId(parent.key_id.0.copy())),
            capabilities: CapabilitySet { sign: vec![pattern], unwrap_for: false, enroll: false, mgmt: false },
        }
    }

    /// Verify a signed packet against the context's anchors and schema,
    /// with no fetching: a chain that anchors is verified, with the anchor
    /// it reached; a bare digest (integrity, not identity), a chain that
    /// does not resolve, or an invalid one is rejected with the reason. A
    /// context without anchors rejects everything.
    pub fn verify(
        &self,
        name: &Name,
        sig_type: u64,
        key_locator: Option<&Name>,
        region: &[u8],
        sig: &[u8],
        now: u64,
    ) -> (r: VerificationOutcome)
        ensures
            sig_type == SIGNATURE_TYPE_DIGEST_SHA256 ==> (r matches VerificationOutcome::Rejected(m) && m@ == (
            if sha256_of(region@) == sig@ {
                "DigestSha256: integrity, not identity"@
            } else {
                trust_error_text(TrustError::InvalidSignature)
            })),
            sig_type != SIGNATURE_TYPE_DIGEST_SHA256 && key_locator is None ==> (r matches VerificationOutcome::Rejected(m)
                && m@ == trust_error_text(TrustError::InvalidSignature)),
            sig_type != SIGNATURE_TYPE_DIGEST_SHA256 && key_locator is Some ==> match context_walk(
                rules_view(self.schema.rules@),
                self.anchors@,
                name@,
                key_locator.unwrap()@,
                region@,
                sig@,
                sig_type,
                now,
            ) {
                WalkView::Anchored(c) => r matches VerificationOutcome::Verified { anchor } && anchor@ == (if c.len() > 0 {
                    c.last()
                } else {
                    name@
                }),
                WalkView::Pending(_) => r matches VerificationOutcome::Rejected(m) && m@ == "certificate chain not resolved"@,
                WalkView::Invalid(e) => r matches VerificationOutcome::Rejected(m) && m@ == err_text(e),
            },
            self.anchors@.len() == 0 ==> r is Rejected,
    {
        let ctx = ChainContext { schema: self.schema.copy(), anchors: copy_anchors(&self.anchors), revoked: Vec::new() };
        let cache: Vec<Certificate> = Vec::new();
        let v = validate_chain(&ctx, &cache, name, sig_type, key_locator, region, sig, now, CONTEXT_MAX_CHAIN);
        proof {
            if sig_type != SIGNATURE_TYPE_DIGEST_SHA256 && key_locator is Some {
                let k = key_locator.unwrap()@;
                assert(names_view(ctx.revoked@) =~= Seq::<Seq<ComponentView>>::empty());
                lemma_walk_agree(
                    ctx.anchors@,
                    self.anchors@,
                    Seq::empty(),
                    cache@,
                    k,
                    region@,
                    sig@,
                    sig_type,
                    now,
                    CONTEXT_MAX_CHAIN as nat,
                    CONTEXT_MAX_CHAIN,
                    Seq::empty(),
                    Seq::empty(),
                );
                assert(cache@ =~= Seq::<Certificate>::empty());
                if self.anchors@.len() == 0 {
                    assert(!listed(Seq::empty(), k));
                    assert(cert_named(self.anchors@, k) is None);
                    assert(cert_named(Seq::<Certificate>::empty(), k) is None);
                }
            }
        }
        match v {
            ChainValidation::Valid(TrustPath::DigestSha256) => VerificationOutcome::Rejected(
                string_from_static("DigestSha256: integrity, not identity"),
            ),
            ChainValidation::Valid(TrustPath::CertChain(c)) => {
                if c.len() > 0 {
                    VerificationOutcome::Verified { anchor: c[c.len() - 1].copy() }
                } else {
                    VerificationOutcome::Verified { anchor: name.copy() }
                }
            },
            ChainValidation::Pending(_) => VerificationOutcome::Rejected(string_from_static("certificate chain not resolved")),
            ChainValidation::Invalid(e) => VerificationOutcome::Rejected(e.message()),
        }
    }
}

/// What context-sync replicates to a sibling device: the anchors, schema
/// and CA endpoints of a context, and never key material.
pub struct SyncBundle {
    pub context_name: Name,
    pub anchors: Vec<Certificate>,
    pub schema: TrustSchema,
    pub ca_endpoints: Vec<Name>,
}

/// The bytes a context's fingerprint is taken over: the signed region of
/// its first anchor (empty when that is unknown).
pub open spec fn fingerprint_input(c: Certificate) -> Seq<u8> {
    match c.signed_region {
        Some(v) => v@,
        None => Seq::empty(),
    }
}

impl TrustContext {
    /// The primary trust identifier of the context: the SHA-256 of its
    /// first anchor's signed region; all zeros without an anchor.
    pub fn anchor_fingerprint(&self) -> (r: [u8; 32])
        ensures
            self.anchors@.len() > 0 ==> r@ == sha256_of(fingerprint_input(self.anchors@[0])),
            self.anchors@.len() == 0 ==> r@ == Seq::new(32, |i: int| 0u8),
    {
        if self.anchors.len() == 0 {
            let z = [0u8; 32];
            proof {
                assert(z@ =~= Seq::new(32, |i: int| 0u8));
            }
            return z;
        }
        match &self.anchors[0].signed_region {
            Some(v) => crate::digest::sha256(v.as_slice()),
            None => {
                let e: [u8; 0] = [];
                proof {
                    assert(e@ =~= Seq::<u8>::empty());
                }
                crate::digest::sha256(&e)
            },
        }
    }

    /// The bundle context-sync replicates: name, anchors, schema and CA
    /// endpoints.
    pub fn export_for_sync(&self) -> (r: SyncBundle)
        ensures
            r.context_name@ == self.name@,
            crate::chain::anchors_agree(r.anchors@, self.anchors@),
            rules_view(r.schema.rules@) == rules_view(self.schema.rules@),
            r.ca_endpoints@.len() == self.ca_endpoints@.len(),
            forall|i: int| 0 <= i < self.ca_endpoints@.len() ==> #[trigger] r.ca_endpoints@[i]@ == self.ca_endpoints@[i]@,
    {
        let mut eps: Vec<Name> = Vec::new();
        let mut i: usize = 0;
        while i < self.ca_endpoints.len()
            invariant
                i <= self.ca_endpoints@.len(),
                eps@.len() == i,
                forall|j: int| 0 <= j < i ==> #[trigger] eps@[j]@ == self.ca_endpoints@[j]@,
            decreases self.ca_endpoints@.len() - i,
        {
            eps.push(self.ca_endpoints[i].copy());
            i = i + 1;
        }
        SyncBundle {
            context_name: self.name.copy(),
            anchors: copy_anchors(&self.anchors),
            schema: self.schema.copy(),
            ca_endpoints: eps,
        }
    }
}

/// How many certificates a context's chain may walk.
pub const CONTEXT_MAX_CHAIN: usize = 8;

/// The walk for a packet under a context's schema rules and anchors, with
/// no certificate cache and nothing revoked.
pub open spec fn context_walk(
    rules: Seq<(Seq<PatView>, Seq<PatView>)>,
    anchors: Seq<Certificate>,
    name: Seq<ComponentView>,
    first_key: Seq<ComponentView>,
    region: Seq<u8>,
    sig: Seq<u8>,
    sig_type: u64,
    now: u64,
) -> WalkView {
    if !schema_allows(rules, name, first_key) {
        WalkView::Invalid(ErrView::SchemaMismatch)
    } else {
        walk(
            anchors,
            Seq::empty(),
            Seq::empty(),
            first_key,
            region,
            sig,
            sig_type,
            now,
            CONTEXT_MAX_CHAIN as nat,
            CONTEXT_MAX_CHAIN,
            Seq::empty(),
            Seq::empty(),
        )
    }
}

/// A pattern of literals and single captures only.
pub open spec fn fixed_length_pattern(pat: Seq<PatView>) -> bool {
    forall|k: int| 0 <= k < pat.len() ==> !(#[trigger] pat[k] is MultiCapture)
}

/// From position `i`, a pattern of literals and single captures covers
/// `name` exactly when the rest of the name has one component per pattern
/// element and each literal equals its component's value.
pub proof fn lemma_fixed_pattern_covers_from(pat: Seq<PatView>, name: Seq<ComponentView>, i: int)
    requires
        fixed_length_pattern(pat),
        0 <= i,
    ensures
        covers(pat, name, i) <==> (name.len() == i + pat.len() && forall|k: int|
            0 <= k < pat.len() ==> (#[trigger] pat[k] matches PatView::Literal(c) ==> name[i + k].1 == c.1)),
    decreases pat.len(),
{
    if pat.len() > 0 {
        let rest = pat.drop_first();
        assert forall|k: int| 0 <= k < rest.len() implies !(#[trigger] rest[k] is MultiCapture) by {
            assert(rest[k] == pat[k + 1]);
        }
        lemma_fixed_pattern_covers_from(rest, name, i + 1);
        assert(!(pat[0] is MultiCapture));
        if covers(pat, name, i) {
            assert forall|k: int| 0 <= k < pat.len() implies (#[trigger] pat[k] matches PatView::Literal(c) ==> name[i + k].1
                == c.1) by {
                if k > 0 {
                    assert(rest[k - 1] == pat[k]);
                }
            }
        } else {
            if name.len() == i + pat.len() && forall|k: int|
                0 <= k < pat.len() ==> (#[trigger] pat[k] matches PatView::Literal(c) ==> name[i + k].1 == c.1) {
                assert forall|k: int| 0 <= k < rest.len() implies (#[trigger] rest[k] matches PatView::Literal(c) ==> name[
                    i + 1 + k].1 == c.1) by {
                    assert(rest[k] == pat[k + 1]);
                }
                assert(pat[0] matches PatView::Literal(c) ==> name[i].1 == c.1);
            }
        }
    }
}

/// A pattern without `**` must consume the whole name: it covers a name
/// exactly when the name has as many components as the pattern and each
/// literal equals the component at its place (a capture takes any one
/// component). In particular it never covers a longer or shorter name.
pub proof fn lemma_fixed_pattern_covers(pat: Seq<PatView>, name: Seq<ComponentView>)
    requires
        fixed_length_pattern(pat),
    ensures
        covers(pat, name, 0) <==> (name.len() == pat.len() && forall|k: int|
            0 <= k < pat.len() ==> (#[trigger] pat[k] matches PatView::Literal(c) ==> name[k].1 == c.1)),
        covers(pat, name, 0) ==> name.len() == pat.len(),
{
    lemma_fixed_pattern_covers_from(pat, name, 0);
}

/// From position `i`, a pattern whose first `**` follows the literals and
/// single captures `pre` covers `name` exactly when the name has at least
/// one component per element of `pre` from `i` on and each literal of
/// `pre` equals its component's value; whatever follows the `**` is not
/// read.
pub proof fn lemma_multi_pattern_covers_from(
    pre: Seq<PatView>,
    tag: Seq<char>,
    rest: Seq<PatView>,
    name: Seq<ComponentView>,
    i: int,
)
    requires
        fixed_length_pattern(pre),
        0 <= i <= name.len(),
    ensures
        covers(pre + seq![PatView::MultiCapture(tag)] + rest, name, i) <==> (name.len() >= i + pre.len() && forall|k: int|
            0 <= k < pre.len() ==> (#[trigger] pre[k] matches PatView::Literal(c) ==> name[i + k].1 == c.1)),
    decreases pre.len(),
{
    let pat = pre + seq![PatView::MultiCapture(tag)] + rest;
    if pre.len() == 0 {
        assert(pat[0] == PatView::MultiCapture(tag));
    } else {
        let pre2 = pre.drop_first();
        assert(pat.drop_first() =~= pre2 + seq![PatView::MultiCapture(tag)] + rest);
        assert(pat[0] == pre[0]);
        assert forall|k: int| 0 <= k < pre2.len() implies !(#[trigger] pre2[k] is MultiCapture) by {
            assert(pre2[k] == pre[k + 1]);
        }
        assert(!(pre[0] is MultiCapture));
        if i < name.len() {
            lemma_multi_pattern_covers_from(pre2, tag, rest, name, i + 1);
            if covers(pat, name, i) {
                assert forall|k: int| 0 <= k < pre.len() implies (#[trigger] pre[k] matches PatView::Literal(c) ==> name[i
                    + k].1 == c.1) by {
                    if k > 0 {
                        assert(pre2[k - 1] == pre[k]);
                    }
                }
            } else {
                if name.len() >= i + pre.len() && forall|k: int|
                    0 <= k < pre.len() ==> (#[trigger] pre[k] matches PatView::Literal(c) ==> name[i + k].1 == c.1) {
                    assert forall|k: int| 0 <= k < pre2.len() implies (#[trigger] pre2[k] matches PatView::Literal(c)
                        ==> name[i + 1 + k].1 == c.1) by {
                        assert(pre2[k] == pre[k + 1]);
                    }
                    assert(pre[0] matches PatView::Literal(c) ==> name[i].1 == c.1);
                }
            }
        }
    }
}

/// A pattern `pre/**...` covers exactly the names that extend `pre`: at
/// least as many components, each literal of `pre` matched in place.
pub proof fn lemma_multi_pattern_covers(pre: Seq<PatView>, tag: Seq<char>, rest: Seq<PatView>, name: Seq<ComponentView>)
    requires
        fixed_length_pattern(pre),
    ensures
        covers(pre + seq![PatView::MultiCapture(tag)] + rest, name, 0) <==> (name.len() >= pre.len() && forall|k: int|
            0 <= k < pre.len() ==> (#[trigger] pre[k] matches PatView::Literal(c) ==> name[k].1 == c.1)),
{
    lemma_multi_pattern_covers_from(pre, tag, rest, name, 0);
}

} // verus!
