//! Delegation: a principal grants a scoped capability to a subordinate
//! (device) key.
//!
//! The certificate is the delegation: a subordinate key issued by the
//! principal key is, by NDN convention, delegated by it. [`Delegation`] makes
//! the grant explicit and enforces that the subordinate certificate is
//! genuinely issued by the principal key, and that the subordinate lives
//! within the principal's namespace.

use vstd::prelude::*;

use crate::ca::Certificate;
use crate::name::{spec_has_prefix, spec_identity_of, spec_key_name_of, ComponentView, Name};
use crate::signer::{signature_verdict, verify_by_sig_type};
use crate::transition::opt_bytes;
use crate::trust_schema::{match_run, pattern_under, Bindings, NamePattern, PatView};

verus! {

/// A key, by its name.
#[derive(Debug, Clone, PartialEq, Eq, Hash)]
pub struct KeyId(pub Name);

impl KeyId {
    /// A key-id minted from an identity name (`<identity>/KEY/pending`), for
    /// derived identities whose key has not been generated yet.
    pub fn placeholder_for(identity: &Name) -> (r: KeyId)
        ensures
            r.0@ == identity@.push((crate::name::GENERIC_COMPONENT, seq![0x4Bu8, 0x45u8, 0x59u8])).push(
                (crate::name::GENERIC_COMPONENT, seq![0x70u8, 0x65u8, 0x6eu8, 0x64u8, 0x69u8, 0x6eu8, 0x67u8]),
            ),
    {
        let n = identity.copy().append(&[0x4Bu8, 0x45u8, 0x59u8]).append(&[0x70u8, 0x65u8, 0x6eu8, 0x64u8, 0x69u8, 0x6eu8, 0x67u8]);
        KeyId(n)
    }

    pub fn as_name(&self) -> (r: &Name)
        ensures
            *r == self.0,
    {
        &self.0
    }
}

/// How long an identity lives.
#[derive(Debug, Clone, PartialEq, Eq)]
pub enum IdentityLifetime {
    Persistent,
    /// `expires_at` is in seconds since the epoch.
    Ephemeral { expires_at: Option<u64>, revoke_on_unbind: bool },
    SessionScoped { custodian_session_id: String },
}

/// What an identity may do: sign names matching one of `sign`, unwrap
/// content keys, enroll further identities, issue management commands.
#[derive(Debug, Clone, PartialEq, Eq, Default)]
pub struct CapabilitySet {
    pub sign: Vec<NamePattern>,
    pub unwrap_for: bool,
    pub enroll: bool,
    pub mgmt: bool,
}

/// Whether one of the patterns matches `name` (each with fresh bindings).
pub open spec fn may_sign_view(sign: Seq<NamePattern>, name: Seq<ComponentView>) -> bool {
    exists|i: int| 0 <= i < sign.len() && #[trigger] match_run(sign[i]@, name, 0, Seq::empty()).0
}

impl CapabilitySet {
    /// A copy of this set.
    pub fn copy(&self) -> (r: CapabilitySet)
        ensures
            r.sign@.len() == self.sign@.len(),
            forall|i: int| 0 <= i < self.sign@.len() ==> #[trigger] r.sign@[i]@ == self.sign@[i]@,
            r.unwrap_for == self.unwrap_for,
            r.enroll == self.enroll,
            r.mgmt == self.mgmt,
    {
        let mut sign: Vec<NamePattern> = Vec::new();
        let mut i: usize = 0;
        while i < self.sign.len()
            invariant
                i <= self.sign@.len(),
                sign@.len() == i,
                forall|j: int| 0 <= j < i ==> #[trigger] sign@[j]@ == self.sign@[j]@,
            decreases self.sign@.len() - i,
        {
            sign.push(self.sign[i].copy());
            i = i + 1;
        }
        CapabilitySet { sign, unwrap_for: self.unwrap_for, enroll: self.enroll, mgmt: self.mgmt }
    }

    /// Whether any `sign` pattern authorizes signing `name`.
    pub fn may_sign(&self, name: &Name) -> (r: bool)
        ensures
            r == may_sign_view(self.sign@, name@),
    {
        let mut i: usize = 0;
        while i < self.sign.len()
            invariant
                i <= self.sign@.len(),
                forall|j: int| 0 <= j < i ==> !#[trigger] match_run(self.sign@[j]@, name@, 0, Seq::empty()).0,
            decreases self.sign@.len() - i,
        {
            let mut bindings: Bindings = Vec::new();
            proof {
                assert(crate::trust_schema::bindings_view(bindings@) =~= Seq::<(Seq<char>, ComponentView)>::empty());
            }
            if self.sign[i].matches(name, &mut bindings) {
                proof {
                    assert(match_run(self.sign@[i as int]@, name@, 0, Seq::empty()).0);
                }
                return true;
            }
            i = i + 1;
        }
        false
    }
}

/// One identity held in a trust context.
#[derive(Debug, Clone, PartialEq, Eq)]
pub struct IdentityRef {
    pub name: Name,
    pub key_id: KeyId,
    /// Where the identity's key lives.
    pub custodian: crate::custodian::CustodianRef,
    pub lifetime: IdentityLifetime,
    pub derived_from: Option<KeyId>,
    pub capabilities: CapabilitySet,
}

/// A scoped grant from a principal to a subordinate key.
#[derive(Debug, Clone, PartialEq, Eq)]
pub struct Delegation {
    /// The principal's identity namespace (the grantor).
    pub principal: Name,
    /// The subordinate's identity namespace (the grantee).
    pub subordinate: Name,
    /// What the subordinate is authorized to do.
    pub scope: CapabilitySet,
}

/// Why a delegation failed to verify.
#[derive(Debug, Clone, Copy, PartialEq, Eq, Structural)]
pub enum DelegationError {
    /// A certificate name was malformed (no `KEY` component).
    Malformed,
    /// The subordinate namespace is not under the principal's.
    OutOfNamespace,
    /// The subordinate certificate's issuer is not the principal key.
    NotIssuedByPrincipal,
    /// The issuance signature does not verify under the principal key.
    SignatureInvalid,
}

/// The verdict on a delegation: the principal and subordinate identities, or
/// why it fails.
pub open spec fn delegation_verdict(p: Certificate, s: Certificate) -> Result<(Seq<ComponentView>, Seq<ComponentView>), DelegationError> {
    match (spec_identity_of(p.name@), spec_identity_of(s.name@)) {
        (Some(pi), Some(si)) => if !spec_has_prefix(si, pi) {
            Err(DelegationError::OutOfNamespace)
        } else {
            match spec_key_name_of(p.name@) {
                None => Err(DelegationError::Malformed),
                Some(pk) => match s.issuer {
                    None => Err(DelegationError::NotIssuedByPrincipal),
                    Some(iss) => if spec_key_name_of(iss@) != Some(pk) {
                        Err(DelegationError::NotIssuedByPrincipal)
                    } else {
                        match (opt_bytes(s.signed_region), opt_bytes(s.sig_value)) {
                            (Some(region), Some(sig)) => if signature_verdict(s.sig_type, region, sig, p.public_key@) == Ok::<bool, Seq<char>>(true) {
                                Ok((pi, si))
                            } else {
                                Err(DelegationError::SignatureInvalid)
                            },
                            _ => Err(DelegationError::SignatureInvalid),
                        }
                    },
                },
            }
        },
        _ => Err(DelegationError::Malformed),
    }
}

impl Delegation {
    /// Verify that `subordinate_cert` is a genuine, in-namespace delegation
    /// from `principal_cert`. The delegation is scoped to signing under the
    /// subordinate's own namespace; the capability flags stay off, since the
    /// certificate cannot prove them.
    pub fn verify(principal_cert: &Certificate, subordinate_cert: &Certificate) -> (r: Result<Delegation, DelegationError>)
        ensures
            match delegation_verdict(*principal_cert, *subordinate_cert) {
                Err(e) => r == Err::<Delegation, DelegationError>(e),
                Ok((pi, si)) => r matches Ok(d) && d.principal@ == pi && d.subordinate@ == si
                    && d.scope.sign@.len() == 1
                    && d.scope.sign@[0]@ == si.map_values(|c: ComponentView| PatView::Literal(c)).push(PatView::MultiCapture("_"@))
                    && !d.scope.unwrap_for && !d.scope.enroll && !d.scope.mgmt,
            },
    {
        let principal = match principal_cert.name.identity_of() {
            Some(n) => n,
            None => return Err(DelegationError::Malformed),
        };
        let subordinate = match subordinate_cert.name.identity_of() {
            Some(n) => n,
            None => return Err(DelegationError::Malformed),
        };
        if !subordinate.has_prefix(&principal) {
            return Err(DelegationError::OutOfNamespace);
        }
        let principal_key = match principal_cert.name.key_name_of() {
            Some(k) => k,
            None => return Err(DelegationError::Malformed),
        };
        let issuer = match &subordinate_cert.issuer {
            Some(i) => i,
            None => return Err(DelegationError::NotIssuedByPrincipal),
        };
        let issued = match issuer.key_name_of() {
            Some(ik) => ik.same_as(&principal_key),
            None => false,
        };
        if !issued {
            return Err(DelegationError::NotIssuedByPrincipal);
        }
        match (&subordinate_cert.signed_region, &subordinate_cert.sig_value) {
            (Some(region), Some(sig)) => {
                match verify_by_sig_type(subordinate_cert.sig_type, region.as_slice(), sig.as_slice(), principal_cert.public_key.as_slice()) {
                    Ok(true) => {},
                    _ => return Err(DelegationError::SignatureInvalid),
                }
            },
            _ => return Err(DelegationError::SignatureInvalid),
        }
        let pattern = pattern_under(&subordinate);
        let scope = CapabilitySet { sign: vec![pattern], unwrap_for: false, enroll: false, mgmt: false };
        Ok(Delegation { principal, subordinate, scope })
    }

    /// The grant a `parent -> derived` identity pair expresses: the derived
    /// identity's full capabilities (the principal's intent), not checked
    /// against any certificate.
    pub fn from_derived(parent: &IdentityRef, derived: &IdentityRef) -> (r: Delegation)
        ensures
            r.principal@ == parent.name@,
            r.subordinate@ == derived.name@,
            r.scope.sign@.len() == derived.capabilities.sign@.len(),
            forall|i: int| 0 <= i < r.scope.sign@.len() ==> #[trigger] r.scope.sign@[i]@ == derived.capabilities.sign@[i]@,
            r.scope.unwrap_for == derived.capabilities.unwrap_for,
            r.scope.enroll == derived.capabilities.enroll,
            r.scope.mgmt == derived.capabilities.mgmt,
    {
        Delegation { principal: parent.name.copy(), subordinate: derived.name.copy(), scope: derived.capabilities.copy() }
    }

    /// Whether this delegation authorizes signing `name`.
    pub fn may_sign(&self, name: &Name) -> (r: bool)
        ensures
            r == may_sign_view(self.scope.sign@, name@),
    {
        self.scope.may_sign(name)
    }

    pub fn may_unwrap(&self) -> (r: bool)
        ensures
            r == self.scope.unwrap_for,
    {
        self.scope.unwrap_for
    }

    pub fn may_enroll(&self) -> (r: bool)
        ensures
            r == self.scope.enroll,
    {
        self.scope.enroll
    }

    pub fn may_manage(&self) -> (r: bool)
        ensures
            r == self.scope.mgmt,
    {
        self.scope.mgmt
    }
}

/// A verified delegation lets the subordinate sign every name under its own
/// namespace.
pub proof fn lemma_delegation_scope(p: Certificate, s: Certificate, name: Seq<ComponentView>)
    requires
        delegation_verdict(p, s) is Ok,
        spec_has_prefix(name, delegation_verdict(p, s)->Ok_0.1),
    ensures
        match_run(
            delegation_verdict(p, s)->Ok_0.1.map_values(|c: ComponentView| PatView::Literal(c)).push(PatView::MultiCapture("_"@)),
            name,
            0,
            Seq::empty(),
        ).0,
{
    crate::trust_schema::lemma_pattern_under(delegation_verdict(p, s)->Ok_0.1, name, Seq::empty());
}

} // verus!
