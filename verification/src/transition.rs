//! Key-state transitions: rotation and recovery of an identity's key.
//!
//! A stable identity's key changes only through an authorized transition.
//! Rotation and recovery are the same operation and differ only in who
//! authorizes it, so they share one trait, [`TransitionAuthority`], over one
//! [`KeyState`]:
//!
//! - [`CertRotation`]: the prior key signed the new key's certificate.
//! - [`DidDocumentRotation`]: a content-addressed chain of `did:ndn`
//!   identity proofs, each signed by the prior key.
//! - [`KeyRecovery`]: the recovery authority the prior key-state committed to
//!   signs the new key-state.

use vstd::prelude::*;

use crate::ca::Certificate;
use crate::crypto::{ed25519_accepts, ed25519_verify};
use crate::name::{spec_identity_of, spec_key_name_of, Name};
use crate::name_uri::spec_uri_text;
use crate::signer::{signature_verdict, verify_by_sig_type};
use crate::text::{decimal_text, push_text, string_from_static, u64_text};

verus! {

/// A recovery authority committed to in advance: one key, or `threshold` of
/// `keys`.
#[derive(Debug, Clone, PartialEq, Eq)]
pub enum RecoveryCommitment {
    Key([u8; 32]),
    Quorum { keys: Vec<[u8; 32]>, threshold: usize },
}

/// A `did:ndn` rotation-chain link, as far as a transition reads it.
#[derive(Debug, Clone, PartialEq, Eq)]
pub struct IdentityProof {
    /// The DID subject (`document.id`).
    pub did: String,
    /// The document's Ed25519 verification key, if it has one.
    pub ed25519_key: Option<[u8; 32]>,
    /// The content hash of the predecessor.
    pub parent_ref: Option<[u8; 32]>,
    pub seq: u64,
    /// The recovery authority this link commits to.
    pub recovery: Option<RecoveryCommitment>,
    pub sig_value: Vec<u8>,
    pub sig_type: u64,
    /// The content hash of this link.
    pub content_hash: [u8; 32],
    /// The bytes this link's signature covers.
    pub canonical_bytes: Vec<u8>,
}

/// A published key-state.
#[derive(Debug, Clone, PartialEq, Eq)]
pub enum KeyState {
    /// A canonical NDN certificate key-state.
    Cert(Certificate),
    /// A `did:ndn` rotation-chain link.
    Did(IdentityProof),
}

/// One recovery signature: which committed key produced it, and the
/// signature over the new key-state's canonical bytes.
#[derive(Debug, Clone, PartialEq, Eq)]
pub struct RecoverySignature {
    pub key_index: usize,
    pub signature: Vec<u8>,
}

/// Signatures by a pre-committed recovery authority.
#[derive(Debug, Clone, PartialEq, Eq, Default)]
pub struct RecoveryProof {
    pub signatures: Vec<RecoverySignature>,
}

/// How a transition is proven.
#[derive(Debug, Clone, PartialEq, Eq)]
pub enum TransitionProof {
    /// The new key-state's own signature (rotation).
    Intrinsic,
    /// Signatures by the recovery authority (recovery).
    Recovery(RecoveryProof),
}

/// The verdict of a transition authority.
#[derive(Debug, Clone, PartialEq, Eq)]
pub enum AuthorityOutcome {
    Authorized,
    Refused(String),
    /// No authority understood the method: abstain, do not reject.
    UnknownMethod(String),
}

pub enum OutcomeView {
    Authorized,
    Refused(Seq<char>),
    UnknownMethod(Seq<char>),
}

impl View for AuthorityOutcome {
    type V = OutcomeView;

    open spec fn view(&self) -> OutcomeView {
        match self {
            AuthorityOutcome::Authorized => OutcomeView::Authorized,
            AuthorityOutcome::Refused(m) => OutcomeView::Refused(m@),
            AuthorityOutcome::UnknownMethod(m) => OutcomeView::UnknownMethod(m@),
        }
    }
}

/// Who may authorize a transition of an identity's key-state.
pub trait TransitionAuthority {
    /// The method this authority implements.
    fn method_id(&self) -> &'static str;

    /// What this authority decides of the transition `prior -> next` with
    /// `evidence`, as plain values. An authority that does not state it
    /// leaves it unspecified.
    closed spec fn verdict(&self, prior: KeyState, next: KeyState, evidence: TransitionProof) -> OutcomeView {
        arbitrary()
    }

    /// Whether this authority authorizes the transition `prior -> next`.
    fn authorizes(&self, prior: &KeyState, next: &KeyState, evidence: &TransitionProof) -> (r: AuthorityOutcome)
        ensures
            r@ == self.verdict(*prior, *next, *evidence),
    ;
}

/// The verdict of the continuity signature.
pub open spec fn continuity(v: Result<bool, Seq<char>>) -> OutcomeView {
    match v {
        Ok(true) => OutcomeView::Authorized,
        Ok(false) => OutcomeView::Refused("continuity signature does not verify under the prior key"@),
        Err(e) => OutcomeView::Refused("verify error: "@ + e),
    }
}

fn continuity_outcome(v: Result<bool, String>) -> (r: AuthorityOutcome)
    ensures
        r@ == continuity(
            match v {
                Ok(b) => Ok(b),
                Err(e) => Err(e@),
            },
        ),
{
    match v {
        Ok(true) => AuthorityOutcome::Authorized,
        Ok(false) => AuthorityOutcome::Refused(string_from_static("continuity signature does not verify under the prior key")),
        Err(e) => {
            let mut m = string_from_static("verify error: ");
            push_text(&mut m, e.as_str());
            AuthorityOutcome::Refused(m)
        },
    }
}

/// The bytes of an optional byte vector.
pub open spec fn opt_bytes(o: Option<Vec<u8>>) -> Option<Seq<u8>> {
    match o {
        Some(v) => Some(v@),
        None => None,
    }
}

/// The verdict of [`CertRotation`] on two certificates.
pub open spec fn cert_rotation(prior: Certificate, next: Certificate) -> OutcomeView {
    match (spec_identity_of(prior.name@), spec_identity_of(next.name@)) {
        (Some(pi), Some(ni)) => if pi != ni {
            OutcomeView::Refused("rotation must stay in the same identity: "@ + spec_uri_text(pi) + " \u{2192} "@ + spec_uri_text(ni))
        } else {
            match (spec_key_name_of(prior.name@), spec_key_name_of(next.name@)) {
                (Some(pk), Some(nk)) => if pk == nk {
                    OutcomeView::Refused("not a rotation: same key"@)
                } else {
                    match next.issuer {
                        None => OutcomeView::Refused("new certificate is self-signed, not issued by the prior key"@),
                        Some(iss) => if spec_key_name_of(iss@) != Some(pk) {
                            OutcomeView::Refused("new key not issued by the prior key (issuer "@ + spec_uri_text(iss@) + ")"@)
                        } else {
                            match (opt_bytes(next.signed_region), opt_bytes(next.sig_value)) {
                                (Some(region), Some(sig)) => continuity(signature_verdict(next.sig_type, region, sig, prior.public_key@)),
                                _ => OutcomeView::Refused("new certificate carries no signature"@),
                            }
                        },
                    }
                },
                _ => OutcomeView::Refused("malformed key name"@),
            }
        },
        _ => OutcomeView::Refused("certificate name has no KEY component"@),
    }
}

/// `a` followed by ` → ` and `b`, after `head`.
pub open spec fn arrow_text(head: Seq<char>, a: Seq<char>, b: Seq<char>) -> Seq<char> {
    head + a + " \u{2192} "@ + b
}

fn arrow_message(head: &str, a: &str, b: &str) -> (r: String)
    ensures
        r@ == arrow_text(head@, a@, b@),
{
    let mut m = string_from_static(head);
    push_text(&mut m, a);
    push_text(&mut m, " \u{2192} ");
    push_text(&mut m, b);
    m
}

/// `prior.seq + 1`, held at `u64::MAX`.
pub open spec fn next_seq(s: u64) -> u64 {
    if s == u64::MAX {
        s
    } else {
        (s + 1) as u64
    }
}

/// The continuity checks shared by rotation and recovery links: the refusal,
/// if any. `what` names the operation in the message about the subject.
pub open spec fn link_refusal(prior: IdentityProof, next: IdentityProof, what: Seq<char>) -> Option<Seq<char>> {
    if prior.did@ != next.did@ {
        Some(arrow_text(what + " must keep the same DID subject: "@, prior.did@, next.did@))
    } else if next.seq != next_seq(prior.seq) {
        Some(arrow_text("non-monotonic sequence: "@, decimal_text(prior.seq as nat), decimal_text(next.seq as nat)))
    } else if next.parent_ref != Some(prior.content_hash) {
        Some("parent_ref does not match the predecessor's content hash"@)
    } else {
        None
    }
}

fn link_check(prior: &IdentityProof, next: &IdentityProof, what: &str) -> (r: Option<String>)
    ensures
        match link_refusal(*prior, *next, what@) {
            None => r is None,
            Some(m) => r matches Some(s) && s@ == m,
        },
{
    if !crate::text::str_eq(prior.did.as_str(), next.did.as_str()) {
        let mut head = string_from_static(what);
        push_text(&mut head, " must keep the same DID subject: ");
        return Some(arrow_message(head.as_str(), prior.did.as_str(), next.did.as_str()));
    }
    if next.seq != prior.seq.saturating_add(1) {
        let a = u64_text(prior.seq);
        let b = u64_text(next.seq);
        return Some(arrow_message("non-monotonic sequence: ", a.as_str(), b.as_str()));
    }
    let linked = match &next.parent_ref {
        Some(p) => same_key(p, &prior.content_hash),
        None => false,
    };
    if !linked {
        return Some(string_from_static("parent_ref does not match the predecessor's content hash"));
    }
    None
}

/// Canonical NDN key rotation: the prior key signed the new key's
/// certificate, which stays in the same identity.
#[derive(Debug, Clone, Copy, PartialEq, Eq, Default)]
pub struct CertRotation;

impl TransitionAuthority for CertRotation {
    open spec fn verdict(&self, prior: KeyState, next: KeyState, evidence: TransitionProof) -> OutcomeView {
        match (prior, next) {
            (KeyState::Cert(p), KeyState::Cert(n)) => cert_rotation(p, n),
            _ => OutcomeView::Refused("cert-rotation requires certificate key-states"@),
        }
    }

    fn method_id(&self) -> (r: &'static str)
        ensures
            r@ == "cert-rotation"@,
    {
        "cert-rotation"
    }

    fn authorizes(&self, prior: &KeyState, next: &KeyState, evidence: &TransitionProof) -> (r: AuthorityOutcome)
        ensures
            r@ == match (*prior, *next) {
                (KeyState::Cert(p), KeyState::Cert(n)) => cert_rotation(p, n),
                _ => OutcomeView::Refused("cert-rotation requires certificate key-states"@),
            },
    {
        let (p, n) = match (prior, next) {
            (KeyState::Cert(p), KeyState::Cert(n)) => (p, n),
            _ => return AuthorityOutcome::Refused(string_from_static("cert-rotation requires certificate key-states")),
        };
        let (pi, ni) = match (p.name.identity_of(), n.name.identity_of()) {
            (Some(a), Some(b)) => (a, b),
            _ => return AuthorityOutcome::Refused(string_from_static("certificate name has no KEY component")),
        };
        if !pi.same_as(&ni) {
            let a = pi.to_uri();
            let b = ni.to_uri();
            return AuthorityOutcome::Refused(arrow_message("rotation must stay in the same identity: ", a.as_str(), b.as_str()));
        }
        let (pk, nk) = match (p.name.key_name_of(), n.name.key_name_of()) {
            (Some(a), Some(b)) => (a, b),
            _ => return AuthorityOutcome::Refused(string_from_static("malformed key name")),
        };
        if pk.same_as(&nk) {
            return AuthorityOutcome::Refused(string_from_static("not a rotation: same key"));
        }
        let issuer = match &n.issuer {
            Some(i) => i,
            None => return AuthorityOutcome::Refused(string_from_static("new certificate is self-signed, not issued by the prior key")),
        };
        let issued_by_prior = match issuer.key_name_of() {
            Some(ik) => ik.same_as(&pk),
            None => false,
        };
        if !issued_by_prior {
            let u = issuer.to_uri();
            let mut m = string_from_static("new key not issued by the prior key (issuer ");
            push_text(&mut m, u.as_str());
            push_text(&mut m, ")");
            return AuthorityOutcome::Refused(m);
        }
        match (&n.signed_region, &n.sig_value) {
            (Some(region), Some(sig)) => continuity_outcome(
                verify_by_sig_type(n.sig_type, region.as_slice(), sig.as_slice(), p.public_key.as_slice()),
            ),
            _ => AuthorityOutcome::Refused(string_from_static("new certificate carries no signature")),
        }
    }
}

/// The verdict of [`DidDocumentRotation`] on two links.
pub open spec fn did_rotation(prior: IdentityProof, next: IdentityProof) -> OutcomeView {
    match link_refusal(prior, next, "rotation"@) {
        Some(m) => OutcomeView::Refused(m),
        None => match (prior.ed25519_key, next.ed25519_key) {
            (Some(pk), Some(nk)) => if pk == nk {
                OutcomeView::Refused("not a rotation: same key"@)
            } else {
                continuity(signature_verdict(next.sig_type, next.canonical_bytes@, next.sig_value@, pk@))
            },
            _ => OutcomeView::Refused("DID document has no Ed25519 verification method"@),
        },
    }
}

fn same_key(a: &[u8; 32], b: &[u8; 32]) -> (r: bool)
    ensures
        r == (*a == *b),
{
    let r = crate::name::bytes_eq(a.as_slice(), b.as_slice());
    proof {
        if r {
            assert(a@ =~= b@);
            assert forall|i: int| 0 <= i < 32 implies a[i] == b[i] by {
                assert(a@[i] == b@[i]);
            }
            assert(*a =~= *b);
        }
    }
    r
}

/// `did:ndn` rotation history: the next link keeps the DID subject, takes
/// the next sequence number, links back to its predecessor's content hash,
/// bears a new key, and is signed by the prior key.
#[derive(Debug, Clone, Copy, PartialEq, Eq, Default)]
pub struct DidDocumentRotation;

impl TransitionAuthority for DidDocumentRotation {
    open spec fn verdict(&self, prior: KeyState, next: KeyState, evidence: TransitionProof) -> OutcomeView {
        match (prior, next) {
            (KeyState::Did(p), KeyState::Did(n)) => did_rotation(p, n),
            _ => OutcomeView::Refused("did-rotation requires did:ndn key-states"@),
        }
    }

    fn method_id(&self) -> (r: &'static str)
        ensures
            r@ == "did-rotation"@,
    {
        "did-rotation"
    }

    fn authorizes(&self, prior: &KeyState, next: &KeyState, evidence: &TransitionProof) -> (r: AuthorityOutcome)
        ensures
            r@ == match (*prior, *next) {
                (KeyState::Did(p), KeyState::Did(n)) => did_rotation(p, n),
                _ => OutcomeView::Refused("did-rotation requires did:ndn key-states"@),
            },
    {
        let (p, n) = match (prior, next) {
            (KeyState::Did(p), KeyState::Did(n)) => (p, n),
            _ => return AuthorityOutcome::Refused(string_from_static("did-rotation requires did:ndn key-states")),
        };
        match link_check(p, n, "rotation") {
            Some(m) => return AuthorityOutcome::Refused(m),
            None => {},
        }
        let (pk, nk) = match (&p.ed25519_key, &n.ed25519_key) {
            (Some(a), Some(b)) => (a, b),
            _ => return AuthorityOutcome::Refused(string_from_static("DID document has no Ed25519 verification method")),
        };
        if same_key(pk, nk) {
            return AuthorityOutcome::Refused(string_from_static("not a rotation: same key"));
        }
        continuity_outcome(verify_by_sig_type(n.sig_type, n.canonical_bytes.as_slice(), n.sig_value.as_slice(), pk.as_slice()))
    }
}

/// A recovery signature as plain values.
pub open spec fn sig_views(s: Seq<RecoverySignature>) -> Seq<(usize, Seq<u8>)> {
    s.map_values(|x: RecoverySignature| (x.key_index, x.signature@))
}

/// The committed keys credited by the signatures `sigs` over `signed`, in
/// the order they are read: a key is credited once, by the first valid
/// signature that names it.
pub open spec fn credited(sigs: Seq<(usize, Seq<u8>)>, keys: Seq<[u8; 32]>, signed: Seq<u8>) -> Seq<bool>
    decreases sigs.len(),
{
    if sigs.len() == 0 {
        Seq::new(keys.len(), |i: int| false)
    } else {
        let c = credited(sigs.drop_last(), keys, signed);
        let s = sigs.last();
        if s.0 < keys.len() && !c[s.0 as int] && ed25519_accepts(keys[s.0 as int]@, signed, s.1) {
            c.update(s.0 as int, true)
        } else {
            c
        }
    }
}

/// The number of `true` entries.
pub open spec fn count_true(c: Seq<bool>) -> nat
    decreases c.len(),
{
    if c.len() == 0 {
        0
    } else {
        count_true(c.drop_last()) + if c.last() {
            1nat
        } else {
            0nat
        }
    }
}

/// Some signature in `sigs` names key `j` and verifies under it.
pub open spec fn has_valid_signature(sigs: Seq<(usize, Seq<u8>)>, keys: Seq<[u8; 32]>, signed: Seq<u8>, j: int) -> bool {
    exists|i: int| 0 <= i < sigs.len() && #[trigger] sigs[i].0 == j && ed25519_accepts(keys[j]@, signed, sigs[i].1)
}

/// A committed key is credited exactly when some recovery signature names it
/// and verifies under it; so the count is the number of distinct committed
/// keys with a valid signature, whatever the order or repetition of the
/// signatures.
pub proof fn lemma_credited_exactly(sigs: Seq<(usize, Seq<u8>)>, keys: Seq<[u8; 32]>, signed: Seq<u8>)
    ensures
        credited(sigs, keys, signed).len() == keys.len(),
        forall|j: int| 0 <= j < keys.len() ==> (#[trigger] credited(sigs, keys, signed)[j] <==> has_valid_signature(sigs, keys, signed, j)),
    decreases sigs.len(),
{
    if sigs.len() > 0 {
        let p = sigs.drop_last();
        lemma_credited_exactly(p, keys, signed);
        let c = credited(p, keys, signed);
        let s = sigs.last();
        assert forall|j: int| 0 <= j < keys.len() implies (#[trigger] credited(sigs, keys, signed)[j] <==> has_valid_signature(sigs, keys, signed, j)) by {
            if has_valid_signature(p, keys, signed, j) {
                let i = choose|i: int| 0 <= i < p.len() && #[trigger] p[i].0 == j && ed25519_accepts(keys[j]@, signed, p[i].1);
                assert(sigs[i] == p[i]);
            }
            if has_valid_signature(sigs, keys, signed, j) && !has_valid_signature(p, keys, signed, j) {
                let i = choose|i: int| 0 <= i < sigs.len() && #[trigger] sigs[i].0 == j && ed25519_accepts(keys[j]@, signed, sigs[i].1);
                if i < p.len() {
                    assert(p[i] == sigs[i]);
                }
                assert(i == sigs.len() - 1);
            }
            if s.0 == j && ed25519_accepts(keys[j]@, signed, s.1) {
                assert(sigs[sigs.len() - 1] == s);
            }
        }
    }
}

/// The count of `true` entries is at most the length.
pub proof fn lemma_count_true_bound(c: Seq<bool>)
    ensures
        count_true(c) <= c.len(),
    decreases c.len(),
{
    if c.len() > 0 {
        lemma_count_true_bound(c.drop_last());
    }
}

/// Count the distinct committed keys for which `recovery` carries a valid
/// signature over `signed`. Each committed key is credited at most once.
pub fn verify_any(recovery: &RecoveryProof, keys: &[[u8; 32]], signed: &[u8]) -> (r: usize)
    ensures
        r == count_true(credited(sig_views(recovery.signatures@), keys@, signed@)),
        r <= keys@.len(),
{
    let ghost sigs = sig_views(recovery.signatures@);
    let mut c: Vec<bool> = Vec::new();
    let mut k: usize = 0;
    while k < keys.len()
        invariant
            k <= keys@.len(),
            c@ =~= Seq::new(k as nat, |i: int| false),
        decreases keys@.len() - k,
    {
        c.push(false);
        k = k + 1;
    }
    proof {
        assert(sigs.take(0) =~= Seq::<(usize, Seq<u8>)>::empty());
        assert(c@ =~= credited(sigs.take(0), keys@, signed@));
    }
    let mut i: usize = 0;
    while i < recovery.signatures.len()
        invariant
            i <= recovery.signatures@.len(),
            sigs == sig_views(recovery.signatures@),
            c@ == credited(sigs.take(i as int), keys@, signed@),
            c@.len() == keys@.len(),
        decreases recovery.signatures@.len() - i,
    {
        let s = &recovery.signatures[i];
        proof {
            assert(sigs.take(i + 1).drop_last() =~= sigs.take(i as int));
            assert(sigs.take(i + 1).last() == (s.key_index, s.signature@));
        }
        let idx = s.key_index;
        if idx < keys.len() && !c[idx] {
            if ed25519_verify(keys[idx].as_slice(), signed, s.signature.as_slice()) {
                c.set(idx, true);
            }
        }
        i = i + 1;
    }
    proof {
        assert(sigs.take(i as int) =~= sigs);
        lemma_credited_exactly(sigs, keys@, signed@);
    }
    let mut n: usize = 0;
    let mut j: usize = 0;
    while j < c.len()
        invariant
            j <= c@.len(),
            c@.len() == keys@.len(),
            n == count_true(c@.take(j as int)),
            n <= j,
        decreases c@.len() - j,
    {
        proof {
            assert(c@.take(j + 1).drop_last() =~= c@.take(j as int));
        }
        if c[j] {
            n = n + 1;
        }
        j = j + 1;
    }
    proof {
        assert(c@.take(j as int) =~= c@);
    }
    n
}

/// The verdict of [`KeyRecovery`] on two links and a proof.
pub open spec fn key_recovery(prior: IdentityProof, next: IdentityProof, evidence: TransitionProof) -> OutcomeView {
    match evidence {
        TransitionProof::Intrinsic => OutcomeView::Refused("key-recovery needs a recovery proof, not the intrinsic signature"@),
        TransitionProof::Recovery(rec) => match link_refusal(prior, next, "recovery"@) {
            Some(m) => OutcomeView::Refused(m),
            None => match prior.recovery {
                None => OutcomeView::Refused("no recovery authority was pre-committed by the prior key-state"@),
                Some(commitment) => match (prior.ed25519_key, next.ed25519_key) {
                    (_, None) => OutcomeView::Refused("new DID document has no Ed25519 verification method"@),
                    (Some(p), Some(n)) if p == n => OutcomeView::Refused("not a recovery: same key"@),
                    _ => {
                        let sigs = sig_views(rec.signatures@);
                        let signed = next.canonical_bytes@;
                        match commitment {
                            RecoveryCommitment::Key(k) => if count_true(credited(sigs, seq![k], signed)) >= 1 {
                                OutcomeView::Authorized
                            } else {
                                OutcomeView::Refused("recovery signature does not verify under the committed key"@)
                            },
                            RecoveryCommitment::Quorum { keys, threshold } => {
                                let valid = count_true(credited(sigs, keys@, signed));
                                if valid >= threshold {
                                    OutcomeView::Authorized
                                } else {
                                    OutcomeView::Refused(
                                        "quorum not met: "@ + decimal_text(valid) + " of "@ + decimal_text(threshold as nat)
                                            + " required recovery signatures valid"@,
                                    )
                                }
                            },
                        }
                    },
                },
            },
        },
    }
}

/// Key recovery: a transition authorized not by the lost operational key but
/// by the recovery authority the prior key-state committed to. Continuity is
/// still proven as for a rotation link.
#[derive(Debug, Clone, Copy, PartialEq, Eq, Default)]
pub struct KeyRecovery;

impl TransitionAuthority for KeyRecovery {
    open spec fn verdict(&self, prior: KeyState, next: KeyState, evidence: TransitionProof) -> OutcomeView {
        match (prior, next) {
            (KeyState::Did(p), KeyState::Did(n)) => key_recovery(p, n, evidence),
            _ => OutcomeView::Refused("key-recovery requires did:ndn key-states"@),
        }
    }

    fn method_id(&self) -> (r: &'static str)
        ensures
            r@ == "key-recovery"@,
    {
        "key-recovery"
    }

    fn authorizes(&self, prior: &KeyState, next: &KeyState, evidence: &TransitionProof) -> (r: AuthorityOutcome)
        ensures
            r@ == match (*prior, *next) {
                (KeyState::Did(p), KeyState::Did(n)) => key_recovery(p, n, *evidence),
                _ => OutcomeView::Refused("key-recovery requires did:ndn key-states"@),
            },
    {
        let (p, n) = match (prior, next) {
            (KeyState::Did(p), KeyState::Did(n)) => (p, n),
            _ => return AuthorityOutcome::Refused(string_from_static("key-recovery requires did:ndn key-states")),
        };
        let recovery = match evidence {
            TransitionProof::Recovery(r) => r,
            TransitionProof::Intrinsic => return AuthorityOutcome::Refused(
                string_from_static("key-recovery needs a recovery proof, not the intrinsic signature"),
            ),
        };
        match link_check(p, n, "recovery") {
            Some(m) => return AuthorityOutcome::Refused(m),
            None => {},
        }
        let commitment = match &p.recovery {
            Some(c) => c,
            None => return AuthorityOutcome::Refused(
                string_from_static("no recovery authority was pre-committed by the prior key-state"),
            ),
        };
        match (&p.ed25519_key, &n.ed25519_key) {
            (_, None) => return AuthorityOutcome::Refused(string_from_static("new DID document has no Ed25519 verification method")),
            (Some(a), Some(b)) => {
                if same_key(a, b) {
                    return AuthorityOutcome::Refused(string_from_static("not a recovery: same key"));
                }
            },
            _ => {},
        }
        let signed = n.canonical_bytes.as_slice();
        match commitment {
            RecoveryCommitment::Key(k) => {
                let one = [*k];
                proof {
                    assert(one@ =~= seq![*k]);
                }
                if verify_any(recovery, &one, signed) >= 1 {
                    AuthorityOutcome::Authorized
                } else {
                    AuthorityOutcome::Refused(string_from_static("recovery signature does not verify under the committed key"))
                }
            },
            RecoveryCommitment::Quorum { keys, threshold } => {
                let valid = verify_any(recovery, keys.as_slice(), signed);
                if valid >= *threshold {
                    AuthorityOutcome::Authorized
                } else {
                    let a = u64_text(valid as u64);
                    let b = u64_text(*threshold as u64);
                    let mut m = string_from_static("quorum not met: ");
                    push_text(&mut m, a.as_str());
                    push_text(&mut m, " of ");
                    push_text(&mut m, b.as_str());
                    push_text(&mut m, " required recovery signatures valid");
                    AuthorityOutcome::Refused(m)
                }
            },
        }
    }
}

/// Why resolving a rotation chain failed.
#[derive(Debug, Clone, PartialEq, Eq)]
pub enum ChainError {
    /// The chain had no links.
    Empty,
    /// Link `index` was not authorized by its predecessor.
    BrokenLink { index: usize, outcome: AuthorityOutcome },
}

/// Every link before position `upto` (after the genesis) is authorized by
/// its predecessor with the intrinsic proof.
pub open spec fn links_authorized<A: TransitionAuthority>(authority: &A, chain: Seq<KeyState>, upto: int) -> bool {
    forall|j: int|
        1 <= j < upto ==> #[trigger] authority.verdict(chain[j - 1], chain[j], TransitionProof::Intrinsic) is Authorized
}

/// Verify an ordered rotation chain (genesis first) under `authority` and
/// return the head key-state. Each link after the genesis must be authorized
/// by its predecessor with the intrinsic proof; the genesis link is the
/// chain's trusted root.
pub fn resolve_chain<'a, A: TransitionAuthority>(authority: &A, chain: &'a [KeyState]) -> (r: Result<&'a KeyState, ChainError>)
    ensures
        chain@.len() == 0 <==> r == Err::<&KeyState, ChainError>(ChainError::Empty),
        r is Ok <==> chain@.len() > 0 && links_authorized(authority, chain@, chain@.len() as int),
        r matches Ok(h) ==> *h == chain@[chain@.len() - 1],
        r matches Err(ChainError::BrokenLink { index, outcome }) ==> {
            &&& 1 <= index < chain@.len()
            &&& outcome@ == authority.verdict(chain@[index - 1], chain@[index as int], TransitionProof::Intrinsic)
            &&& !(outcome is Authorized)
            &&& links_authorized(authority, chain@, index as int)
        },
{
    if chain.len() == 0 {
        return Err(ChainError::Empty);
    }
    let mut index: usize = 1;
    while index < chain.len()
        invariant
            1 <= index <= chain@.len(),
            links_authorized(authority, chain@, index as int),
        decreases chain@.len() - index,
    {
        let outcome = authority.authorizes(&chain[index - 1], &chain[index], &TransitionProof::Intrinsic);
        match outcome {
            AuthorityOutcome::Authorized => {},
            _ => return Err(ChainError::BrokenLink { index, outcome }),
        }
        index = index + 1;
    }
    Ok(&chain[chain.len() - 1])
}

} // verus!
