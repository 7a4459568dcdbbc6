//! The NDNCERT certificate authority: its table of requests in flight, and
//! the decisions of the PROBE, NEW and CHALLENGE steps.
//!
//! The steps alternate with work this crate does not do (decrypting and
//! sealing the AES-GCM envelopes, running a challenge handler, signing the
//! certificate). Each decision is a method here; the caller performs the
//! work in between and hands the result to the next method.

use vstd::prelude::*;

use dashmap::{DashMap, DashSet};

use crate::attestation::{AttestationSet, ChallengeAttestation, Combinator};
use crate::challenge::{ChallengeOutcome, ChallengeState};
use crate::name::{ComponentView, Name};
use crate::name_uri::{spec_uri_text, uri_parse};
use crate::ndncert::{
    AcceptAllIssuance, CertError, CertRequest, DecisionView, IssuanceContext, IssuanceDecision, IssuancePolicy,
    IssuanceView, NamespacePolicy, PolicyDecision,
};
use crate::text::{concat3, push_text, string_from_static, utf8_bytes};
use crate::tlv::{tlv_encode, write_tlv};
use crate::crypto::{ed25519_accepts, ed25519_verify};

verus! {

#[verifier::external_type_specification]
#[verifier::external_body]
#[verifier::reject_recursive_types(K)]
#[verifier::reject_recursive_types(V)]
#[verifier::reject_recursive_types(S)]
pub struct ExDashMap<K, V, S>(DashMap<K, V, S>);

#[verifier::external_type_specification]
#[verifier::external_body]
#[verifier::reject_recursive_types(K)]
#[verifier::reject_recursive_types(S)]
pub struct ExDashSet<K, S>(DashSet<K, S>);

/// NDN-TLV type of a `Data` packet.
pub const TLV_DATA: u64 = 6;

/// NDN-TLV type of `SignatureValue`.
pub const TLV_SIGNATURE_VALUE: u64 = 23;

/// Challenge status: another round is needed.
pub const STATUS_PENDING: u8 = 2;

/// Challenge status: the certificate was issued.
pub const STATUS_SUCCESS: u8 = 3;

/// Challenge status: the request failed.
pub const STATUS_FAILURE: u8 = 4;

/// Error code for a failed challenge (NDNCERT `OutOfTries`).
pub const ERROR_OUT_OF_TRIES: u8 = 7;

/// How long a NEW request waits for its first CHALLENGE, in seconds.
pub const NEW_REQUEST_TTL_SECS: u64 = 60;

/// A certificate as far as the CA reads one.
#[derive(Debug, Clone, PartialEq, Eq)]
pub struct Certificate {
    pub name: Name,
    /// The key named by the `KeyLocator`; `None` for a self-signed
    /// certificate.
    pub issuer: Option<Name>,
    pub public_key: Vec<u8>,
    /// Validity, nanoseconds since the epoch.
    pub valid_from: u64,
    pub valid_until: u64,
    /// The signed portion of the `Data` wire encoding, when known.
    pub signed_region: Option<Vec<u8>>,
    /// The `SignatureValue` bytes, when known.
    pub sig_value: Option<Vec<u8>>,
    /// The `SignatureType` code.
    pub sig_type: u64,
}

impl Certificate {
    /// A copy of this certificate, field by field.
    pub fn copy(&self) -> (r: Certificate)
        ensures
            r.name@ == self.name@,
            r.issuer is Some == self.issuer is Some,
            r.issuer is Some ==> r.issuer.unwrap()@ == self.issuer.unwrap()@,
            r.public_key@ == self.public_key@,
            r.valid_from == self.valid_from,
            r.valid_until == self.valid_until,
            r.signed_region is Some == self.signed_region is Some,
            r.signed_region is Some ==> r.signed_region.unwrap()@ == self.signed_region.unwrap()@,
            r.sig_value is Some == self.sig_value is Some,
            r.sig_value is Some ==> r.sig_value.unwrap()@ == self.sig_value.unwrap()@,
            r.sig_type == self.sig_type,
    {
        let issuer = match &self.issuer {
            Some(n) => Some(n.copy()),
            None => None,
        };
        let signed_region = match &self.signed_region {
            Some(v) => Some(crate::name::copy_bytes(v)),
            None => None,
        };
        let sig_value = match &self.sig_value {
            Some(v) => Some(crate::name::copy_bytes(v)),
            None => None,
        };
        Certificate {
            name: self.name.copy(),
            issuer,
            public_key: crate::name::copy_bytes(&self.public_key),
            valid_from: self.valid_from,
            valid_until: self.valid_until,
            signed_region,
            sig_value,
            sig_type: self.sig_type,
        }
    }
}

/// The `Data` wire encoding of a certificate: its signed region followed by
/// its `SignatureValue`; empty when either is unknown.
pub open spec fn cert_wire(signed_region: Option<Seq<u8>>, sig_value: Option<Seq<u8>>) -> Seq<u8> {
    match (signed_region, sig_value) {
        (Some(region), Some(sig)) => tlv_encode(TLV_DATA, region + tlv_encode(TLV_SIGNATURE_VALUE, sig)),
        _ => Seq::empty(),
    }
}

/// Encode an issued certificate as an NDN `Data` TLV (Certificate Format
/// v2): empty when the certificate lacks its wire parts.
pub fn serialize_cert(cert: &Certificate) -> (r: Vec<u8>)
    ensures
        r@ == cert_wire(
            match cert.signed_region {
                Some(v) => Some(v@),
                None => None,
            },
            match cert.sig_value {
                Some(v) => Some(v@),
                None => None,
            },
        ),
{
    match (&cert.signed_region, &cert.sig_value) {
        (Some(region), Some(sig)) => {
            let mut inner: Vec<u8> = Vec::new();
            crate::tlv::append_bytes(&mut inner, region.as_slice());
            write_tlv(&mut inner, TLV_SIGNATURE_VALUE, sig.as_slice());
            let mut out: Vec<u8> = Vec::new();
            write_tlv(&mut out, TLV_DATA, inner.as_slice());
            proof {
                assert(inner@ =~= region@ + tlv_encode(TLV_SIGNATURE_VALUE, sig@));
                assert(out@ =~= tlv_encode(TLV_DATA, inner@));
            }
            out
        },
        _ => Vec::new(),
    }
}

/// The lower-case hex text of an 8-byte request id.
pub fn bytes_to_hex(bytes: &[u8; 8]) -> (r: String)
    ensures
        r@ == crate::text::ascii_chars(crate::challenge::hex_bytes(bytes@)),
{
    crate::challenge::hex_encode(bytes.as_slice())
}

/// The CA's configuration.
pub struct CaConfig<P: NamespacePolicy, I: IssuancePolicy> {
    pub prefix: Name,
    pub info: String,
    /// Validity, in milliseconds.
    pub default_validity_ms: u64,
    pub max_validity_ms: u64,
    /// The challenge types offered, in the order of their handlers.
    pub challenges: Vec<String>,
    /// The pre-challenge gate.
    pub policy: P,
    /// The post-challenge gate (the last stage before signing).
    pub issuance: I,
    /// Embed the attestation set of the satisfied challenge in each issued
    /// certificate's `AdditionalDescription`.
    pub emit_attestations: bool,
}

impl<P: NamespacePolicy> CaConfig<P, AcceptAllIssuance> {
    /// Issuance defaults to [`AcceptAllIssuance`]; no attestations.
    pub fn new(
        prefix: Name,
        info: String,
        default_validity_ms: u64,
        max_validity_ms: u64,
        challenges: Vec<String>,
        policy: P,
    ) -> (r: CaConfig<P, AcceptAllIssuance>)
        ensures
            r.prefix == prefix,
            r.info == info,
            r.default_validity_ms == default_validity_ms,
            r.max_validity_ms == max_validity_ms,
            r.challenges == challenges,
            r.policy == policy,
            !r.emit_attestations,
    {
        CaConfig {
            prefix,
            info,
            default_validity_ms,
            max_validity_ms,
            challenges,
            policy,
            issuance: AcceptAllIssuance,
            emit_attestations: false,
        }
    }
}

impl<P: NamespacePolicy, I: IssuancePolicy> CaConfig<P, I> {
    /// Enable embedding challenge attestations in issued certificates.
    pub fn emit_attestations(self, yes: bool) -> (r: CaConfig<P, I>)
        ensures
            r.prefix == self.prefix,
            r.info == self.info,
            r.default_validity_ms == self.default_validity_ms,
            r.max_validity_ms == self.max_validity_ms,
            r.challenges == self.challenges,
            r.policy == self.policy,
            r.issuance == self.issuance,
            r.emit_attestations == yes,
    {
        CaConfig { emit_attestations: yes, ..self }
    }
}

/// A request between NEW and the end of its challenge.
#[derive(Debug, Clone, PartialEq, Eq)]
pub struct PendingRequest {
    pub cert_request: CertRequest,
    pub challenge_state: Option<ChallengeState>,
    /// The challenge type the request is locked to after its first round.
    pub challenge_type: Option<String>,
    /// Seconds since the epoch.
    pub created_at: u64,
    /// The AES-GCM session key derived at NEW.
    pub session_key: Vec<u8>,
    pub request_id_bytes: [u8; 8],
    pub encryption_iv: [u8; 12],
    pub decryption_iv: Option<[u8; 12]>,
}

/// The table of requests in flight, by request id.
pub type PendingTable = DashMap<String, PendingRequest>;

/// The issued certificates, by name.
pub type ServedTable = DashMap<String, Vec<u8>>;

/// What the table of requests in flight holds, by request id.
pub uninterp spec fn pending_entries(m: DashMap<String, PendingRequest>) -> Map<Seq<char>, PendingRequest>;

/// The names of the revoked certificates.
pub uninterp spec fn revoked_names(s: DashSet<String>) -> Set<Seq<char>>;

/// The issued certificates served on the cert-fetch Interest, by name.
pub uninterp spec fn served_entries(m: DashMap<String, Vec<u8>>) -> Map<Seq<char>, Seq<u8>>;

/// `DashMap::new` for the request table: empty.
#[verifier::external_body]
fn pending_table() -> (r: PendingTable)
    ensures
        pending_entries(r).dom() == Set::<Seq<char>>::empty(),
{
    DashMap::new()
}

/// `DashMap::insert`: the entry for `k` becomes `v`.
#[verifier::external_body]
fn pending_insert(m: &mut DashMap<String, PendingRequest>, k: String, v: PendingRequest)
    ensures
        pending_entries(*final(m)) == pending_entries(*old(m)).insert(k@, v),
{
    m.insert(k, v);
}

/// `DashMap::get`, the entry copied out.
#[verifier::external_body]
fn pending_get(m: &DashMap<String, PendingRequest>, k: &str) -> (r: Option<PendingRequest>)
    ensures
        r == (if pending_entries(*m).dom().contains(k@) {
            Some(pending_entries(*m)[k@])
        } else {
            None
        }),
{
    m.get(k).map(|e| e.value().clone())
}

/// `DashMap::remove`: the entry for `k` leaves, and is handed back.
#[verifier::external_body]
fn pending_remove(m: &mut DashMap<String, PendingRequest>, k: &str) -> (r: Option<PendingRequest>)
    ensures
        pending_entries(*final(m)) == pending_entries(*old(m)).remove(k@),
        r == (if pending_entries(*old(m)).dom().contains(k@) {
            Some(pending_entries(*old(m))[k@])
        } else {
            None
        }),
{
    m.remove(k).map(|e| e.1)
}

/// Whether a request created at `created_at` is still within `cutoff`.
pub fn still_pending(v: &PendingRequest, cutoff: u64) -> (r: bool)
    ensures
        r == (v.created_at >= cutoff),
{
    v.created_at >= cutoff
}

/// The entries created at or after `cutoff`.
pub open spec fn fresh_entries(m: Map<Seq<char>, PendingRequest>, cutoff: u64) -> Map<Seq<char>, PendingRequest> {
    Map::new(|k: Seq<char>| m.dom().contains(k) && m[k].created_at >= cutoff, |k: Seq<char>| m[k])
}

/// `DashMap::retain` with the entries created at or after `cutoff` kept.
#[verifier::external_body]
fn pending_retain_fresh(m: &mut DashMap<String, PendingRequest>, cutoff: u64)
    ensures
        pending_entries(*final(m)) == fresh_entries(pending_entries(*old(m)), cutoff),
{
    m.retain(|_, v| still_pending(v, cutoff));
}

/// `DashSet::new`: empty.
#[verifier::external_body]
fn revoked_set() -> (r: DashSet<String>)
    ensures
        revoked_names(r) == Set::<Seq<char>>::empty(),
{
    DashSet::new()
}

/// `DashSet::insert`.
#[verifier::external_body]
fn revoked_insert(s: &mut DashSet<String>, k: String)
    ensures
        revoked_names(*final(s)) == revoked_names(*old(s)).insert(k@),
{
    s.insert(k);
}

/// `DashSet::contains`.
#[verifier::external_body]
fn revoked_contains(s: &DashSet<String>, k: &str) -> (r: bool)
    ensures
        r == revoked_names(*s).contains(k@),
{
    s.contains(k)
}

/// `DashMap::new` for the served certificates: empty.
#[verifier::external_body]
fn served_table() -> (r: ServedTable)
    ensures
        served_entries(r).dom() == Set::<Seq<char>>::empty(),
{
    DashMap::new()
}

/// `DashMap::insert` for the served certificates.
#[verifier::external_body]
fn served_insert(m: &mut DashMap<String, Vec<u8>>, k: String, v: Vec<u8>)
    ensures
        served_entries(*final(m)) == served_entries(*old(m)).insert(k@, v@),
{
    m.insert(k, v);
}

/// `DashMap::get` for the served certificates, the bytes copied out.
#[verifier::external_body]
fn served_get(m: &DashMap<String, Vec<u8>>, k: &str) -> (r: Option<Vec<u8>>)
    ensures
        match r {
            Some(v) => served_entries(*m).dom().contains(k@) && v@ == served_entries(*m)[k@],
            None => !served_entries(*m).dom().contains(k@),
        },
{
    m.get(k).map(|e| e.value().clone())
}

/// The answer to PROBE.
#[derive(Debug, Clone, PartialEq, Eq)]
pub struct ProbeResponse {
    pub allowed: bool,
    pub reason: Option<String>,
    pub max_suffix_length: Option<u64>,
}

/// The answer to NEW, before the CA's ECDH key and salt are added.
#[derive(Debug, Clone, PartialEq, Eq)]
pub struct NewResponse {
    pub request_id: [u8; 8],
    pub challenges: Vec<String>,
}

/// The answer to one CHALLENGE round, before it is sealed.
#[derive(Debug, Clone, PartialEq, Eq)]
pub struct ChallengeResponse {
    pub status: u8,
    pub challenge_status: Option<String>,
    pub remaining_tries: Option<u8>,
    pub remaining_time_secs: Option<u32>,
    pub issued_cert_name: Option<String>,
    pub error_code: Option<u8>,
    pub error_info: Option<String>,
}

/// A failed round, with the reason.
pub open spec fn is_failure(r: ChallengeResponse, reason: Seq<char>) -> bool {
    &&& r.status == STATUS_FAILURE
    &&& r.challenge_status is None
    &&& r.remaining_tries is None
    &&& r.remaining_time_secs is None
    &&& r.issued_cert_name is None
    &&& r.error_code == Some(ERROR_OUT_OF_TRIES)
    &&& r.error_info matches Some(m) && m@ == reason
}

/// The failure response carrying `reason`.
pub open spec fn failure_response(reason: String) -> ChallengeResponse {
    ChallengeResponse {
        status: STATUS_FAILURE,
        challenge_status: None,
        remaining_tries: None,
        remaining_time_secs: None,
        issued_cert_name: None,
        error_code: Some(ERROR_OUT_OF_TRIES),
        error_info: Some(reason),
    }
}

fn failure(reason: String) -> (r: ChallengeResponse)
    ensures
        is_failure(r, reason@),
        r == failure_response(reason),
{
    ChallengeResponse {
        status: STATUS_FAILURE,
        challenge_status: None,
        remaining_tries: None,
        remaining_time_secs: None,
        issued_cert_name: None,
        error_code: Some(ERROR_OUT_OF_TRIES),
        error_info: Some(reason),
    }
}

/// What a CHALLENGE round does before the handler checks its parameters.
pub enum ChallengeStep {
    /// The request's first round: begin the handler on this request, then
    /// record the state it began with by [`CaState::record_begun`].
    Begin(CertRequest),
    /// A later round: check the parameters against the recorded state.
    Resume(ChallengeState),
}

/// The step a round of `pending` takes: it resumes from the recorded state
/// when there is one, and begins the challenge otherwise.
pub open spec fn step_for(pending: PendingRequest) -> ChallengeStep {
    match pending.challenge_state {
        Some(s) => ChallengeStep::Resume(s),
        None => ChallengeStep::Begin(pending.cert_request),
    }
}

/// What follows a round whose outcome is known.
pub enum Conclusion {
    /// Seal and send this response.
    Respond(ChallengeResponse),
    /// The challenge is satisfied and the issuance gate let it through: sign
    /// a certificate for `cert_request` valid for `validity_ms` (clamped
    /// before signing), embedding `attestation` when it is there, then
    /// record it with [`CaState::record_issued`].
    Issue { cert_request: CertRequest, validity_ms: u64, attestation: Option<AttestationSet>, encryption_iv: [u8; 12] },
}

/// What the NEW step makes of the namespace gate's decision `d` on the key
/// name `key_name` of the request certificate `cert`, with `n_challenges`
/// challenge handlers configured.
pub open spec fn admission(
    d: DecisionView,
    key_name: Seq<ComponentView>,
    cert: Certificate,
    n_challenges: nat,
    r: Result<CertRequest, CertError>,
) -> bool {
    match d {
        DecisionView::Deny(m) => r matches Err(CertError::PolicyDenied(x)) && x@ == m,
        DecisionView::Allow => if n_challenges == 0 {
            r matches Err(CertError::InvalidRequest(m)) && m@ == "CA has no challenge handlers"@
        } else {
            r matches Ok(req) && req.name@ == spec_uri_text(key_name) && req.public_key@ == crate::b64::b64url_encoding(
                cert.public_key@,
            ) && req.not_before == cert.valid_from / 1_000_000 && req.not_after == cert.valid_until / 1_000_000
        },
    }
}

/// The attestation set an approved round carries to the issuance gate: the
/// handler's own, or a single bare leaf of the challenge `kind`, stamped at
/// `now` where not stamped yet.
pub open spec fn approved_set(attestation: Option<AttestationSet>, kind: Seq<char>, now: u64, set: AttestationSet) -> bool {
    match attestation {
        Some(a) => {
            &&& set.combinator == a.combinator
            &&& set.leaves@.len() == a.leaves@.len()
            &&& forall|i: int| 0 <= i < a.leaves@.len() ==> {
                let o = #[trigger] a.leaves@[i];
                let n = set.leaves@[i];
                &&& n.kind == o.kind
                &&& n.handler_name == o.handler_name
                &&& n.handler_version == o.handler_version
                &&& n.evidence == o.evidence
                &&& n.signature == o.signature
                &&& n.performed_at == if o.performed_at == 0 {
                    now
                } else {
                    o.performed_at
                }
            }
        },
        None => {
            &&& set.combinator == Combinator::Single
            &&& set.leaves@.len() == 1
            &&& set.leaves@[0].kind@ == kind
            &&& set.leaves@[0].performed_at == now
            &&& set.leaves@[0].handler_name is None
            &&& set.leaves@[0].handler_version is None
            &&& set.leaves@[0].evidence@.len() == 0
            &&& set.leaves@[0].signature is None
        },
    }
}

/// What an approved round concludes from the issuance gate's decision `d`
/// on request `p` with attestation set `set`: a certificate to issue, or a
/// failure that carries the denial's reason.
pub open spec fn issuance_concludes(d: IssuanceView, p: PendingRequest, set: AttestationSet, emit: bool, c: Conclusion) -> bool {
    match d {
        IssuanceView::Issue(validity_ms) => c == (Conclusion::Issue {
            cert_request: p.cert_request,
            validity_ms,
            attestation: if emit {
                Some(set)
            } else {
                None
            },
            encryption_iv: p.encryption_iv,
        }),
        IssuanceView::Deny(m) => c matches Conclusion::Respond(resp) && is_failure(resp, m),
    }
}

/// NEW: the request that the namespace policy's decision admits. A denial
/// is refused with its reason. An allowed request is refused when no
/// challenge type is configured; otherwise it names `key_name` and carries
/// the certificate's key and validity period (in seconds).
pub fn admit_request(decision: PolicyDecision, key_name: &Name, client_cert: &Certificate, n_challenges: usize) -> (r: Result<
    CertRequest,
    CertError,
>)
    ensures
        admission(decision@, key_name@, *client_cert, n_challenges as nat, r),
{
    match decision {
        PolicyDecision::Allow => {},
        PolicyDecision::Deny(reason) => return Err(CertError::PolicyDenied(reason)),
    }
    if n_challenges == 0 {
        return Err(CertError::InvalidRequest(string_from_static("CA has no challenge handlers")));
    }
    let public_key = crate::b64::b64url_encode(client_cert.public_key.as_slice());
    Ok(
        CertRequest {
            name: key_name.to_uri(),
            public_key,
            not_before: client_cert.valid_from / 1_000_000,
            not_after: client_cert.valid_until / 1_000_000,
        },
    )
}

/// CHALLENGE: what the issuance gate's decision makes of an approved
/// request. `Issue` asks for a certificate of that validity for the
/// request, with the attestation set when attestations are emitted; `Deny`
/// answers with a failure that carries the reason given.
pub fn answer_issuance(decision: IssuanceDecision, pending: PendingRequest, set: AttestationSet, emit: bool) -> (r: Conclusion)
    ensures
        issuance_concludes(decision@, pending, set, emit, r),
{
    match decision {
        IssuanceDecision::Issue { validity_ms } => {
            let attestation = if emit {
                Some(set)
            } else {
                None
            };
            Conclusion::Issue {
                cert_request: pending.cert_request,
                validity_ms,
                attestation,
                encryption_iv: pending.encryption_iv,
            }
        },
        IssuanceDecision::Deny(reason) => Conclusion::Respond(failure(reason)),
    }
}

/// The CA's state: its configuration and the tables it keeps.
pub struct CaState<P: NamespacePolicy, I: IssuancePolicy> {
    pub config: CaConfig<P, I>,
    pub pending: PendingTable,
    pub revoked: DashSet<String>,
    /// Issued certificate wire bytes, served on the cert-fetch Interest.
    pub served_certs: ServedTable,
}

/// The key name of a certificate request's name
/// (`<identity>/KEY/<key-id>/cert-request/<version>`): the name without its
/// last two components, or the whole name when it is shorter.
pub open spec fn request_key_name(n: Seq<ComponentView>) -> Seq<ComponentView> {
    if n.len() >= 2 {
        n.subrange(0, n.len() - 2)
    } else {
        n
    }
}

/// The index of the first handler of type `t`.
pub open spec fn handler_index(types: Seq<Seq<char>>, t: Seq<char>) -> Option<int>
    decreases types.len(),
{
    if types.len() == 0 {
        None
    } else if types[0] == t {
        Some(0)
    } else {
        match handler_index(types.drop_first(), t) {
            Some(i) => Some(i + 1),
            None => None,
        }
    }
}

proof fn lemma_handler_index(types: Seq<Seq<char>>, t: Seq<char>)
    ensures
        handler_index(types, t) matches Some(i) ==> 0 <= i < types.len() && types[i] == t,
    decreases types.len(),
{
    if types.len() > 0 {
        lemma_handler_index(types.drop_first(), t);
        if let Some(i) = handler_index(types.drop_first(), t) {
            assert(types.drop_first()[i] == types[i + 1]);
        }
    }
}

/// The challenge types as text.
pub open spec fn type_texts(v: Seq<String>) -> Seq<Seq<char>> {
    v.map_values(|s: String| s@)
}

impl<P: NamespacePolicy, I: IssuancePolicy> CaState<P, I> {
    /// The requests in flight.
    pub closed spec fn pending_view(&self) -> Map<Seq<char>, PendingRequest> {
        pending_entries(self.pending)
    }

    /// The revoked certificate names.
    pub closed spec fn revoked_view(&self) -> Set<Seq<char>> {
        revoked_names(self.revoked)
    }

    /// The served certificates.
    pub closed spec fn served_view(&self) -> Map<Seq<char>, Seq<u8>> {
        served_entries(self.served_certs)
    }

    /// No request in flight, nothing revoked, nothing served.
    pub fn new(config: CaConfig<P, I>) -> (r: CaState<P, I>)
        ensures
            r.config == config,
            r.pending_view() == Map::<Seq<char>, PendingRequest>::empty(),
            r.revoked_view() == Set::<Seq<char>>::empty(),
            r.served_view() == Map::<Seq<char>, Seq<u8>>::empty(),
    {
        let pending = pending_table();
        let served_certs = served_table();
        proof {
            assert(pending_entries(pending) =~= Map::empty());
            assert(served_entries(served_certs) =~= Map::empty());
        }
        CaState { config, pending, revoked: revoked_set(), served_certs }
    }

    /// Drop the requests created more than `ttl_secs` before `now`.
    pub fn cleanup_expired_at(&mut self, ttl_secs: u64, now: u64)
        ensures
            final(self).pending_view() == fresh_entries(old(self).pending_view(), now.saturating_sub(ttl_secs)),
            final(self).revoked_view() == old(self).revoked_view(),
            final(self).served_view() == old(self).served_view(),
            final(self).config == old(self).config,
    {
        let cutoff = now.saturating_sub(ttl_secs);
        pending_retain_fresh(&mut self.pending, cutoff);
    }

    /// Drop the requests created more than `ttl_secs` ago.
    pub fn cleanup_expired(&mut self, ttl_secs: u64)
        ensures
            exists|now: u64| final(self).pending_view() == #[trigger] fresh_entries(old(self).pending_view(), now.saturating_sub(ttl_secs)),
            final(self).revoked_view() == old(self).revoked_view(),
            final(self).served_view() == old(self).served_view(),
            final(self).config == old(self).config,
    {
        let now = crate::clock::now_secs();
        self.cleanup_expired_at(ttl_secs, now);
    }

    pub fn is_revoked(&self, cert_name: &str) -> (r: bool)
        ensures
            r == self.revoked_view().contains(cert_name@),
    {
        revoked_contains(&self.revoked, cert_name)
    }

    /// Record a certificate as revoked.
    pub fn revoke(&mut self, cert_name: String)
        ensures
            final(self).revoked_view() == old(self).revoked_view().insert(cert_name@),
            final(self).pending_view() == old(self).pending_view(),
            final(self).served_view() == old(self).served_view(),
            final(self).config == old(self).config,
    {
        revoked_insert(&mut self.revoked, cert_name);
    }

    pub fn get_served_cert(&self, cert_name: &str) -> (r: Option<Vec<u8>>)
        ensures
            match r {
                Some(v) => self.served_view().dom().contains(cert_name@) && v@ == self.served_view()[cert_name@],
                None => !self.served_view().dom().contains(cert_name@),
            },
    {
        served_get(&self.served_certs, cert_name)
    }

    /// `/<ca-prefix>/CA/PROBE`: the namespace gate, no state created.
    pub fn handle_probe(&self, requested_name: &str) -> (r: ProbeResponse)
        ensures
            r.max_suffix_length is None,
            uri_parse(utf8_bytes(requested_name@)) is None ==> (!r.allowed && (r.reason matches Some(m) && m@ == "invalid NDN name: "@ + requested_name@)),
            uri_parse(utf8_bytes(requested_name@)) is Some ==> (r.allowed <==> r.reason is None),
    {
        match Name::from_uri(requested_name) {
            None => {
                let mut m = string_from_static("invalid NDN name: ");
                push_text(&mut m, requested_name);
                ProbeResponse { allowed: false, reason: Some(m), max_suffix_length: None }
            },
            Some(name) => probe_response(self.config.policy.evaluate(&name, None, &self.config.prefix)),
        }
    }

    /// NEW, first half: drop stale requests, recover the key name from the
    /// self-signed request certificate, and pass it through the namespace
    /// gate. On success the caller derives the session key and completes the
    /// request with [`CaState::open_request`].
    pub fn new_request_at(&mut self, client_cert: &Certificate, now: u64) -> (r: Result<CertRequest, CertError>)
        ensures
            final(self).pending_view() == fresh_entries(old(self).pending_view(), now.saturating_sub(NEW_REQUEST_TTL_SECS)),
            final(self).revoked_view() == old(self).revoked_view(),
            final(self).served_view() == old(self).served_view(),
            final(self).config == old(self).config,
            admission(
                old(self).config.policy.decision(request_key_name(client_cert.name@), None, old(self).config.prefix@),
                request_key_name(client_cert.name@),
                *client_cert,
                old(self).config.challenges@.len(),
                r,
            ),
    {
        self.cleanup_expired_at(NEW_REQUEST_TTL_SECS, now);
        let n = client_cert.name.len();
        let key_name = if n >= 2 {
            client_cert.name.prefix(n - 2)
        } else {
            client_cert.name.copy()
        };
        let decision = self.config.policy.evaluate(&key_name, None, &self.config.prefix);
        let r = admit_request(decision, &key_name, client_cert, self.config.challenges.len());
        proof {
            assert(admission(decision@, request_key_name(client_cert.name@), *client_cert, old(self).config.challenges@.len(), r));
        }
        r
    }

    /// NEW, both halves at time `now`: admit the request of `client_cert`
    /// and, when admitted, record it under `request_id_bytes` with the
    /// session key and IV the caller derived.
    pub fn handle_new_at(
        &mut self,
        client_cert: &Certificate,
        now: u64,
        request_id_bytes: [u8; 8],
        session_key: Vec<u8>,
        encryption_iv: [u8; 12],
    ) -> (r: Result<NewResponse, CertError>)
        ensures
            final(self).revoked_view() == old(self).revoked_view(),
            final(self).served_view() == old(self).served_view(),
            final(self).config == old(self).config,
            exists|a: Result<CertRequest, CertError>| {
                &&& #[trigger] admission(
                    old(self).config.policy.decision(request_key_name(client_cert.name@), None, old(self).config.prefix@),
                    request_key_name(client_cert.name@),
                    *client_cert,
                    old(self).config.challenges@.len(),
                    a,
                )
                &&& match a {
                    Err(e) => r == Err::<NewResponse, CertError>(e) && final(self).pending_view() == fresh_entries(
                        old(self).pending_view(),
                        now.saturating_sub(NEW_REQUEST_TTL_SECS),
                    ),
                    Ok(req) => r matches Ok(resp) && resp.request_id == request_id_bytes && type_texts(resp.challenges@)
                        == type_texts(old(self).config.challenges@) && final(self).pending_view() == fresh_entries(
                        old(self).pending_view(),
                        now.saturating_sub(NEW_REQUEST_TTL_SECS),
                    ).insert(
                        crate::text::ascii_chars(crate::challenge::hex_bytes(request_id_bytes@)),
                        PendingRequest {
                            cert_request: req,
                            challenge_state: None,
                            challenge_type: None,
                            created_at: now,
                            session_key,
                            request_id_bytes,
                            encryption_iv,
                            decryption_iv: None,
                        },
                    ),
                }
            },
    {
        let a = self.new_request_at(client_cert, now);
        match a {
            Err(e) => Err(e),
            Ok(req) => {
                let ghost greq = req;
                let resp = self.open_request(req, request_id_bytes, session_key, encryption_iv, now);
                proof {
                    assert(a == Ok::<CertRequest, CertError>(greq));
                }
                Ok(resp)
            },
        }
    }

    /// NEW, second half: record the request under the hex of its id and
    /// answer with the id and the challenge types offered.
    pub fn open_request(
        &mut self,
        cert_request: CertRequest,
        request_id_bytes: [u8; 8],
        session_key: Vec<u8>,
        encryption_iv: [u8; 12],
        now: u64,
    ) -> (r: NewResponse)
        ensures
            final(self).pending_view() == old(self).pending_view().insert(
                crate::text::ascii_chars(crate::challenge::hex_bytes(request_id_bytes@)),
                PendingRequest {
                    cert_request,
                    challenge_state: None,
                    challenge_type: None,
                    created_at: now,
                    session_key,
                    request_id_bytes,
                    encryption_iv,
                    decryption_iv: None,
                },
            ),
            final(self).revoked_view() == old(self).revoked_view(),
            final(self).served_view() == old(self).served_view(),
            final(self).config == old(self).config,
            r.request_id == request_id_bytes,
            type_texts(r.challenges@) == type_texts(old(self).config.challenges@),
    {
        let id = bytes_to_hex(&request_id_bytes);
        let entry = PendingRequest {
            cert_request,
            challenge_state: None,
            challenge_type: None,
            created_at: now,
            session_key,
            request_id_bytes,
            encryption_iv,
            decryption_iv: None,
        };
        pending_insert(&mut self.pending, id, entry);
        NewResponse { request_id: request_id_bytes, challenges: self.challenge_types() }
    }

    /// The challenge types offered, in order.
    pub fn challenge_types(&self) -> (r: Vec<String>)
        ensures
            type_texts(r@) == type_texts(self.config.challenges@),
    {
        let mut out: Vec<String> = Vec::new();
        let mut i: usize = 0;
        while i < self.config.challenges.len()
            invariant
                i <= self.config.challenges@.len(),
                type_texts(out@) =~= type_texts(self.config.challenges@.take(i as int)),
            decreases self.config.challenges@.len() - i,
        {
            proof {
                assert(self.config.challenges@.take(i + 1) =~= self.config.challenges@.take(i as int).push(self.config.challenges@[i as int]));
            }
            let ghost before = out@;
            let c = self.config.challenges[i].clone();
            out.push(c);
            proof {
                assert(type_texts(out@) =~= type_texts(before).push(self.config.challenges@[i as int]@));
                assert(type_texts(self.config.challenges@.take(i + 1)) =~= type_texts(self.config.challenges@.take(i as int)).push(self.config.challenges@[i as int]@));
            }
            i = i + 1;
        }
        proof {
            assert(self.config.challenges@.take(i as int) =~= self.config.challenges@);
        }
        out
    }

    /// CHALLENGE, first step: the request in flight under `request_id`.
    pub fn pending_session(&self, request_id: &str) -> (r: Result<PendingRequest, CertError>)
        ensures
            match r {
                Ok(p) => self.pending_view().dom().contains(request_id@) && p == self.pending_view()[request_id@],
                Err(e) => !self.pending_view().dom().contains(request_id@) && (e matches CertError::RequestNotFound(m) && m@ == request_id@),
            },
    {
        match pending_get(&self.pending, request_id) {
            Some(p) => Ok(p),
            None => Err(CertError::RequestNotFound(string_from_static(request_id))),
        }
    }

    /// CHALLENGE, after the body is opened: the request may not switch
    /// challenge type once locked, and the type must have a handler. The
    /// result is the handler's index.
    pub fn select_handler(&self, pending: &PendingRequest, challenge_type: &str) -> (r: Result<usize, CertError>)
        ensures
            match pending.challenge_type {
                Some(t) if t@ != challenge_type@ => r matches Err(CertError::InvalidRequest(m))
                    && m@ == "challenge type locked to '"@ + t@ + "' for this request"@,
                _ => match handler_index(type_texts(self.config.challenges@), challenge_type@) {
                    None => r matches Err(CertError::InvalidRequest(m)) && m@ == "unsupported challenge type: "@ + challenge_type@,
                    Some(i) => r matches Ok(k) && k == i,
                },
            },
    {
        match &pending.challenge_type {
            Some(t) => {
                if !crate::text::str_eq(t.as_str(), challenge_type) {
                    return Err(CertError::InvalidRequest(concat3("challenge type locked to '", t.as_str(), "' for this request")));
                }
            },
            None => {},
        }
        let ghost types = type_texts(self.config.challenges@);
        let mut i: usize = 0;
        proof {
            assert(types.skip(0) =~= types);
        }
        while i < self.config.challenges.len()
            invariant
                i <= self.config.challenges@.len(),
                types == type_texts(self.config.challenges@),
                pending.challenge_type matches Some(t) ==> t@ == challenge_type@,
                handler_index(types, challenge_type@) == match handler_index(types.skip(i as int), challenge_type@) {
                    Some(j) => Some(j + i),
                    None => None,
                },
            decreases self.config.challenges@.len() - i,
        {
            proof {
                assert(types.skip(i as int)[0] == self.config.challenges@[i as int]@);
                assert(types.skip(i as int).drop_first() =~= types.skip(i + 1));
            }
            if crate::text::str_eq(self.config.challenges[i].as_str(), challenge_type) {
                return Ok(i);
            }
            i = i + 1;
        }
        let mut m = string_from_static("unsupported challenge type: ");
        push_text(&mut m, challenge_type);
        Err(CertError::InvalidRequest(m))
    }

    /// CHALLENGE, after the body is opened: the handler for `challenge_type`
    /// (picked as [`CaState::select_handler`] picks it) and whether this
    /// round begins the challenge or resumes it.
    pub fn challenge_step(&self, pending: PendingRequest, challenge_type: &str) -> (r: Result<(usize, ChallengeStep), CertError>)
        ensures
            match pending.challenge_type {
                Some(t) if t@ != challenge_type@ => r matches Err(CertError::InvalidRequest(m))
                    && m@ == "challenge type locked to '"@ + t@ + "' for this request"@,
                _ => match handler_index(type_texts(self.config.challenges@), challenge_type@) {
                    None => r matches Err(CertError::InvalidRequest(m)) && m@ == "unsupported challenge type: "@ + challenge_type@,
                    Some(i) => r matches Ok((k, step)) && k == i && step == step_for(pending),
                },
            },
    {
        match self.select_handler(&pending, challenge_type) {
            Err(e) => Err(e),
            Ok(k) => {
                let step = match pending.challenge_state {
                    Some(s) => ChallengeStep::Resume(s),
                    None => ChallengeStep::Begin(pending.cert_request),
                };
                Ok((k, step))
            },
        }
    }

    /// CHALLENGE, first round only: lock the request to its challenge type
    /// and record the state the handler began with.
    pub fn record_begun(&mut self, request_id: &str, state: ChallengeState, challenge_type: String)
        ensures
            final(self).pending_view() == if old(self).pending_view().dom().contains(request_id@) {
                old(self).pending_view().insert(
                    request_id@,
                    PendingRequest {
                        challenge_state: Some(state),
                        challenge_type: Some(challenge_type),
                        ..old(self).pending_view()[request_id@]
                    },
                )
            } else {
                old(self).pending_view()
            },
            final(self).revoked_view() == old(self).revoked_view(),
            final(self).served_view() == old(self).served_view(),
            final(self).config == old(self).config,
    {
        match pending_get(&self.pending, request_id) {
            Some(p) => {
                let entry = PendingRequest { challenge_state: Some(state), challenge_type: Some(challenge_type), ..p };
                pending_insert(&mut self.pending, string_from_static(request_id), entry);
            },
            None => {},
        }
    }

    /// CHALLENGE, once the handler's outcome is known: a denial ends the
    /// request; another round records the next state; success takes the
    /// request out of the table, stamps the attestation at `now` and asks
    /// the issuance gate.
    pub fn conclude(
        &mut self,
        request_id: &str,
        challenge_type: &str,
        outcome: ChallengeOutcome,
        decryption_iv: Option<[u8; 12]>,
        now: u64,
    ) -> (r: Result<Conclusion, CertError>)
        ensures
            final(self).revoked_view() == old(self).revoked_view(),
            final(self).served_view() == old(self).served_view(),
            final(self).config == old(self).config,
            match outcome {
                ChallengeOutcome::Denied(reason) => {
                    &&& final(self).pending_view() == old(self).pending_view().remove(request_id@)
                    &&& r matches Ok(Conclusion::Respond(resp)) && is_failure(resp, reason@)
                },
                ChallengeOutcome::Pending { status_message, remaining_tries, remaining_time_secs, next_state } => {
                    &&& final(self).pending_view() == if old(self).pending_view().dom().contains(request_id@) {
                        old(self).pending_view().insert(
                            request_id@,
                            PendingRequest {
                                challenge_state: Some(next_state),
                                decryption_iv,
                                ..old(self).pending_view()[request_id@]
                            },
                        )
                    } else {
                        old(self).pending_view()
                    }
                    &&& r matches Ok(Conclusion::Respond(resp))
                    &&& resp.status == STATUS_PENDING
                    &&& resp.challenge_status == Some(status_message)
                    &&& resp.remaining_tries == Some(remaining_tries)
                    &&& resp.remaining_time_secs == Some(remaining_time_secs)
                    &&& resp.issued_cert_name is None
                    &&& resp.error_code is None
                    &&& resp.error_info is None
                },
                ChallengeOutcome::Approved { attestation } => {
                    &&& final(self).pending_view() == old(self).pending_view().remove(request_id@)
                    &&& if !old(self).pending_view().dom().contains(request_id@) {
                        r matches Err(CertError::RequestNotFound(m)) && m@ == request_id@
                    } else {
                        let p = old(self).pending_view()[request_id@];
                        exists|set: AttestationSet| #[trigger] approved_set(attestation, challenge_type@, now, set) && (r matches Ok(c)
                            && issuance_concludes(
                            old(self).config.issuance.decision(
                                p.cert_request,
                                challenge_type@,
                                Some(set),
                                old(self).config.prefix@,
                                old(self).config.default_validity_ms,
                                old(self).config.max_validity_ms,
                            ),
                            p,
                            set,
                            old(self).config.emit_attestations,
                            c,
                        ))
                    }
                },
            },
    {
        match outcome {
            ChallengeOutcome::Denied(reason) => {
                let _ = pending_remove(&mut self.pending, request_id);
                Ok(Conclusion::Respond(failure(reason)))
            },
            ChallengeOutcome::Pending { status_message, remaining_tries, remaining_time_secs, next_state } => {
                match pending_get(&self.pending, request_id) {
                    Some(p) => {
                        let entry = PendingRequest { challenge_state: Some(next_state), decryption_iv, ..p };
                        pending_insert(&mut self.pending, string_from_static(request_id), entry);
                    },
                    None => {},
                }
                Ok(
                    Conclusion::Respond(
                        ChallengeResponse {
                            status: STATUS_PENDING,
                            challenge_status: Some(status_message),
                            remaining_tries: Some(remaining_tries),
                            remaining_time_secs: Some(remaining_time_secs),
                            issued_cert_name: None,
                            error_code: None,
                            error_info: None,
                        },
                    ),
                )
            },
            ChallengeOutcome::Approved { attestation } => {
                let pending = match pending_remove(&mut self.pending, request_id) {
                    Some(p) => p,
                    None => return Err(CertError::RequestNotFound(string_from_static(request_id))),
                };
                let mut set = match attestation {
                    Some(a) => a,
                    None => AttestationSet::single(ChallengeAttestation::of_kind(challenge_type)),
                };
                let ghost init = set;
                set.stamp(now);
                proof {
                    if attestation is None {
                        assert(init.leaves@[0].kind@ == challenge_type@);
                        assert(init.leaves@[0].performed_at == 0);
                        assert(set.leaves@[0].kind == init.leaves@[0].kind);
                    }
                    assert(approved_set(attestation, challenge_type@, now, set));
                }
                let decision = {
                    let ctx = IssuanceContext {
                        cert_request: &pending.cert_request,
                        challenge_type,
                        attestation: Some(&set),
                        ca_prefix: &self.config.prefix,
                        default_validity_ms: self.config.default_validity_ms,
                        max_validity_ms: self.config.max_validity_ms,
                    };
                    self.config.issuance.decide(&ctx)
                };
                let c = answer_issuance(decision, pending, set, self.config.emit_attestations);
                Ok(c)
            },
        }
    }

    /// Before signing: the subject name must parse, the public key must be
    /// base64url, the name must not be revoked, and the CA must hold a
    /// signing key (`ca_keys`, its trust-anchor key names; the first signs).
    /// The result is the subject name, the key bytes and the signing key's
    /// name.
    pub fn issuance_check(&self, req: &CertRequest, ca_keys: &Vec<Name>) -> (r: Result<(Name, Vec<u8>, Name), CertError>)
        ensures
            match uri_parse(utf8_bytes(req.name@)) {
                None => r matches Err(CertError::Name(m)) && m@ == req.name@,
                Some(n) => match crate::b64::b64url_decoding(utf8_bytes(req.public_key@)) {
                    None => r matches Err(CertError::InvalidRequest(m)) && m@ == "invalid public key base64"@,
                    Some(k) => if self.revoked_view().contains(req.name@) {
                        r matches Err(CertError::PolicyDenied(m)) && m@ == "certificate "@ + req.name@ + " has been revoked"@
                    } else if ca_keys@.len() == 0 {
                        r matches Err(CertError::InvalidRequest(m)) && m@ == "CA has no signing key configured"@
                    } else {
                        r matches Ok((name, key, signer)) && name@ == n && key@ == k && signer@ == ca_keys@[0]@
                    },
                },
            },
    {
        let subject = match Name::from_uri(req.name.as_str()) {
            Some(n) => n,
            None => return Err(CertError::Name(req.name.clone())),
        };
        let key = match crate::b64::b64url_decode(req.public_key.as_str().as_bytes()) {
            Some(k) => k,
            None => return Err(CertError::InvalidRequest(string_from_static("invalid public key base64"))),
        };
        if self.is_revoked(req.name.as_str()) {
            return Err(CertError::PolicyDenied(concat3("certificate ", req.name.as_str(), " has been revoked")));
        }
        if ca_keys.len() == 0 {
            return Err(CertError::InvalidRequest(string_from_static("CA has no signing key configured")));
        }
        let signer = ca_keys[0].copy();
        Ok((subject, key, signer))
    }

    /// After signing: serve the certificate under its name and answer with
    /// success.
    pub fn record_issued(&mut self, cert: &Certificate) -> (r: ChallengeResponse)
        ensures
            final(self).served_view() == old(self).served_view().insert(
                spec_uri_text(cert.name@),
                cert_wire(
                    match cert.signed_region {
                        Some(v) => Some(v@),
                        None => None,
                    },
                    match cert.sig_value {
                        Some(v) => Some(v@),
                        None => None,
                    },
                ),
            ),
            final(self).pending_view() == old(self).pending_view(),
            final(self).revoked_view() == old(self).revoked_view(),
            final(self).config == old(self).config,
            r.status == STATUS_SUCCESS,
            r.issued_cert_name matches Some(n) && n@ == spec_uri_text(cert.name@),
            r.challenge_status is None,
            r.remaining_tries is None,
            r.remaining_time_secs is None,
            r.error_code is None,
            r.error_info is None,
    {
        let name = cert.name.to_uri();
        let bytes = serialize_cert(cert);
        served_insert(&mut self.served_certs, name.clone(), bytes);
        ChallengeResponse {
            status: STATUS_SUCCESS,
            challenge_status: None,
            remaining_tries: None,
            remaining_time_secs: None,
            issued_cert_name: Some(name),
            error_code: None,
            error_info: None,
        }
    }

    /// After sealing: a request that goes on keeps the IV counter the seal
    /// advanced.
    pub fn record_encryption_iv(&mut self, request_id: &str, status: u8, encryption_iv: [u8; 12])
        ensures
            final(self).pending_view() == if status == STATUS_PENDING && old(self).pending_view().dom().contains(request_id@) {
                old(self).pending_view().insert(
                    request_id@,
                    PendingRequest { encryption_iv, ..old(self).pending_view()[request_id@] },
                )
            } else {
                old(self).pending_view()
            },
            final(self).revoked_view() == old(self).revoked_view(),
            final(self).served_view() == old(self).served_view(),
            final(self).config == old(self).config,
    {
        if status == STATUS_PENDING {
            match pending_get(&self.pending, request_id) {
                Some(p) => {
                    let entry = PendingRequest { encryption_iv, ..p };
                    pending_insert(&mut self.pending, string_from_static(request_id), entry);
                },
                None => {},
            }
        }
    }
}

/// The outcome of a REVOKE request.
#[derive(Debug, Clone, Copy, PartialEq, Eq)]
pub enum RevokeStatus {
    /// The signature checked out and the name is now revoked.
    Revoked,
    /// The name does not parse, or names no trust anchor.
    NotFound,
    /// The signature over the name does not verify.
    Unauthorized,
}

/// What INFO announces about the CA.
#[derive(Debug, Clone, PartialEq, Eq)]
pub struct CaProfile {
    pub ca_prefix: String,
    pub ca_info: String,
    /// The CA's own certificate, as `Data` wire bytes; empty without one.
    pub ca_certificate: Vec<u8>,
    pub max_validity_secs: u64,
    pub challenges: Vec<String>,
}

/// The validity granted to an issued certificate, in milliseconds: the
/// policy's figure capped by the CA maximum, and further capped by the
/// window the client asked for when it asked for one.
pub open spec fn granted_validity(max_validity_ms: u64, policy_ms: u64, not_before: u64, not_after: u64) -> u64 {
    let capped = if policy_ms < max_validity_ms { policy_ms } else { max_validity_ms };
    let requested = if not_after > not_before { (not_after - not_before) as u64 } else { 0u64 };
    if requested > 0 && requested < capped { requested } else { capped }
}

/// The validity granted is the least of the policy's figure, the CA
/// maximum and, when the client asked for a positive window
/// `not_after - not_before`, that window: it never exceeds any of them and
/// equals one of them. In particular a requested window shorter than both
/// caps is granted exactly.
pub proof fn lemma_granted_validity(max_validity_ms: u64, policy_ms: u64, not_before: u64, not_after: u64)
    ensures
        ({
            let v = granted_validity(max_validity_ms, policy_ms, not_before, not_after);
            &&& v <= max_validity_ms
            &&& v <= policy_ms
            &&& not_after > not_before ==> v <= not_after - not_before
            &&& (v == max_validity_ms || v == policy_ms || (not_after > not_before && v == not_after - not_before))
            &&& (not_after > not_before && not_after - not_before < policy_ms && not_after - not_before
                < max_validity_ms) ==> v == not_after - not_before
            &&& not_after <= not_before ==> v == (if policy_ms < max_validity_ms {
                policy_ms
            } else {
                max_validity_ms
            })
        }),
{
}

impl<P: NamespacePolicy, I: IssuancePolicy> CaState<P, I> {
    /// The validity to certify `req` with, given the issuance policy's
    /// figure.
    pub fn validity_for(&self, req: &CertRequest, policy_validity_ms: u64) -> (r: u64)
        ensures
            r == granted_validity(self.config.max_validity_ms, policy_validity_ms, req.not_before, req.not_after),
            r <= self.config.max_validity_ms,
            r <= policy_validity_ms,
            req.not_after > req.not_before ==> r <= req.not_after - req.not_before,
            r == self.config.max_validity_ms || r == policy_validity_ms || (req.not_after > req.not_before && r
                == req.not_after - req.not_before),
    {
        let max = self.config.max_validity_ms;
        let policy_ms = if policy_validity_ms < max { policy_validity_ms } else { max };
        let requested = req.not_after.saturating_sub(req.not_before);
        if requested > 0 && requested < policy_ms {
            requested
        } else {
            policy_ms
        }
    }

    /// REVOKE: the name must parse and name a trust anchor (whose key the
    /// caller looked up as `anchor_key`), and `signature` must be that key's
    /// Ed25519 signature over the name's text. Only then is the name added
    /// to the revocation set.
    pub fn revoke_request(&mut self, cert_name: String, signature: &[u8], anchor_key: Option<&[u8]>) -> (r: RevokeStatus)
        ensures
            final(self).pending_view() == old(self).pending_view(),
            final(self).served_view() == old(self).served_view(),
            final(self).config == old(self).config,
            uri_parse(utf8_bytes(cert_name@)) is None ==> r == RevokeStatus::NotFound,
            uri_parse(utf8_bytes(cert_name@)) is Some && anchor_key is None ==> r == RevokeStatus::NotFound,
            uri_parse(utf8_bytes(cert_name@)) is Some && anchor_key is Some ==> (
                if ed25519_accepts(anchor_key.unwrap()@, utf8_bytes(cert_name@), signature@) {
                    r == RevokeStatus::Revoked
                } else {
                    r == RevokeStatus::Unauthorized
                }),
            final(self).revoked_view() == if r == RevokeStatus::Revoked {
                old(self).revoked_view().insert(cert_name@)
            } else {
                old(self).revoked_view()
            },
    {
        match Name::from_uri(cert_name.as_str()) {
            None => return RevokeStatus::NotFound,
            Some(_) => {},
        }
        let key = match anchor_key {
            Some(k) => k,
            None => return RevokeStatus::NotFound,
        };
        if ed25519_verify(key, cert_name.as_str().as_bytes(), signature) {
            self.revoke(cert_name);
            RevokeStatus::Revoked
        } else {
            RevokeStatus::Unauthorized
        }
    }

    /// INFO: the CA prefix and description, the CA certificate (`anchor`,
    /// when one is provisioned), the maximum validity in whole seconds and
    /// the challenge types offered.
    pub fn info_profile(&self, anchor: Option<&Certificate>) -> (r: CaProfile)
        ensures
            r.ca_prefix@ == spec_uri_text(self.config.prefix@),
            r.ca_info@ == self.config.info@,
            r.ca_certificate@ == match anchor {
                Some(c) => cert_wire(
                    match c.signed_region {
                        Some(v) => Some(v@),
                        None => None,
                    },
                    match c.sig_value {
                        Some(v) => Some(v@),
                        None => None,
                    },
                ),
                None => Seq::<u8>::empty(),
            },
            r.max_validity_secs == self.config.max_validity_ms / 1000,
            type_texts(r.challenges@) == type_texts(self.config.challenges@),
    {
        let ca_certificate = match anchor {
            Some(c) => serialize_cert(c),
            None => Vec::new(),
        };
        CaProfile {
            ca_prefix: self.config.prefix.to_uri(),
            ca_info: self.config.info.clone(),
            ca_certificate,
            max_validity_secs: self.config.max_validity_ms / 1000,
            challenges: self.challenge_types(),
        }
    }
}

/// The PROBE answer for a namespace decision.
pub fn probe_response(decision: PolicyDecision) -> (r: ProbeResponse)
    ensures
        r.max_suffix_length is None,
        match decision {
            PolicyDecision::Allow => r.allowed && r.reason is None,
            PolicyDecision::Deny(m) => !r.allowed && r.reason == Some(m),
        },
{
    match decision {
        PolicyDecision::Allow => ProbeResponse { allowed: true, reason: None, max_suffix_length: None },
        PolicyDecision::Deny(reason) => ProbeResponse { allowed: false, reason: Some(reason), max_suffix_length: None },
    }
}

/// Cleaning up keeps exactly the requests created at or after the cutoff,
/// each unchanged.
pub proof fn lemma_cleanup_keeps_fresh(m: Map<Seq<char>, PendingRequest>, cutoff: u64, k: Seq<char>)
    ensures
        fresh_entries(m, cutoff).dom().contains(k) <==> (m.dom().contains(k) && m[k].created_at >= cutoff),
        fresh_entries(m, cutoff).dom().contains(k) ==> fresh_entries(m, cutoff)[k] == m[k],
{
}

} // verus!
