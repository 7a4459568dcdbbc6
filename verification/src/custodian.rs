//! Custodians: what holds a surface's private keys, and the remote-signer
//! protocol, in which the key lives on another device that gates each
//! signature and signs on the requester's behalf.
//!
//! The frames are NDN-TLV with extension type codes. Sending and receiving
//! them, asking the operator for approval and signing are the caller's
//! work; building, reading and answering the frames are here.

use vstd::prelude::*;

use dashmap::DashMap;

use crate::crypto::{ed25519_public, ed25519_public_key, ed25519_sign, ed25519_signature};
use crate::delegation::KeyId;
use crate::envelope::{first_byte, last_value, lemma_last_value_push};
use crate::signer::Ed25519Signer;
use crate::name::Name;
use crate::name_uri::spec_uri_text;
use crate::text::{decimal_text, hex_text, push_text, string_from_static, u64_hex, u64_text, utf8_to_string};
use crate::tlv::{
    be_bytes, be_value, elements_prefix, elements_view, lemma_be_roundtrip, lemma_elements_prefix_roundtrip,
    lemma_pow256_values, lemma_tlv_roundtrip, push_be, read_be, read_tlv, slice_to_vec, split_elements, tlv_encode,
    tlv_encode_all, tlv_parse, write_tlv,
};
use vstd::utf8::{decode_utf8, valid_utf8};

verus! {

/// A signing request frame.
pub const TLV_SIGN_REQUEST: u64 = 0x0640;

/// A signing response frame.
pub const TLV_SIGN_RESPONSE: u64 = 0x0642;

/// The request id correlating a response with its request (8 bytes).
pub const TLV_REQ_ID: u64 = 0x0644;

/// The bytes to sign.
pub const TLV_REGION: u64 = 0x0646;

/// The approval status (one byte).
pub const TLV_STATUS: u64 = 0x0648;

/// The signature.
pub const TLV_SIGNATURE: u64 = 0x064A;

/// A pairing offer (the QR code the signer scans).
pub const TLV_PAIRING_OFFER: u64 = 0x0650;

/// The requester's public key.
pub const TLV_DASHBOARD_PUBKEY: u64 = 0x0651;

/// How to reach the requester.
pub const TLV_TRANSPORT_HINT: u64 = 0x0652;

/// A single-use nonce binding the pairing session.
pub const TLV_NONCE: u64 = 0x0653;

/// Status: the operator approved.
pub const STATUS_APPROVED: u8 = 1;

/// Status: the operator declined.
pub const STATUS_DENIED: u8 = 0;

/// Why a custodian operation failed.
#[derive(Debug, Clone, PartialEq, Eq)]
pub enum CustodianError {
    Unavailable,
    UnlockFailed(String),
    UnknownKey(Name),
    SignFailed(String),
    UnwrapFailed(String),
}

/// Where a custodian's keys live.
#[derive(Debug, Clone, PartialEq, Eq)]
pub enum CustodianRef {
    InPage,
    BrowserExtension,
    OsKeyring,
    Fob { fob_id: String },
    Remote { reachable_via: Name },
    Tpm { device_id: String },
}

impl CustodianRef {
    /// Short label for the security-tier badge.
    pub fn label(&self) -> (r: &'static str)
        ensures
            r@ == match *self {
                CustodianRef::InPage => "In-page (memory)"@,
                CustodianRef::BrowserExtension => "Browser extension"@,
                CustodianRef::OsKeyring => "OS keyring"@,
                CustodianRef::Fob { .. } => "Hardware fob"@,
                CustodianRef::Remote { .. } => "Remote signer"@,
                CustodianRef::Tpm { .. } => "TPM"@,
            },
    {
        match self {
            CustodianRef::InPage => "In-page (memory)",
            CustodianRef::BrowserExtension => "Browser extension",
            CustodianRef::OsKeyring => "OS keyring",
            CustodianRef::Fob { .. } => "Hardware fob",
            CustodianRef::Remote { .. } => "Remote signer",
            CustodianRef::Tpm { .. } => "TPM",
        }
    }

    /// Whether the private key resides on this machine: not for a fob or a
    /// remote signer.
    pub fn key_on_this_machine(&self) -> (r: bool)
        ensures
            r == !(self is Fob || self is Remote),
    {
        match self {
            CustodianRef::Fob { .. } | CustodianRef::Remote { .. } => false,
            _ => true,
        }
    }

    /// Whether every signature needs an explicit user action.
    pub fn prompts_per_action(&self) -> (r: bool)
        ensures
            r == (self is BrowserExtension || self is Fob || self is Remote || self is Tpm),
    {
        match self {
            CustodianRef::BrowserExtension | CustodianRef::Fob { .. } | CustodianRef::Remote { .. } | CustodianRef::Tpm {
                ..
            } => true,
            _ => false,
        }
    }
}

/// Unlock material a caller provides; each custodian decides whether it
/// needs it.
#[derive(Debug, Clone, PartialEq, Eq)]
pub struct UnlockContext {
    pub passphrase: Option<String>,
}

impl Default for UnlockContext {
    fn default() -> (r: UnlockContext)
        ensures
            r.passphrase is None,
    {
        UnlockContext { passphrase: None }
    }
}

/// A wrapped content key.
#[derive(Debug, Clone, PartialEq, Eq)]
pub struct WrappedKey {
    pub recipient: Name,
    pub algorithm: String,
    pub blob: Vec<u8>,
}

/// An unwrapped content key.
#[derive(Debug, Clone, PartialEq, Eq)]
pub struct UnwrappedKey {
    pub blob: Vec<u8>,
}

/// The signer side's approval gate: it shows the operator what `region`
/// commits to and returns whether they approve.
pub trait ApprovalGate {
    fn approve(&self, region: &[u8]) -> bool;
}

/// A signing request as the requester forms it. `context` is the summary
/// shown for approval; only `region` and a request id cross the wire.
#[derive(Debug, Clone, PartialEq, Eq)]
pub struct RemoteSignRequest {
    pub key_name: Name,
    pub region: Vec<u8>,
    pub context: String,
}

/// A custodian whose key lives on a remote signer.
#[derive(Debug, Clone, PartialEq, Eq)]
pub struct RemoteCustodian {
    pub kind: CustodianRef,
}

impl RemoteCustodian {
    pub fn new(kind: CustodianRef) -> (r: RemoteCustodian)
        ensures
            r.kind == kind,
    {
        RemoteCustodian { kind }
    }

    /// A remote signer prompts for every signature.
    pub fn prompts_per_action(&self) -> (r: bool)
        ensures
            r,
    {
        true
    }

    /// Unlocking is the remote tap: it succeeds exactly when the signer is
    /// reachable.
    pub fn unlock(&self, reachable: bool) -> (r: Result<(), CustodianError>)
        ensures
            reachable ==> r is Ok,
            !reachable ==> r == Err::<(), CustodianError>(CustodianError::Unavailable),
    {
        if reachable {
            Ok(())
        } else {
            Err(CustodianError::Unavailable)
        }
    }

    /// The request sent to sign `content` as `name`.
    pub fn sign_request(&self, name: &Name, content: &[u8]) -> (r: RemoteSignRequest)
        ensures
            r.key_name@ == name@,
            r.region@ == content@,
            r.context@ == "Authorize a signed command as "@ + spec_uri_text(name@),
    {
        let mut context = string_from_static("Authorize a signed command as ");
        push_text(&mut context, name.to_uri().as_str());
        RemoteSignRequest { key_name: name.copy(), region: slice_to_vec(content, 0, content.len()), context }
    }

    /// Content-key unwrapping is not offered by a remote signer.
    pub fn unwrap_for(&self, wrapped: &WrappedKey) -> (r: Result<UnwrappedKey, CustodianError>)
        ensures
            r == Err::<UnwrappedKey, CustodianError>(CustodianError::Unavailable),
    {
        Err(CustodianError::Unavailable)
    }
}

// ---------------------------------------------------------------------------
// In-page and enclave custodians
// ---------------------------------------------------------------------------

/// The key seeds an in-page custodian holds, by key name URI.
pub uninterp spec fn in_page_seeds(m: DashMap<String, [u8; 32]>) -> Map<Seq<char>, Seq<u8>>;

/// `DashMap::new`: empty.
#[verifier::external_body]
fn seed_table() -> (r: DashMap<String, [u8; 32]>)
    ensures
        in_page_seeds(r).dom() == Set::<Seq<char>>::empty(),
{
    DashMap::new()
}

/// `DashMap::insert`: the entry for `k` becomes `v`.
#[verifier::external_body]
fn seed_insert(m: &mut DashMap<String, [u8; 32]>, k: String, v: [u8; 32])
    ensures
        in_page_seeds(*final(m)) == in_page_seeds(*old(m)).insert(k@, v@),
{
    m.insert(k, v);
}

/// `DashMap::get`, the entry copied out.
#[verifier::external_body]
fn seed_get(m: &DashMap<String, [u8; 32]>, k: &str) -> (r: Option<[u8; 32]>)
    ensures
        match r {
            Some(v) => in_page_seeds(*m).dom().contains(k@) && v@ == in_page_seeds(*m)[k@],
            None => !in_page_seeds(*m).dom().contains(k@),
        },
{
    m.get(k).map(|e| *e.value())
}

/// A custodian holding Ed25519 keys in memory (a browser tab).
pub struct InPageCustodian {
    keys: DashMap<String, [u8; 32]>,
}

impl InPageCustodian {
    pub closed spec fn seeds(&self) -> Map<Seq<char>, Seq<u8>> {
        in_page_seeds(self.keys)
    }

    /// An empty custodian.
    pub fn new() -> (r: InPageCustodian)
        ensures
            r.seeds().dom() == Set::<Seq<char>>::empty(),
    {
        InPageCustodian { keys: seed_table() }
    }

    /// Hold `signer`'s key under `key_id`, replacing any key held there.
    pub fn insert(&mut self, key_id: KeyId, signer: Ed25519Signer)
        ensures
            final(self).seeds() == old(self).seeds().insert(spec_uri_text(key_id.0@), signer.seed_view()),
    {
        seed_insert(&mut self.keys, key_id.0.to_uri(), signer.seed_bytes());
    }

    /// The public key held under `key_id`.
    pub fn public_key(&self, key_id: &KeyId) -> (r: Option<[u8; 32]>)
        ensures
            match r {
                Some(pk) => self.seeds().dom().contains(spec_uri_text(key_id.0@)) && pk@ == ed25519_public_key(
                    self.seeds()[spec_uri_text(key_id.0@)],
                ),
                None => !self.seeds().dom().contains(spec_uri_text(key_id.0@)),
            },
    {
        match seed_get(&self.keys, key_id.0.to_uri().as_str()) {
            None => None,
            Some(seed) => Some(ed25519_public(&seed)),
        }
    }

    pub fn kind(&self) -> (r: CustodianRef)
        ensures
            r == CustodianRef::InPage,
    {
        CustodianRef::InPage
    }

    /// Always reachable.
    pub fn is_available(&self) -> (r: bool)
        ensures
            r,
    {
        true
    }

    /// Signing needs no prompt.
    pub fn prompts_per_action(&self) -> (r: bool)
        ensures
            !r,
    {
        false
    }

    /// Nothing to unlock.
    pub fn unlock(&self, ctx: UnlockContext) -> (r: Result<(), CustodianError>)
        ensures
            r is Ok,
    {
        Ok(())
    }

    /// Sign `content` with the key held under `key_id`.
    pub fn sign(&self, key_id: &KeyId, name: &Name, content: &[u8]) -> (r: Result<Vec<u8>, CustodianError>)
        ensures
            self.seeds().dom().contains(spec_uri_text(key_id.0@)) ==> (r matches Ok(sig) && sig@ == ed25519_signature(
                self.seeds()[spec_uri_text(key_id.0@)],
                content@,
            )),
            !self.seeds().dom().contains(spec_uri_text(key_id.0@)) ==> (r matches Err(CustodianError::UnknownKey(n))
                && n@ == key_id.0@),
    {
        match seed_get(&self.keys, key_id.0.to_uri().as_str()) {
            None => Err(CustodianError::UnknownKey(key_id.0.copy())),
            Some(seed) => Ok(ed25519_sign(&seed, content)),
        }
    }

    /// Content-key unwrapping is not offered yet.
    pub fn unwrap_for(&self, key_id: &KeyId, wrapped: &WrappedKey) -> (r: Result<UnwrappedKey, CustodianError>)
        ensures
            r matches Err(CustodianError::UnwrapFailed(m)) && m@ == "Phase 4"@,
    {
        Err(CustodianError::UnwrapFailed(string_from_static("Phase 4")))
    }
}

/// A custodian whose key lives in a platform enclave (secure element,
/// TPM); the enclave backend is the caller's.
#[derive(Debug, Clone, PartialEq, Eq)]
pub struct EnclaveCustodian {
    pub device_id: String,
}

impl EnclaveCustodian {
    pub fn new(device_id: String) -> (r: EnclaveCustodian)
        ensures
            r.device_id@ == device_id@,
    {
        EnclaveCustodian { device_id }
    }

    pub fn kind(&self) -> (r: CustodianRef)
        ensures
            r matches CustodianRef::Tpm { device_id } && device_id@ == self.device_id@,
    {
        CustodianRef::Tpm { device_id: self.device_id.clone() }
    }

    /// Every signature is gated by the enclave's user verification.
    pub fn prompts_per_action(&self) -> (r: bool)
        ensures
            r,
    {
        true
    }

    /// Unlocking succeeds exactly when the enclave is available.
    pub fn unlock(&self, available: bool) -> (r: Result<(), CustodianError>)
        ensures
            available ==> r is Ok,
            !available ==> r == Err::<(), CustodianError>(CustodianError::Unavailable),
    {
        if available {
            Ok(())
        } else {
            Err(CustodianError::Unavailable)
        }
    }

    /// Content-key unwrapping is not offered by an enclave custodian.
    pub fn unwrap_for(&self, key_id: &KeyId, wrapped: &WrappedKey) -> (r: Result<UnwrappedKey, CustodianError>)
        ensures
            r == Err::<UnwrappedKey, CustodianError>(CustodianError::Unavailable),
    {
        Err(CustodianError::Unavailable)
    }
}


// ---------------------------------------------------------------------------
// Frames
// ---------------------------------------------------------------------------

/// A signing request frame: a request id and the bytes to sign.
#[derive(Debug, Clone, PartialEq, Eq)]
pub struct WireSignRequest {
    pub req_id: u64,
    pub region: Vec<u8>,
}

/// The reply to a signing request.
#[derive(Debug, Clone, PartialEq, Eq)]
pub enum WireSignResponse {
    /// The operator approved; the signature is over the request's region.
    Approved { req_id: u64, signature: Vec<u8> },
    /// The operator declined, or the signature could not be made.
    Denied { req_id: u64 },
}

/// The pairing offer the requester shows as a QR or NFC payload.
#[derive(Debug, Clone, PartialEq, Eq)]
pub struct PairingOffer {
    pub dashboard_pubkey: Vec<u8>,
    pub transport_hint: String,
    pub nonce: Vec<u8>,
}

pub enum ResponseView {
    Approved { req_id: u64, signature: Seq<u8> },
    Denied { req_id: u64 },
}

impl View for WireSignResponse {
    type V = ResponseView;

    open spec fn view(&self) -> ResponseView {
        match self {
            WireSignResponse::Approved { req_id, signature } => ResponseView::Approved {
                req_id: *req_id,
                signature: signature@,
            },
            WireSignResponse::Denied { req_id } => ResponseView::Denied { req_id: *req_id },
        }
    }
}

pub open spec fn malformed_msg() -> Seq<char> {
    "malformed remote-signer frame: truncated or malformed element"@
}

pub open spec fn unexpected_msg(typ: u64, want: Seq<char>) -> Seq<char> {
    "unexpected message type 0x"@ + hex_text(typ as nat) + ", want "@ + want
}

pub open spec fn missing_msg(field: Seq<char>) -> Seq<char> {
    "remote-signer frame missing "@ + field
}

/// Some element of type `t` has a value whose length is not `len`.
pub open spec fn has_bad_len(els: Seq<(u64, Seq<u8>)>, t: u64, len: nat) -> bool {
    exists|i: int| 0 <= i < els.len() && #[trigger] els[i].0 == t && els[i].1.len() != len
}

/// Some element of type `t` has a value that is not UTF-8.
pub open spec fn has_non_utf8(els: Seq<(u64, Seq<u8>)>, t: u64) -> bool {
    exists|i: int| 0 <= i < els.len() && #[trigger] els[i].0 == t && !valid_utf8(els[i].1)
}

/// The request frame.
pub open spec fn request_wire(req_id: u64, region: Seq<u8>) -> Seq<u8> {
    tlv_encode(TLV_SIGN_REQUEST, tlv_encode(TLV_REQ_ID, be_bytes(req_id as nat, 8)) + tlv_encode(TLV_REGION, region))
}

/// The response frame.
pub open spec fn response_wire(r: ResponseView) -> Seq<u8> {
    match r {
        ResponseView::Approved { req_id, signature } => tlv_encode(
            TLV_SIGN_RESPONSE,
            tlv_encode(TLV_REQ_ID, be_bytes(req_id as nat, 8)) + tlv_encode(TLV_STATUS, seq![STATUS_APPROVED])
                + tlv_encode(TLV_SIGNATURE, signature),
        ),
        ResponseView::Denied { req_id } => tlv_encode(
            TLV_SIGN_RESPONSE,
            tlv_encode(TLV_REQ_ID, be_bytes(req_id as nat, 8)) + tlv_encode(TLV_STATUS, seq![STATUS_DENIED]),
        ),
    }
}

/// The pairing offer payload.
pub open spec fn offer_wire(pubkey: Seq<u8>, hint: Seq<char>, nonce: Seq<u8>) -> Seq<u8> {
    tlv_encode(
        TLV_PAIRING_OFFER,
        tlv_encode(TLV_DASHBOARD_PUBKEY, pubkey) + tlv_encode(TLV_TRANSPORT_HINT, crate::text::utf8_bytes(hint))
            + tlv_encode(TLV_NONCE, nonce),
    )
}

/// Reading a request frame: the outer element must be a request; inner
/// elements are read in order (a request id that is not eight bytes, or a
/// malformed element, ends the reading); unknown elements are skipped and
/// the last of each kind counts.
pub open spec fn request_decoding(wire: Seq<u8>) -> Result<(u64, Seq<u8>), Seq<char>> {
    match tlv_parse(wire) {
        None => Err(malformed_msg()),
        Some((typ, body, _)) => if typ != TLV_SIGN_REQUEST {
            Err(unexpected_msg(typ, "SignRequest"@))
        } else {
            let (els, bad) = elements_prefix(body);
            if has_bad_len(els, TLV_REQ_ID, 8) {
                Err("ReqId must be 8 bytes"@)
            } else if bad {
                Err(malformed_msg())
            } else {
                match last_value(els, TLV_REQ_ID) {
                    None => Err(missing_msg("ReqId"@)),
                    Some(id) => match last_value(els, TLV_REGION) {
                        None => Err(missing_msg("Region"@)),
                        Some(region) => Ok((be_value(id) as u64, region)),
                    },
                }
            }
        },
    }
}

/// Reading a response frame; an empty status value counts as no status.
pub open spec fn response_decoding(wire: Seq<u8>) -> Result<ResponseView, Seq<char>> {
    match tlv_parse(wire) {
        None => Err(malformed_msg()),
        Some((typ, body, _)) => if typ != TLV_SIGN_RESPONSE {
            Err(unexpected_msg(typ, "SignResponse"@))
        } else {
            let (els, bad) = elements_prefix(body);
            if has_bad_len(els, TLV_REQ_ID, 8) {
                Err("ReqId must be 8 bytes"@)
            } else if bad {
                Err(malformed_msg())
            } else {
                match last_value(els, TLV_REQ_ID) {
                    None => Err(missing_msg("ReqId"@)),
                    Some(id) => match first_byte(last_value(els, TLV_STATUS)) {
                        None => Err(missing_msg("Status"@)),
                        Some(st) => if st == STATUS_APPROVED {
                            match last_value(els, TLV_SIGNATURE) {
                                None => Err(missing_msg("Signature"@)),
                                Some(sig) => Ok(ResponseView::Approved { req_id: be_value(id) as u64, signature: sig }),
                            }
                        } else if st == STATUS_DENIED {
                            Ok(ResponseView::Denied { req_id: be_value(id) as u64 })
                        } else {
                            Err("bad status byte "@ + decimal_text(st as nat))
                        },
                    },
                }
            }
        },
    }
}

/// Reading a pairing offer.
pub open spec fn offer_decoding(wire: Seq<u8>) -> Result<(Seq<u8>, Seq<char>, Seq<u8>), Seq<char>> {
    match tlv_parse(wire) {
        None => Err(malformed_msg()),
        Some((typ, body, _)) => if typ != TLV_PAIRING_OFFER {
            Err(unexpected_msg(typ, "PairingOffer"@))
        } else {
            let (els, bad) = elements_prefix(body);
            if has_non_utf8(els, TLV_TRANSPORT_HINT) {
                Err("TransportHint is not UTF-8"@)
            } else if bad {
                Err(malformed_msg())
            } else {
                match last_value(els, TLV_DASHBOARD_PUBKEY) {
                    None => Err(missing_msg("DashboardPubKey"@)),
                    Some(pk) => match last_value(els, TLV_TRANSPORT_HINT) {
                        None => Err(missing_msg("TransportHint"@)),
                        Some(h) => match last_value(els, TLV_NONCE) {
                            None => Err(missing_msg("Nonce"@)),
                            Some(n) => Ok((pk, decode_utf8(h), n)),
                        },
                    },
                }
            }
        },
    }
}

/// A `SignFailed` error with message `m`.
pub open spec fn is_sign_failed(e: CustodianError, m: Seq<char>) -> bool {
    e matches CustodianError::SignFailed(t) && t@ == m
}

fn sign_failed(m: &str) -> (r: CustodianError)
    ensures
        is_sign_failed(r, m@),
{
    CustodianError::SignFailed(string_from_static(m))
}

fn unexpected(typ: u64, want: &str) -> (r: CustodianError)
    ensures
        is_sign_failed(r, unexpected_msg(typ, want@)),
{
    let mut m = string_from_static("unexpected message type 0x");
    push_text(&mut m, u64_hex(typ).as_str());
    push_text(&mut m, ", want ");
    push_text(&mut m, want);
    CustodianError::SignFailed(m)
}

fn missing(field: &str) -> (r: CustodianError)
    ensures
        is_sign_failed(r, missing_msg(field@)),
{
    let mut m = string_from_static("remote-signer frame missing ");
    push_text(&mut m, field);
    CustodianError::SignFailed(m)
}

/// The position of the last element of type `t`.
fn last_of(els: &Vec<(u64, Vec<u8>)>, t: u64) -> (r: Option<usize>)
    ensures
        match last_value(elements_view(els@), t) {
            None => r is None,
            Some(v) => r matches Some(i) && i < els@.len() && els@[i as int].1@ == v && els@[i as int].0 == t,
        },
{
    let ghost view = elements_view(els@);
    let mut found: Option<usize> = None;
    let mut i: usize = 0;
    proof {
        assert(view.take(0) =~= Seq::<(u64, Seq<u8>)>::empty());
    }
    while i < els.len()
        invariant
            i <= els@.len(),
            view == elements_view(els@),
            match last_value(view.take(i as int), t) {
                None => found is None,
                Some(v) => found matches Some(k) && k < i && els@[k as int].1@ == v && els@[k as int].0 == t,
            },
        decreases els@.len() - i,
    {
        proof {
            assert(view.take(i + 1) =~= view.take(i as int).push(view[i as int]));
            lemma_last_value_push(view.take(i as int), view[i as int], t);
        }
        if els[i].0 == t {
            found = Some(i);
        }
        i = i + 1;
    }
    proof {
        assert(view.take(i as int) =~= view);
    }
    found
}

/// Whether some element of type `t` has a value whose length is not `len`.
fn any_bad_len(els: &Vec<(u64, Vec<u8>)>, t: u64, len: usize) -> (r: bool)
    ensures
        r == has_bad_len(elements_view(els@), t, len as nat),
{
    let ghost view = elements_view(els@);
    let mut i: usize = 0;
    while i < els.len()
        invariant
            i <= els@.len(),
            view == elements_view(els@),
            forall|j: int| 0 <= j < i ==> !(#[trigger] view[j].0 == t && view[j].1.len() != len),
        decreases els@.len() - i,
    {
        if els[i].0 == t && els[i].1.len() != len {
            proof {
                assert(view[i as int].0 == t && view[i as int].1.len() != len);
            }
            return true;
        }
        i = i + 1;
    }
    false
}

/// Whether some element of type `t` has a value that is not UTF-8.
fn any_non_utf8(els: &Vec<(u64, Vec<u8>)>, t: u64) -> (r: bool)
    ensures
        r == has_non_utf8(elements_view(els@), t),
{
    let ghost view = elements_view(els@);
    let mut i: usize = 0;
    while i < els.len()
        invariant
            i <= els@.len(),
            view == elements_view(els@),
            forall|j: int| 0 <= j < i ==> !(#[trigger] view[j].0 == t && !valid_utf8(view[j].1)),
        decreases els@.len() - i,
    {
        if els[i].0 == t {
            match utf8_to_string(els[i].1.as_slice()) {
                None => {
                    proof {
                        assert(view[i as int].0 == t && !valid_utf8(view[i as int].1));
                    }
                    return true;
                },
                Some(_) => {},
            }
        }
        i = i + 1;
    }
    false
}

/// The outer element of a frame: its type and its body, or the malformed
/// error.
fn outer(wire: &[u8]) -> (r: Result<(u64, Vec<u8>), CustodianError>)
    ensures
        match tlv_parse(wire@) {
            None => r matches Err(e) && is_sign_failed(e, malformed_msg()),
            Some((typ, body, _)) => r matches Ok((t, b)) && t == typ && b@ == body,
        },
{
    assert(wire@.skip(0) =~= wire@);
    match read_tlv(wire, 0) {
        None => Err(sign_failed("malformed remote-signer frame: truncated or malformed element")),
        Some(sp) => Ok((sp.typ, slice_to_vec(wire, sp.value_start, sp.value_end))),
    }
}

/// The request id held by element `i`, whose value is eight bytes.
fn read_id(els: &Vec<(u64, Vec<u8>)>, i: usize) -> (r: u64)
    requires
        i < els@.len(),
        els@[i as int].0 == TLV_REQ_ID,
        !has_bad_len(elements_view(els@), TLV_REQ_ID, 8),
    ensures
        r == be_value(els@[i as int].1@) as u64,
{
    assert(elements_view(els@)[i as int].0 == TLV_REQ_ID);
    let v = els[i].1.as_slice();
    assert(v@.subrange(0, 8) =~= v@);
    read_be(v, 0, 8)
}

fn req_id_bytes(x: u64) -> (r: Vec<u8>)
    ensures
        r@ == be_bytes(x as nat, 8),
{
    let mut b: Vec<u8> = Vec::new();
    push_be(&mut b, x, 8);
    b
}

impl WireSignRequest {
    /// The frame.
    pub fn encode(&self) -> (r: Vec<u8>)
        ensures
            r@ == request_wire(self.req_id, self.region@),
    {
        let mut inner: Vec<u8> = Vec::new();
        write_tlv(&mut inner, TLV_REQ_ID, req_id_bytes(self.req_id).as_slice());
        write_tlv(&mut inner, TLV_REGION, self.region.as_slice());
        let mut out: Vec<u8> = Vec::new();
        write_tlv(&mut out, TLV_SIGN_REQUEST, inner.as_slice());
        proof {
            assert(out@ =~= request_wire(self.req_id, self.region@));
        }
        out
    }

    /// Read a frame.
    pub fn decode(wire: &[u8]) -> (r: Result<WireSignRequest, CustodianError>)
        ensures
            match request_decoding(wire@) {
                Ok((id, region)) => r matches Ok(q) && q.req_id == id && q.region@ == region,
                Err(m) => r matches Err(e) && is_sign_failed(e, m),
            },
    {
        let (typ, body) = match outer(wire) {
            Err(e) => return Err(e),
            Ok(x) => x,
        };
        if typ != TLV_SIGN_REQUEST {
            return Err(unexpected(typ, "SignRequest"));
        }
        let (els, bad) = split_elements(body.as_slice());
        if any_bad_len(&els, TLV_REQ_ID, 8) {
            return Err(sign_failed("ReqId must be 8 bytes"));
        }
        if bad {
            return Err(sign_failed("malformed remote-signer frame: truncated or malformed element"));
        }
        let req_id = match last_of(&els, TLV_REQ_ID) {
            None => return Err(missing("ReqId")),
            Some(i) => read_id(&els, i),
        };
        let region = match last_of(&els, TLV_REGION) {
            None => return Err(missing("Region")),
            Some(i) => slice_to_vec(els[i].1.as_slice(), 0, els[i].1.len()),
        };
        Ok(WireSignRequest { req_id, region })
    }
}

impl WireSignResponse {
    /// The request this response answers.
    pub fn req_id(&self) -> (r: u64)
        ensures
            r == match self@ {
                ResponseView::Approved { req_id, .. } => req_id,
                ResponseView::Denied { req_id } => req_id,
            },
    {
        match self {
            WireSignResponse::Approved { req_id, .. } => *req_id,
            WireSignResponse::Denied { req_id } => *req_id,
        }
    }

    /// The frame.
    pub fn encode(&self) -> (r: Vec<u8>)
        ensures
            r@ == response_wire(self@),
    {
        let mut inner: Vec<u8> = Vec::new();
        match self {
            WireSignResponse::Approved { req_id, signature } => {
                write_tlv(&mut inner, TLV_REQ_ID, req_id_bytes(*req_id).as_slice());
                write_tlv(&mut inner, TLV_STATUS, &[STATUS_APPROVED]);
                write_tlv(&mut inner, TLV_SIGNATURE, signature.as_slice());
            },
            WireSignResponse::Denied { req_id } => {
                write_tlv(&mut inner, TLV_REQ_ID, req_id_bytes(*req_id).as_slice());
                write_tlv(&mut inner, TLV_STATUS, &[STATUS_DENIED]);
            },
        }
        let mut out: Vec<u8> = Vec::new();
        write_tlv(&mut out, TLV_SIGN_RESPONSE, inner.as_slice());
        proof {
            assert(out@ =~= response_wire(self@));
        }
        out
    }

    /// Read a frame.
    pub fn decode(wire: &[u8]) -> (r: Result<WireSignResponse, CustodianError>)
        ensures
            match response_decoding(wire@) {
                Ok(v) => r matches Ok(q) && q@ == v,
                Err(m) => r matches Err(e) && is_sign_failed(e, m),
            },
    {
        let (typ, body) = match outer(wire) {
            Err(e) => return Err(e),
            Ok(x) => x,
        };
        if typ != TLV_SIGN_RESPONSE {
            return Err(unexpected(typ, "SignResponse"));
        }
        let (els, bad) = split_elements(body.as_slice());
        if any_bad_len(&els, TLV_REQ_ID, 8) {
            return Err(sign_failed("ReqId must be 8 bytes"));
        }
        if bad {
            return Err(sign_failed("malformed remote-signer frame: truncated or malformed element"));
        }
        let req_id = match last_of(&els, TLV_REQ_ID) {
            None => return Err(missing("ReqId")),
            Some(i) => read_id(&els, i),
        };
        let ghost view = elements_view(els@);
        let status = match last_of(&els, TLV_STATUS) {
            None => return Err(missing("Status")),
            Some(i) => {
                if els[i].1.len() == 0 {
                    assert(first_byte(last_value(view, TLV_STATUS)) is None);
                    return Err(missing("Status"));
                }
                assert(first_byte(last_value(view, TLV_STATUS)) == Some(els@[i as int].1@[0]));
                els[i].1[0]
            },
        };
        if status == STATUS_APPROVED {
            match last_of(&els, TLV_SIGNATURE) {
                None => Err(missing("Signature")),
                Some(i) => {
                    let signature = slice_to_vec(els[i].1.as_slice(), 0, els[i].1.len());
                    assert(signature@ =~= els@[i as int].1@);
                    Ok(WireSignResponse::Approved { req_id, signature })
                },
            }
        } else if status == STATUS_DENIED {
            Ok(WireSignResponse::Denied { req_id })
        } else {
            let mut m = string_from_static("bad status byte ");
            push_text(&mut m, u64_text(status as u64).as_str());
            assert(m@ == "bad status byte "@ + decimal_text(status as nat));
            Err(CustodianError::SignFailed(m))
        }
    }
}

impl PairingOffer {
    /// The QR or NFC payload.
    pub fn encode(&self) -> (r: Vec<u8>)
        ensures
            r@ == offer_wire(self.dashboard_pubkey@, self.transport_hint@, self.nonce@),
    {
        let mut inner: Vec<u8> = Vec::new();
        write_tlv(&mut inner, TLV_DASHBOARD_PUBKEY, self.dashboard_pubkey.as_slice());
        write_tlv(&mut inner, TLV_TRANSPORT_HINT, self.transport_hint.as_str().as_bytes());
        write_tlv(&mut inner, TLV_NONCE, self.nonce.as_slice());
        let mut out: Vec<u8> = Vec::new();
        write_tlv(&mut out, TLV_PAIRING_OFFER, inner.as_slice());
        proof {
            assert(out@ =~= offer_wire(self.dashboard_pubkey@, self.transport_hint@, self.nonce@));
        }
        out
    }

    /// Read a scanned payload.
    pub fn decode(wire: &[u8]) -> (r: Result<PairingOffer, CustodianError>)
        ensures
            match offer_decoding(wire@) {
                Ok((pk, hint, nonce)) => r matches Ok(o) && o.dashboard_pubkey@ == pk && o.transport_hint@ == hint
                    && o.nonce@ == nonce,
                Err(m) => r matches Err(e) && is_sign_failed(e, m),
            },
    {
        let (typ, body) = match outer(wire) {
            Err(e) => return Err(e),
            Ok(x) => x,
        };
        if typ != TLV_PAIRING_OFFER {
            return Err(unexpected(typ, "PairingOffer"));
        }
        let (els, bad) = split_elements(body.as_slice());
        if any_non_utf8(&els, TLV_TRANSPORT_HINT) {
            return Err(sign_failed("TransportHint is not UTF-8"));
        }
        if bad {
            return Err(sign_failed("malformed remote-signer frame: truncated or malformed element"));
        }
        let dashboard_pubkey = match last_of(&els, TLV_DASHBOARD_PUBKEY) {
            None => return Err(missing("DashboardPubKey")),
            Some(i) => slice_to_vec(els[i].1.as_slice(), 0, els[i].1.len()),
        };
        let transport_hint = match last_of(&els, TLV_TRANSPORT_HINT) {
            None => return Err(missing("TransportHint")),
            Some(i) => {
                proof {
                    assert(elements_view(els@)[i as int].0 == TLV_TRANSPORT_HINT);
                }
                match utf8_to_string(els[i].1.as_slice()) {
                    None => return Err(sign_failed("TransportHint is not UTF-8")),
                    Some(h) => h,
                }
            },
        };
        let nonce = match last_of(&els, TLV_NONCE) {
            None => return Err(missing("Nonce")),
            Some(i) => slice_to_vec(els[i].1.as_slice(), 0, els[i].1.len()),
        };
        Ok(PairingOffer { dashboard_pubkey, transport_hint, nonce })
    }
}

/// The requester side of the protocol over a channel: one request at a
/// time, each with a fresh request id, and each response checked against
/// its request.
#[derive(Debug, Clone, Copy, PartialEq, Eq)]
pub struct ChannelRemoteSigner {
    pub next_req_id: u64,
}

impl ChannelRemoteSigner {
    /// Request ids start at one.
    pub fn new() -> (r: ChannelRemoteSigner)
        ensures
            r.next_req_id == 1,
    {
        ChannelRemoteSigner { next_req_id: 1 }
    }

    /// The frame asking for a signature over `region`, under the next
    /// request id (the counter wraps around).
    pub fn next_request(&mut self, region: &[u8]) -> (r: WireSignRequest)
        ensures
            r.req_id == old(self).next_req_id,
            r.region@ == region@,
            final(self).next_req_id == (if old(self).next_req_id == u64::MAX {
                0
            } else {
                (old(self).next_req_id + 1) as u64
            }),
    {
        let req_id = self.next_req_id;
        self.next_req_id = self.next_req_id.wrapping_add(1);
        WireSignRequest { req_id, region: slice_to_vec(region, 0, region.len()) }
    }

    /// The signature carried by the response frame to request `req_id`: the
    /// frame must decode, answer this request, and approve it.
    pub fn accept_response(&self, req_id: u64, frame: &[u8]) -> (r: Result<Vec<u8>, CustodianError>)
        ensures
            match response_decoding(frame@) {
                Err(m) => r matches Err(e) && is_sign_failed(e, m),
                Ok(ResponseView::Approved { req_id: id, signature }) => if id != req_id {
                    r matches Err(e) && is_sign_failed(
                        e,
                        "response req_id "@ + decimal_text(id as nat) + " != request "@ + decimal_text(req_id as nat)
                            + " (channel desync)"@,
                    )
                } else {
                    r matches Ok(sig) && sig@ == signature
                },
                Ok(ResponseView::Denied { req_id: id }) => if id != req_id {
                    r matches Err(e) && is_sign_failed(
                        e,
                        "response req_id "@ + decimal_text(id as nat) + " != request "@ + decimal_text(req_id as nat)
                            + " (channel desync)"@,
                    )
                } else {
                    r matches Err(e) && is_sign_failed(e, "remote signer denied the request"@)
                },
            },
    {
        let resp = match WireSignResponse::decode(frame) {
            Err(e) => return Err(e),
            Ok(r) => r,
        };
        let got = resp.req_id();
        if got != req_id {
            let mut m = string_from_static("response req_id ");
            push_text(&mut m, u64_text(got).as_str());
            push_text(&mut m, " != request ");
            push_text(&mut m, u64_text(req_id).as_str());
            push_text(&mut m, " (channel desync)");
            return Err(CustodianError::SignFailed(m));
        }
        match resp {
            WireSignResponse::Approved { signature, .. } => Ok(signature),
            WireSignResponse::Denied { .. } => Err(sign_failed("remote signer denied the request")),
        }
    }
}

/// The signer side's answer to a request: approved with the signature when
/// the operator approved and the signature was made; denied otherwise, so
/// that the requester always gets a correlated reply.
pub fn respond_to(req: &WireSignRequest, approved: bool, signature: Option<Vec<u8>>) -> (r: WireSignResponse)
    ensures
        approved && signature is Some ==> r@ == (ResponseView::Approved {
            req_id: req.req_id,
            signature: signature.unwrap()@,
        }),
        !(approved && signature is Some) ==> r@ == (ResponseView::Denied { req_id: req.req_id }),
{
    if approved {
        match signature {
            Some(sig) => WireSignResponse::Approved { req_id: req.req_id, signature: sig },
            None => WireSignResponse::Denied { req_id: req.req_id },
        }
    } else {
        WireSignResponse::Denied { req_id: req.req_id }
    }
}

/// Reading a frame whose body holds exactly these elements.
proof fn lemma_frame_elements(t: u64, els: Seq<(u64, Seq<u8>)>)
    requires
        forall|i: int| 0 <= i < els.len() ==> #[trigger] els[i].1.len() <= u64::MAX,
        tlv_encode_all(els).len() <= u64::MAX,
    ensures
        tlv_parse(tlv_encode(t, tlv_encode_all(els))) matches Some((typ, body, _)) && typ == t && body
            == tlv_encode_all(els),
        elements_prefix(tlv_encode_all(els)) == (els, false),
{
    lemma_tlv_roundtrip(t, tlv_encode_all(els), Seq::empty());
    assert(tlv_encode(t, tlv_encode_all(els)) + Seq::<u8>::empty() =~= tlv_encode(t, tlv_encode_all(els)));
    lemma_elements_prefix_roundtrip(els);
}

proof fn lemma_encode_two(a: (u64, Seq<u8>), b: (u64, Seq<u8>))
    ensures
        tlv_encode_all(seq![a, b]) == tlv_encode(a.0, a.1) + tlv_encode(b.0, b.1),
{
    crate::envelope::lemma_encode_all_concat(seq![a], seq![b]);
    crate::envelope::lemma_encode_all_one(a.0, a.1);
    crate::envelope::lemma_encode_all_one(b.0, b.1);
    assert(seq![a] + seq![b] =~= seq![a, b]);
}

proof fn lemma_encode_three(a: (u64, Seq<u8>), b: (u64, Seq<u8>), c: (u64, Seq<u8>))
    ensures
        tlv_encode_all(seq![a, b, c]) == tlv_encode(a.0, a.1) + tlv_encode(b.0, b.1) + tlv_encode(c.0, c.1),
{
    crate::envelope::lemma_encode_all_concat(seq![a, b], seq![c]);
    crate::envelope::lemma_encode_all_one(c.0, c.1);
    lemma_encode_two(a, b);
    assert(seq![a, b] + seq![c] =~= seq![a, b, c]);
}

proof fn lemma_id_bytes(id: u64)
    ensures
        be_bytes(id as nat, 8).len() == 8,
        be_value(be_bytes(id as nat, 8)) as u64 == id,
{
    lemma_pow256_values();
    lemma_be_roundtrip(id as nat, 8);
}

/// Reading a request frame gives back the request.
#[verifier::spinoff_prover]
#[verifier::rlimit(60)]
pub proof fn lemma_request_roundtrip(req_id: u64, region: Seq<u8>)
    requires
        request_wire(req_id, region).len() <= u64::MAX,
    ensures
        request_decoding(request_wire(req_id, region)) == Ok::<(u64, Seq<u8>), Seq<char>>((req_id, region)),
{
    let a = (TLV_REQ_ID, be_bytes(req_id as nat, 8));
    let b = (TLV_REGION, region);
    let els = seq![a, b];
    lemma_id_bytes(req_id);
    lemma_encode_two(a, b);
    let inner = tlv_encode_all(els);
    assert(inner.len() <= request_wire(req_id, region).len());
    assert(region.len() <= inner.len());
    lemma_frame_elements(TLV_SIGN_REQUEST, els);
    assert(request_wire(req_id, region) == tlv_encode(TLV_SIGN_REQUEST, inner));
    assert(!has_bad_len(els, TLV_REQ_ID, 8));
    assert(els.drop_last() =~= seq![a]);
    assert(last_value(seq![a], TLV_REQ_ID) == Some(a.1));
    assert(last_value(els, TLV_REQ_ID) == Some(a.1));
    assert(last_value(els, TLV_REGION) == Some(region));
}

#[verifier::spinoff_prover]
#[verifier::rlimit(60)]
proof fn lemma_approved_roundtrip(req_id: u64, signature: Seq<u8>)
    requires
        response_wire(ResponseView::Approved { req_id, signature }).len() <= u64::MAX,
    ensures
        response_decoding(response_wire(ResponseView::Approved { req_id, signature })) == Ok::<ResponseView, Seq<char>>(
            ResponseView::Approved { req_id, signature },
        ),
{
    let a = (TLV_REQ_ID, be_bytes(req_id as nat, 8));
    let b = (TLV_STATUS, seq![STATUS_APPROVED]);
    let c = (TLV_SIGNATURE, signature);
    let els = seq![a, b, c];
    lemma_id_bytes(req_id);
    lemma_encode_three(a, b, c);
    let inner = tlv_encode_all(els);
    assert(signature.len() <= inner.len());
    lemma_frame_elements(TLV_SIGN_RESPONSE, els);
    assert(!has_bad_len(els, TLV_REQ_ID, 8));
    assert(els.drop_last() =~= seq![a, b]);
    assert(seq![a, b].drop_last() =~= seq![a]);
    assert(last_value(seq![a], TLV_REQ_ID) == Some(a.1));
    assert(last_value(seq![a, b], TLV_REQ_ID) == Some(a.1));
    assert(last_value(els, TLV_REQ_ID) == Some(a.1));
    assert(last_value(seq![a, b], TLV_STATUS) == Some(b.1));
    assert(last_value(els, TLV_STATUS) == Some(b.1));
    assert(last_value(els, TLV_SIGNATURE) == Some(signature));
    assert(first_byte(last_value(els, TLV_STATUS)) == Some(STATUS_APPROVED));
}

#[verifier::spinoff_prover]
#[verifier::rlimit(60)]
proof fn lemma_denied_roundtrip(req_id: u64)
    requires
        response_wire(ResponseView::Denied { req_id }).len() <= u64::MAX,
    ensures
        response_decoding(response_wire(ResponseView::Denied { req_id })) == Ok::<ResponseView, Seq<char>>(
            ResponseView::Denied { req_id },
        ),
{
    let a = (TLV_REQ_ID, be_bytes(req_id as nat, 8));
    let b = (TLV_STATUS, seq![STATUS_DENIED]);
    let els = seq![a, b];
    lemma_id_bytes(req_id);
    lemma_encode_two(a, b);
    assert(tlv_encode_all(els).len() <= response_wire(ResponseView::Denied { req_id }).len());
    lemma_frame_elements(TLV_SIGN_RESPONSE, els);
    assert(!has_bad_len(els, TLV_REQ_ID, 8));
    assert(els.drop_last() =~= seq![a]);
    assert(last_value(seq![a], TLV_REQ_ID) == Some(a.1));
    assert(last_value(els, TLV_REQ_ID) == Some(a.1));
    assert(last_value(els, TLV_STATUS) == Some(b.1));
}

/// Reading a response frame gives back the response.
pub proof fn lemma_response_roundtrip(r: ResponseView)
    requires
        response_wire(r).len() <= u64::MAX,
    ensures
        response_decoding(response_wire(r)) == Ok::<ResponseView, Seq<char>>(r),
{
    match r {
        ResponseView::Approved { req_id, signature } => lemma_approved_roundtrip(req_id, signature),
        ResponseView::Denied { req_id } => lemma_denied_roundtrip(req_id),
    }
}

/// Reading a pairing offer gives back the offer.
#[verifier::spinoff_prover]
#[verifier::rlimit(60)]
pub proof fn lemma_offer_roundtrip(pubkey: Seq<u8>, hint: Seq<char>, nonce: Seq<u8>)
    requires
        offer_wire(pubkey, hint, nonce).len() <= u64::MAX,
    ensures
        offer_decoding(offer_wire(pubkey, hint, nonce)) == Ok::<(Seq<u8>, Seq<char>, Seq<u8>), Seq<char>>(
            (pubkey, hint, nonce),
        ),
{
    let hb = crate::text::utf8_bytes(hint);
    let a = (TLV_DASHBOARD_PUBKEY, pubkey);
    let b = (TLV_TRANSPORT_HINT, hb);
    let c = (TLV_NONCE, nonce);
    let els = seq![a, b, c];
    lemma_encode_three(a, b, c);
    let inner = tlv_encode_all(els);
    assert(pubkey.len() <= inner.len());
    assert(hb.len() <= inner.len());
    assert(nonce.len() <= inner.len());
    lemma_frame_elements(TLV_PAIRING_OFFER, els);
    assert(offer_wire(pubkey, hint, nonce) == tlv_encode(TLV_PAIRING_OFFER, inner));
    crate::text::lemma_utf8_roundtrip(hint);
    assert(!has_non_utf8(els, TLV_TRANSPORT_HINT));
    assert(els.drop_last() =~= seq![a, b]);
    assert(seq![a, b].drop_last() =~= seq![a]);
    assert(last_value(seq![a], TLV_DASHBOARD_PUBKEY) == Some(pubkey));
    assert(last_value(seq![a, b], TLV_DASHBOARD_PUBKEY) == Some(pubkey));
    assert(last_value(els, TLV_DASHBOARD_PUBKEY) == Some(pubkey));
    assert(last_value(seq![a, b], TLV_TRANSPORT_HINT) == Some(hb));
    assert(last_value(els, TLV_TRANSPORT_HINT) == Some(hb));
    assert(last_value(els, TLV_NONCE) == Some(nonce));
}

} // verus!
