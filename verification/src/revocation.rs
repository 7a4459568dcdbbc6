//! Revocation records: a signed statement that a key is revoked as of a
//! time, for a reason. The most defensible form is a self-revocation, where
//! the key signs its own revocation.

use vstd::prelude::*;

use crate::crypto::{ed25519_accepts, ed25519_public_key, ed25519_signature};
use crate::framing::{
    blob_field, get_blob, get_name, get_text, get_u64, lemma_take_blob, lemma_take_name, lemma_take_text,
    lemma_take_u64, name_field, put_blob, put_name, put_text, put_u64, take_blob, take_name, take_text, take_u64,
    text_field, u64_field,
};
use crate::name::{ComponentView, Name};
use crate::name_uri::spec_uri_text;
use crate::signer::{signature_verdict, verify_by_sig_type, Ed25519Signer, SIGNATURE_TYPE_ED25519};
use crate::text::utf8_bytes;

verus! {

/// Why a revocation record failed to decode or verify.
#[derive(Debug, Clone, Copy, PartialEq, Eq, Structural)]
pub enum RevocationError {
    /// Truncated or mis-framed wire.
    Malformed,
    /// The signature does not verify under the provided key.
    SignatureInvalid,
}

/// A signed revocation.
#[derive(Debug, Clone, PartialEq, Eq)]
pub struct RevocationRecord {
    /// The key or certificate name being revoked.
    pub revoked: Name,
    /// Human-readable reason (`compromised`, `lost`, `superseded`, ...).
    pub reason: String,
    /// When the revocation takes effect, milliseconds since the epoch.
    pub revoked_at_ms: u64,
    /// The key that signed the record.
    pub key_locator: Name,
    /// The signature type code of `sig_value`.
    pub sig_type: u64,
    /// The signature over the signed region.
    pub sig_value: Vec<u8>,
}

/// A revocation record as plain values.
pub struct RevocationView {
    pub revoked: Seq<ComponentView>,
    pub reason: Seq<char>,
    pub revoked_at_ms: u64,
    pub key_locator: Seq<ComponentView>,
    pub sig_type: u64,
    pub sig_value: Seq<u8>,
}

impl View for RevocationRecord {
    type V = RevocationView;

    open spec fn view(&self) -> RevocationView {
        RevocationView {
            revoked: self.revoked@,
            reason: self.reason@,
            revoked_at_ms: self.revoked_at_ms,
            key_locator: self.key_locator@,
            sig_type: self.sig_type,
            sig_value: self.sig_value@,
        }
    }
}

/// The signed region: revoked name, reason, time, key locator and signature
/// type, each framed.
pub open spec fn revocation_region(v: RevocationView) -> Seq<u8> {
    name_field(v.revoked) + text_field(v.reason) + u64_field(v.revoked_at_ms) + name_field(v.key_locator) + u64_field(
        v.sig_type,
    )
}

/// The transmitted record: the signed region, then the framed signature.
pub open spec fn revocation_wire(v: RevocationView) -> Seq<u8> {
    revocation_region(v) + blob_field(v.sig_value)
}

/// Reading a record back; trailing bytes are ignored.
pub open spec fn revocation_decoding(s: Seq<u8>) -> Option<RevocationView> {
    match take_name(s, 0) {
        None => None,
        Some((revoked, p1)) => match take_text(s, p1) {
            None => None,
            Some((reason, p2)) => match take_u64(s, p2) {
                None => None,
                Some((revoked_at_ms, p3)) => match take_name(s, p3) {
                    None => None,
                    Some((key_locator, p4)) => match take_u64(s, p4) {
                        None => None,
                        Some((sig_type, p5)) => match take_blob(s, p5) {
                            None => None,
                            Some((sig_value, _)) => Some(
                                RevocationView { revoked, reason, revoked_at_ms, key_locator, sig_type, sig_value },
                            ),
                        },
                    },
                },
            },
        },
    }
}

/// The field texts are short enough for their length prefixes.
pub open spec fn revocation_fits(v: RevocationView) -> bool {
    &&& utf8_bytes(spec_uri_text(v.revoked)).len() <= u64::MAX
    &&& utf8_bytes(v.reason).len() <= u64::MAX
    &&& utf8_bytes(spec_uri_text(v.key_locator)).len() <= u64::MAX
    &&& v.sig_value.len() <= u64::MAX
}

impl RevocationRecord {
    /// The key of `signer` revokes itself: the revoked name and the key
    /// locator are both its key name, and the record carries its Ed25519
    /// signature, which its own public key accepts.
    pub fn self_revoke(signer: &Ed25519Signer, reason: String, revoked_at_ms: u64) -> (r: RevocationRecord)
        ensures
            r.revoked@ == signer.key_name_of()@,
            r.key_locator@ == signer.key_name_of()@,
            r.reason@ == reason@,
            r.revoked_at_ms == revoked_at_ms,
            r.sig_type == SIGNATURE_TYPE_ED25519,
            r.sig_value@ == ed25519_signature(signer.seed_view(), revocation_region(r@)),
            signature_verdict(r.sig_type, revocation_region(r@), r.sig_value@, ed25519_public_key(signer.seed_view()))
                == Ok::<bool, Seq<char>>(true),
    {
        let key = signer.key_name().copy();
        let key2 = signer.key_name().copy();
        let mut rec = RevocationRecord {
            revoked: key,
            reason,
            revoked_at_ms,
            key_locator: key2,
            sig_type: signer.sig_type(),
            sig_value: Vec::new(),
        };
        let region = rec.canonical_bytes();
        rec.sig_value = signer.sign_sync(region.as_slice());
        proof {
            assert(revocation_region(rec@) == region@);
        }
        rec
    }

    /// Whether the signing key revoked itself.
    pub fn is_self_revocation(&self) -> (r: bool)
        ensures
            r == (self.revoked@ == self.key_locator@),
    {
        self.revoked.same_as(&self.key_locator)
    }

    /// Check the signature against the signer's public key (which the
    /// caller resolved from `key_locator`). Whether the signer may revoke a
    /// name other than its own is the caller's decision.
    pub fn verify(&self, signer_public_key: &[u8]) -> (r: Result<(), RevocationError>)
        ensures
            r is Ok <==> signature_verdict(self.sig_type, revocation_region(self@), self.sig_value@, signer_public_key@)
                == Ok::<bool, Seq<char>>(true),
            r matches Err(e) ==> e == RevocationError::SignatureInvalid,
    {
        let region = self.canonical_bytes();
        match verify_by_sig_type(self.sig_type, region.as_slice(), self.sig_value.as_slice(), signer_public_key) {
            Ok(true) => Ok(()),
            _ => Err(RevocationError::SignatureInvalid),
        }
    }

    /// The signed region.
    pub fn canonical_bytes(&self) -> (r: Vec<u8>)
        ensures
            r@ == revocation_region(self@),
    {
        let mut out: Vec<u8> = Vec::new();
        put_name(&mut out, &self.revoked);
        put_text(&mut out, self.reason.as_str());
        put_u64(&mut out, self.revoked_at_ms);
        put_name(&mut out, &self.key_locator);
        put_u64(&mut out, self.sig_type);
        proof {
            assert(out@ =~= revocation_region(self@));
        }
        out
    }

    /// The record to transmit.
    pub fn encode(&self) -> (r: Vec<u8>)
        ensures
            r@ == revocation_wire(self@),
    {
        let mut out = self.canonical_bytes();
        put_blob(&mut out, self.sig_value.as_slice());
        out
    }

    /// Read a record written by [`RevocationRecord::encode`]; it is still
    /// unverified.
    #[verifier::spinoff_prover]
    pub fn decode(wire: &[u8]) -> (r: Result<RevocationRecord, RevocationError>)
        ensures
            match revocation_decoding(wire@) {
                None => r == Err::<RevocationRecord, RevocationError>(RevocationError::Malformed),
                Some(v) => r matches Ok(rec) && rec@ == v,
            },
    {
        let (revoked, p1) = match get_name(wire, 0) {
            None => return Err(RevocationError::Malformed),
            Some(x) => x,
        };
        assert(take_name(wire@, 0) == Some((revoked@, p1 as int)));
        let (reason, p2) = match get_text(wire, p1) {
            None => return Err(RevocationError::Malformed),
            Some(x) => x,
        };
        assert(take_text(wire@, p1 as int) == Some((reason@, p2 as int)));
        let (revoked_at_ms, p3) = match get_u64(wire, p2) {
            None => return Err(RevocationError::Malformed),
            Some(x) => x,
        };
        assert(take_u64(wire@, p2 as int) == Some((revoked_at_ms, p3 as int)));
        let (key_locator, p4) = match get_name(wire, p3) {
            None => return Err(RevocationError::Malformed),
            Some(x) => x,
        };
        assert(take_name(wire@, p3 as int) == Some((key_locator@, p4 as int)));
        let (sig_type, p5) = match get_u64(wire, p4) {
            None => return Err(RevocationError::Malformed),
            Some(x) => x,
        };
        assert(take_u64(wire@, p4 as int) == Some((sig_type, p5 as int)));
        let (start, end) = match get_blob(wire, p5) {
            None => return Err(RevocationError::Malformed),
            Some(x) => x,
        };
        let sig_value = crate::tlv::slice_to_vec(wire, start, end);
        Ok(RevocationRecord { revoked, reason, revoked_at_ms, key_locator, sig_type, sig_value })
    }
}

/// Decoding an encoded record gives the record back.
#[verifier::spinoff_prover]
#[verifier::rlimit(60)]
pub proof fn lemma_revocation_roundtrip(v: RevocationView)
    requires
        revocation_fits(v),
    ensures
        revocation_decoding(revocation_wire(v)) == Some(v),
{
    let a = name_field(v.revoked);
    let b = text_field(v.reason);
    let c = u64_field(v.revoked_at_ms);
    let d = name_field(v.key_locator);
    let e = u64_field(v.sig_type);
    let f = blob_field(v.sig_value);
    let s = revocation_wire(v);
    crate::tlv::lemma_be_bytes_len(utf8_bytes(spec_uri_text(v.revoked)).len(), 8);
    crate::tlv::lemma_be_bytes_len(utf8_bytes(v.reason).len(), 8);
    crate::tlv::lemma_be_bytes_len(v.revoked_at_ms as nat, 8);
    crate::tlv::lemma_be_bytes_len(utf8_bytes(spec_uri_text(v.key_locator)).len(), 8);
    crate::tlv::lemma_be_bytes_len(v.sig_type as nat, 8);
    crate::tlv::lemma_be_bytes_len(v.sig_value.len(), 8);
    assert(s =~= a + b + c + d + e + f);
    let p1 = a.len() as int;
    let p2 = p1 + b.len();
    let p3 = p2 + 8;
    let p4 = p3 + d.len();
    let p5 = p4 + 8;
    assert(s.subrange(0, p1) =~= a);
    lemma_take_name(s, 0, v.revoked);
    assert(s.subrange(p1, p2) =~= b);
    lemma_take_text(s, p1, v.reason);
    assert(s.subrange(p2, p3) =~= c);
    lemma_take_u64(s, p2, v.revoked_at_ms);
    assert(s.subrange(p3, p4) =~= d);
    lemma_take_name(s, p3, v.key_locator);
    assert(s.subrange(p4, p5) =~= e);
    lemma_take_u64(s, p4, v.sig_type);
    assert(s.subrange(p5, p5 + 8 + v.sig_value.len()) =~= f);
    lemma_take_blob(s, p5, v.sig_value);
}

} // verus!
