//! Wire containers of the attribute-based encryption layer: the versioned
//! `AbeCiphertext` container and the published `PolicyBlockPayload`.
//!
//! ```text
//! ABE_CIPHERTEXT_TYPE(260) {
//!   schema_version: u16 big-endian (2 raw bytes, no inner T-L wrapper)
//!   ABE_SCHEME_ID_TYPE(262)     { u8 disc }
//!   ABE_POLICY_SOURCE_TYPE(264) { utf-8 bytes }
//!   ABE_ATTRIBUTES_TYPE(282) { ABE_ATTRIBUTE_TYPE(284)* { utf-8 bytes } }
//!   ABE_KGC_REFS_TYPE(266) {
//!     ABE_KGC_REF_TYPE(268)* {
//!       Name TLV (type 7) -- kgc_did, written raw
//!       ABE_MASTER_PARAMS_HASH_TYPE(272) { 32 bytes }
//!     }
//!   }
//!   ABE_CIPHERTEXT_BLOB_TYPE(274) { scheme ciphertext bytes }
//! }
//! ```
//!
//! The policy block has the same layout under type 276, without the
//! attributes and the blob.

use vstd::prelude::*;
use vstd::utf8::{decode_utf8, valid_utf8};


use crate::name::{ComponentView, Name, TLV_NAME};
use crate::text::{utf8_bytes, utf8_to_string};
use crate::tlv::{
    append_bytes, be_bytes, be_value, expect_tlv, lemma_expect_encoded, lemma_pow256_values,
    push_be, read_be, read_expected, slice_to_vec, tlv_elements, tlv_encode, tlv_encode_all,
    write_tlv, TlvCodecError,
};

verus! {

/// Outer `AbeCiphertext` TLV envelope.
pub const ABE_CIPHERTEXT_TYPE: u64 = 260;
/// `AbeSchemeId` discriminant byte.
pub const ABE_SCHEME_ID_TYPE: u64 = 262;
/// `policy_source` UTF-8 string.
pub const ABE_POLICY_SOURCE_TYPE: u64 = 264;
/// `kgc_refs` list envelope.
pub const ABE_KGC_REFS_TYPE: u64 = 266;
/// Individual `KgcRef` envelope.
pub const ABE_KGC_REF_TYPE: u64 = 268;
/// `kgc_did` Name bytes (within KgcRef).
pub const ABE_KGC_DID_TYPE: u64 = 270;
/// `master_params_hash` 32-byte SHA-256 (within KgcRef).
pub const ABE_MASTER_PARAMS_HASH_TYPE: u64 = 272;
/// The scheme's serialized ciphertext.
pub const ABE_CIPHERTEXT_BLOB_TYPE: u64 = 274;
/// Outer `PolicyBlockPayload` TLV envelope.
pub const ABE_POLICY_BLOCK_TYPE: u64 = 276;
/// Global key bytes inside a multi-authority context.
pub const ABE_AW11_GLOBAL_KEY_TYPE: u64 = 278;
/// Public key bytes for one authority.
pub const ABE_AW11_PUB_KEY_TYPE: u64 = 280;
/// Ciphertext-side attribute list envelope (KP-ABE).
pub const ABE_ATTRIBUTES_TYPE: u64 = 282;
/// One ciphertext-side attribute (UTF-8).
pub const ABE_ATTRIBUTE_TYPE: u64 = 284;

/// Current schema version of the ciphertext container.
pub const CIPHERTEXT_SCHEMA_VERSION: u16 = 2;
/// Current schema version of the policy block.
pub const POLICY_BLOCK_SCHEMA_VERSION: u16 = 1;
/// Largest scheme ciphertext accepted for decryption (1 MiB).
pub const MAX_RABE_BLOB: usize = 1048576;

/// ABE scheme discriminator.
#[derive(Debug, Clone, Copy, PartialEq, Eq, Hash, Structural)]
pub enum AbeSchemeId {
    /// Bethencourt-Sahai-Waters CP-ABE (single-authority).
    BSW,
    /// Lewko-Waters MA-ABE (multi-authority).
    LewkoWaters,
    /// Lewko-Sahai-Waters KP-ABE (single-authority, key-policy).
    KpAbe,
}

pub open spec fn scheme_disc(s: AbeSchemeId) -> u8 {
    match s {
        AbeSchemeId::BSW => 1,
        AbeSchemeId::LewkoWaters => 2,
        AbeSchemeId::KpAbe => 3,
    }
}

pub open spec fn scheme_of_disc(b: u8) -> Option<AbeSchemeId> {
    if b == 1 {
        Some(AbeSchemeId::BSW)
    } else if b == 2 {
        Some(AbeSchemeId::LewkoWaters)
    } else if b == 3 {
        Some(AbeSchemeId::KpAbe)
    } else {
        None
    }
}

impl AbeSchemeId {
    pub fn wire_disc(self) -> (r: u8)
        ensures
            r == scheme_disc(self),
    {
        match self {
            AbeSchemeId::BSW => 1,
            AbeSchemeId::LewkoWaters => 2,
            AbeSchemeId::KpAbe => 3,
        }
    }

    pub fn from_wire_disc(b: u8) -> (r: Option<AbeSchemeId>)
        ensures
            r == scheme_of_disc(b),
    {
        if b == 1 {
            Some(AbeSchemeId::BSW)
        } else if b == 2 {
            Some(AbeSchemeId::LewkoWaters)
        } else if b == 3 {
            Some(AbeSchemeId::KpAbe)
        } else {
            None
        }
    }
}

/// Errors from the ABE layer.
#[derive(Debug, Clone, PartialEq, Eq)]
pub enum AbeError {
    /// Policy string failed to parse.
    PolicyParse(String),
    /// The ABE scheme reported an error.
    SchemeError(String),
    /// Decryption failed: policy not satisfied or wrong attribute keys.
    DecryptionFailed,
    /// Attribute keys are expired or missing for the named attribute.
    KeysExpiredOrMissing(String),
    /// The scheme is not supported by this build.
    UnsupportedScheme(AbeSchemeId),
    /// The ciphertext carries an unsupported schema version.
    UnsupportedCiphertextVersion(u16),
    /// The ciphertext bytes are malformed.
    CiphertextMalformed(String),
    /// Serialization or deserialization of scheme types failed.
    Serialization(String),
    /// A multi-authority policy was given to a single-authority function.
    MultiAuthorityNotSupported,
}

/// Reference to a KGC and its master parameters.
#[derive(Debug, Clone, PartialEq, Eq)]
pub struct KgcRef {
    /// KGC identity (an NDN name).
    pub kgc_did: Name,
    /// SHA-256 hash of the KGC's published master-params payload.
    pub master_params_hash: crate::digest::Hash,
}

/// A KGC reference as plain values: the name and the 32 hash bytes.
pub type KgcRefView = (Seq<ComponentView>, Seq<u8>);

impl View for KgcRef {
    type V = KgcRefView;

    open spec fn view(&self) -> KgcRefView {
        (self.kgc_did@, self.master_params_hash.0@)
    }
}

/// Versioned TLV container for an ABE ciphertext.
#[derive(Debug, Clone, PartialEq, Eq)]
pub struct AbeCiphertext {
    /// Schema version. Must equal [`CIPHERTEXT_SCHEMA_VERSION`] to decode.
    pub schema_version: u16,
    /// The ABE scheme that produced this ciphertext.
    pub scheme: AbeSchemeId,
    /// The access selector: the policy expression for CP-ABE/MA-ABE, empty
    /// for KP-ABE.
    pub policy_source: String,
    /// The ciphertext-side attribute set for KP-ABE (empty for CP/MA). Not
    /// bound to the scheme ciphertext: a display and locator hint only.
    pub attributes: Vec<String>,
    /// KGC references.
    pub kgc_refs: Vec<KgcRef>,
    /// The scheme's serialized ciphertext.
    pub rabe_ciphertext_bytes: Vec<u8>,
}

pub struct CiphertextModel {
    pub schema_version: u16,
    pub scheme: AbeSchemeId,
    pub policy_source: Seq<char>,
    pub attributes: Seq<Seq<char>>,
    pub kgc_refs: Seq<KgcRefView>,
    pub blob: Seq<u8>,
}

impl View for AbeCiphertext {
    type V = CiphertextModel;

    open spec fn view(&self) -> CiphertextModel {
        CiphertextModel {
            schema_version: self.schema_version,
            scheme: self.scheme,
            policy_source: self.policy_source@,
            attributes: self.attributes@.map_values(|s: String| s@),
            kgc_refs: self.kgc_refs@.map_values(|r: KgcRef| r@),
            blob: self.rabe_ciphertext_bytes@,
        }
    }
}

/// Published descriptor naming the policy and the KGC(s) required to encrypt
/// under it.
#[derive(Debug, Clone, PartialEq, Eq)]
pub struct PolicyBlockPayload {
    /// Schema version; must equal [`POLICY_BLOCK_SCHEMA_VERSION`] to decode.
    pub schema_version: u16,
    /// ABE scheme that must be used for encryption under this policy.
    pub scheme: AbeSchemeId,
    /// Canonical policy expression string.
    pub policy_source: String,
    /// KGC(s) whose master params are required to encrypt under this policy.
    pub kgc_refs: Vec<KgcRef>,
}

pub struct PolicyBlockModel {
    pub schema_version: u16,
    pub scheme: AbeSchemeId,
    pub policy_source: Seq<char>,
    pub kgc_refs: Seq<KgcRefView>,
}

impl View for PolicyBlockPayload {
    type V = PolicyBlockModel;

    open spec fn view(&self) -> PolicyBlockModel {
        PolicyBlockModel {
            schema_version: self.schema_version,
            scheme: self.scheme,
            policy_source: self.policy_source@,
            kgc_refs: self.kgc_refs@.map_values(|r: KgcRef| r@),
        }
    }
}

// ---------------------------------------------------------------------------
// The wire form
// ---------------------------------------------------------------------------

pub open spec fn kgc_ref_value(r: KgcRefView) -> Seq<u8> {
    tlv_encode(TLV_NAME, tlv_encode_all(r.0)) + tlv_encode(ABE_MASTER_PARAMS_HASH_TYPE, r.1)
}

pub open spec fn kgc_refs_value(refs: Seq<KgcRefView>) -> Seq<u8> {
    tlv_encode_all(refs.map_values(|r: KgcRefView| (ABE_KGC_REF_TYPE, kgc_ref_value(r))))
}

pub open spec fn attributes_value(attrs: Seq<Seq<char>>) -> Seq<u8> {
    tlv_encode_all(attrs.map_values(|a: Seq<char>| (ABE_ATTRIBUTE_TYPE, utf8_bytes(a))))
}

/// The value of the ciphertext container.
pub open spec fn ciphertext_value(m: CiphertextModel) -> Seq<u8> {
    be_bytes(m.schema_version as nat, 2) + tlv_encode(ABE_SCHEME_ID_TYPE, seq![scheme_disc(m.scheme)])
        + tlv_encode(ABE_POLICY_SOURCE_TYPE, utf8_bytes(m.policy_source)) + tlv_encode(
        ABE_ATTRIBUTES_TYPE,
        attributes_value(m.attributes),
    ) + tlv_encode(ABE_KGC_REFS_TYPE, kgc_refs_value(m.kgc_refs)) + tlv_encode(
        ABE_CIPHERTEXT_BLOB_TYPE,
        m.blob,
    )
}

/// The value of the policy block.
pub open spec fn policy_block_value(m: PolicyBlockModel) -> Seq<u8> {
    be_bytes(m.schema_version as nat, 2) + tlv_encode(ABE_SCHEME_ID_TYPE, seq![scheme_disc(m.scheme)])
        + tlv_encode(ABE_POLICY_SOURCE_TYPE, utf8_bytes(m.policy_source)) + tlv_encode(
        ABE_KGC_REFS_TYPE,
        kgc_refs_value(m.kgc_refs),
    )
}

// ---------------------------------------------------------------------------
// Reading the wire form
// ---------------------------------------------------------------------------

/// Read one KGC reference from the value of its envelope. Bytes after the
/// hash are ignored.
pub open spec fn kgc_ref_decoding(v: Seq<u8>) -> Result<KgcRefView, TlvCodecError> {
    match expect_tlv(v, TLV_NAME) {
        Err(e) => Err(e),
        Ok((nv, n)) => match tlv_elements(nv) {
            None => Err(TlvCodecError::MalformedField(TLV_NAME)),
            Some(name) => match expect_tlv(v.skip(n as int), ABE_MASTER_PARAMS_HASH_TYPE) {
                Err(e) => Err(e),
                Ok((h, _)) => if h.len() != 32 {
                    Err(TlvCodecError::MalformedField(ABE_MASTER_PARAMS_HASH_TYPE))
                } else {
                    Ok((name, h))
                },
            },
        },
    }
}

/// Read the KGC reference list (the value of its envelope).
pub open spec fn kgc_refs_decoding(s: Seq<u8>) -> Result<Seq<KgcRefView>, TlvCodecError>
    decreases s.len(),
{
    if s.len() == 0 {
        Ok(Seq::empty())
    } else {
        match expect_tlv(s, ABE_KGC_REF_TYPE) {
            Err(e) => Err(e),
            Ok((v, n)) => if n == 0 || n > s.len() {
                Err(TlvCodecError::Truncated)
            } else {
                match kgc_ref_decoding(v) {
                    Err(e) => Err(e),
                    Ok(r) => match kgc_refs_decoding(s.skip(n as int)) {
                        Err(e) => Err(e),
                        Ok(rest) => Ok(seq![r] + rest),
                    },
                }
            },
        }
    }
}

/// Read the attribute list (the value of its envelope).
pub open spec fn attributes_decoding(s: Seq<u8>) -> Result<Seq<Seq<char>>, TlvCodecError>
    decreases s.len(),
{
    if s.len() == 0 {
        Ok(Seq::empty())
    } else {
        match expect_tlv(s, ABE_ATTRIBUTE_TYPE) {
            Err(e) => Err(e),
            Ok((v, n)) => if n == 0 || n > s.len() {
                Err(TlvCodecError::Truncated)
            } else if !valid_utf8(v) {
                Err(TlvCodecError::MalformedField(ABE_ATTRIBUTE_TYPE))
            } else {
                match attributes_decoding(s.skip(n as int)) {
                    Err(e) => Err(e),
                    Ok(rest) => Ok(seq![decode_utf8(v)] + rest),
                }
            },
        }
    }
}

/// The header common to both containers: the version, the scheme and the
/// policy text, with the bytes they take.
pub open spec fn header_decoding(s: Seq<u8>) -> Result<(u16, AbeSchemeId, Seq<char>, nat), TlvCodecError> {
    if s.len() < 2 {
        Err(TlvCodecError::Truncated)
    } else {
        let sv = be_value(s.take(2)) as u16;
        match expect_tlv(s.skip(2), ABE_SCHEME_ID_TYPE) {
            Err(e) => Err(e),
            Ok((d, n1)) => if d.len() == 0 {
                Err(TlvCodecError::MalformedField(ABE_SCHEME_ID_TYPE))
            } else {
                match scheme_of_disc(d[0]) {
                    None => Err(TlvCodecError::UnrecognizedVariant(d[0])),
                    Some(scheme) => match expect_tlv(s.skip(2 + n1 as int), ABE_POLICY_SOURCE_TYPE) {
                        Err(e) => Err(e),
                        Ok((p, n2)) => if !valid_utf8(p) {
                            Err(TlvCodecError::MalformedField(ABE_POLICY_SOURCE_TYPE))
                        } else {
                            Ok((sv, scheme, decode_utf8(p), (2 + n1 + n2) as nat))
                        },
                    },
                }
            },
        }
    }
}

/// What decoding the fields after the attributes of a ciphertext
/// container gives: its KGC references and its blob.
pub open spec fn ciphertext_tail_decoding(
    sv: u16,
    scheme: AbeSchemeId,
    policy: Seq<char>,
    attrs: Seq<Seq<char>>,
    s2: Seq<u8>,
) -> Result<CiphertextModel, TlvCodecError> {
    match expect_tlv(s2, ABE_KGC_REFS_TYPE) {
        Err(e) => Err(e),
        Ok((rv, n2)) => match kgc_refs_decoding(rv) {
            Err(e) => Err(e),
            Ok(refs) => match expect_tlv(s2.skip(n2 as int), ABE_CIPHERTEXT_BLOB_TYPE) {
                Err(e) => Err(e),
                Ok((blob, _)) => Ok(
                    CiphertextModel { schema_version: sv, scheme, policy_source: policy, attributes: attrs, kgc_refs: refs, blob },
                ),
            },
        },
    }
}

/// What decoding the fields after the header of a ciphertext container
/// gives. Bytes after the blob are ignored.
pub open spec fn ciphertext_fields_decoding(
    sv: u16,
    scheme: AbeSchemeId,
    policy: Seq<char>,
    s1: Seq<u8>,
) -> Result<CiphertextModel, TlvCodecError> {
    match expect_tlv(s1, ABE_ATTRIBUTES_TYPE) {
        Err(e) => Err(e),
        Ok((av, n1)) => match attributes_decoding(av) {
            Err(e) => Err(e),
            Ok(attrs) => ciphertext_tail_decoding(sv, scheme, policy, attrs, s1.skip(n1 as int)),
        },
    }
}

/// What decoding the value of a ciphertext container gives.
pub open spec fn ciphertext_decoding(s: Seq<u8>) -> Result<CiphertextModel, TlvCodecError> {
    if s.len() >= 2 && be_value(s.take(2)) != CIPHERTEXT_SCHEMA_VERSION {
        Err(TlvCodecError::UnrecognizedVariant((be_value(s.take(2)) % 256) as u8))
    } else {
        match header_decoding(s) {
            Err(e) => Err(e),
            Ok((sv, scheme, policy, n0)) => ciphertext_fields_decoding(sv, scheme, policy, s.skip(n0 as int)),
        }
    }
}

/// What decoding the value of a policy block gives.
pub open spec fn policy_block_decoding(s: Seq<u8>) -> Result<PolicyBlockModel, TlvCodecError> {
    if s.len() >= 2 && be_value(s.take(2)) != POLICY_BLOCK_SCHEMA_VERSION {
        Err(TlvCodecError::UnrecognizedVariant((be_value(s.take(2)) % 256) as u8))
    } else {
        match header_decoding(s) {
            Err(e) => Err(e),
            Ok((sv, scheme, policy, n0)) => match expect_tlv(s.skip(n0 as int), ABE_KGC_REFS_TYPE) {
                Err(e) => Err(e),
                Ok((rv, _)) => match kgc_refs_decoding(rv) {
                    Err(e) => Err(e),
                    Ok(refs) => Ok(
                        PolicyBlockModel { schema_version: sv, scheme, policy_source: policy, kgc_refs: refs },
                    ),
                },
            },
        }
    }
}

/// What decoding a whole container (its outer TLV of type `typ`) gives:
/// the value, if the element is there.
pub open spec fn outer_value(b: Seq<u8>, typ: u64) -> Result<Seq<u8>, TlvCodecError> {
    match expect_tlv(b, typ) {
        Err(e) => Err(e),
        Ok((v, _)) => Ok(v),
    }
}

// ---------------------------------------------------------------------------
// Writing
// ---------------------------------------------------------------------------

proof fn lemma_push_encoded(before: Seq<u8>, els: Seq<(u64, Seq<u8>)>, t: u64, v: Seq<u8>)
    ensures
        before + tlv_encode_all(els) + tlv_encode(t, v) == before + tlv_encode_all(els.push((t, v))),
{
    crate::envelope::lemma_encode_all_concat(els, seq![(t, v)]);
    crate::envelope::lemma_encode_all_one(t, v);
    assert(els + seq![(t, v)] =~= els.push((t, v)));
    assert(before + tlv_encode_all(els) + tlv_encode(t, v) =~= before + (tlv_encode_all(els)
        + tlv_encode(t, v)));
}

impl KgcRef {
    /// The value of this reference's envelope.
    pub fn encode_value(&self) -> (r: Vec<u8>)
        ensures
            r@ == kgc_ref_value(self@),
    {
        let mut out = self.kgc_did.encode_to_tlv();
        write_tlv(&mut out, ABE_MASTER_PARAMS_HASH_TYPE, self.master_params_hash.0.as_slice());
        out
    }
}

fn write_kgc_refs(out: &mut Vec<u8>, refs: &Vec<KgcRef>)
    ensures
        final(out)@ == old(out)@ + tlv_encode(ABE_KGC_REFS_TYPE, kgc_refs_value(refs@.map_values(|r: KgcRef| r@))),
{
    let ghost views = refs@.map_values(|r: KgcRef| r@);
    let ghost els = views.map_values(|r: KgcRefView| (ABE_KGC_REF_TYPE, kgc_ref_value(r)));
    let mut inner: Vec<u8> = Vec::new();
    let mut i: usize = 0;
    proof {
        assert(inner@ =~= Seq::<u8>::empty() + tlv_encode_all(els.take(0)));
    }
    while i < refs.len()
        invariant
            i <= refs@.len(),
            views == refs@.map_values(|r: KgcRef| r@),
            els == views.map_values(|r: KgcRefView| (ABE_KGC_REF_TYPE, kgc_ref_value(r))),
            inner@ == Seq::<u8>::empty() + tlv_encode_all(els.take(i as int)),
        decreases refs@.len() - i,
    {
        let v = refs[i].encode_value();
        write_tlv(&mut inner, ABE_KGC_REF_TYPE, v.as_slice());
        proof {
            lemma_push_encoded(Seq::<u8>::empty(), els.take(i as int), ABE_KGC_REF_TYPE, v@);
            assert(els[i as int] == (ABE_KGC_REF_TYPE, v@));
            assert(els.take(i as int).push(els[i as int]) =~= els.take(i + 1));
        }
        i = i + 1;
    }
    proof {
        assert(els.take(i as int) =~= els);
        assert(inner@ =~= kgc_refs_value(views));
    }
    write_tlv(out, ABE_KGC_REFS_TYPE, inner.as_slice());
}

fn write_attributes(out: &mut Vec<u8>, attrs: &Vec<String>)
    ensures
        final(out)@ == old(out)@ + tlv_encode(ABE_ATTRIBUTES_TYPE, attributes_value(attrs@.map_values(|s: String| s@))),
{
    let ghost views = attrs@.map_values(|s: String| s@);
    let ghost els = views.map_values(|a: Seq<char>| (ABE_ATTRIBUTE_TYPE, utf8_bytes(a)));
    let mut inner: Vec<u8> = Vec::new();
    let mut i: usize = 0;
    proof {
        assert(inner@ =~= Seq::<u8>::empty() + tlv_encode_all(els.take(0)));
    }
    while i < attrs.len()
        invariant
            i <= attrs@.len(),
            views == attrs@.map_values(|s: String| s@),
            els == views.map_values(|a: Seq<char>| (ABE_ATTRIBUTE_TYPE, utf8_bytes(a))),
            inner@ == Seq::<u8>::empty() + tlv_encode_all(els.take(i as int)),
        decreases attrs@.len() - i,
    {
        let b = attrs[i].as_str().as_bytes();
        write_tlv(&mut inner, ABE_ATTRIBUTE_TYPE, b);
        proof {
            lemma_push_encoded(Seq::<u8>::empty(), els.take(i as int), ABE_ATTRIBUTE_TYPE, b@);
            assert(els[i as int] == (ABE_ATTRIBUTE_TYPE, b@));
            assert(els.take(i as int).push(els[i as int]) =~= els.take(i + 1));
        }
        i = i + 1;
    }
    proof {
        assert(els.take(i as int) =~= els);
        assert(inner@ =~= attributes_value(views));
    }
    write_tlv(out, ABE_ATTRIBUTES_TYPE, inner.as_slice());
}

fn write_header(out: &mut Vec<u8>, schema_version: u16, scheme: AbeSchemeId, policy: &String)
    ensures
        final(out)@ == old(out)@ + be_bytes(schema_version as nat, 2) + tlv_encode(ABE_SCHEME_ID_TYPE, seq![scheme_disc(scheme)])
            + tlv_encode(ABE_POLICY_SOURCE_TYPE, utf8_bytes(policy@)),
{
    push_be(out, schema_version as u64, 2);
    write_tlv(out, ABE_SCHEME_ID_TYPE, &[scheme.wire_disc()]);
    write_tlv(out, ABE_POLICY_SOURCE_TYPE, policy.as_str().as_bytes());
}

impl AbeCiphertext {
    /// Append the value of the container to `out`.
    pub fn write_value(&self, out: &mut Vec<u8>)
        ensures
            final(out)@ == old(out)@ + ciphertext_value(self@),
    {
        write_header(out, self.schema_version, self.scheme, &self.policy_source);
        write_attributes(out, &self.attributes);
        write_kgc_refs(out, &self.kgc_refs);
        write_tlv(out, ABE_CIPHERTEXT_BLOB_TYPE, self.rabe_ciphertext_bytes.as_slice());
        proof {
            assert(final(out)@ =~= old(out)@ + ciphertext_value(self@));
        }
    }

    /// The whole container: its TLV of type `ABE_CIPHERTEXT_TYPE`.
    pub fn encode_to_bytes(&self) -> (r: Vec<u8>)
        ensures
            r@ == tlv_encode(ABE_CIPHERTEXT_TYPE, ciphertext_value(self@)),
    {
        let mut v: Vec<u8> = Vec::new();
        self.write_value(&mut v);
        let mut out: Vec<u8> = Vec::new();
        write_tlv(&mut out, ABE_CIPHERTEXT_TYPE, v.as_slice());
        proof {
            assert(v@ =~= ciphertext_value(self@));
        }
        out
    }
}

impl PolicyBlockPayload {
    /// Append the value of the block to `out`.
    pub fn write_value(&self, out: &mut Vec<u8>)
        ensures
            final(out)@ == old(out)@ + policy_block_value(self@),
    {
        write_header(out, self.schema_version, self.scheme, &self.policy_source);
        write_kgc_refs(out, &self.kgc_refs);
        proof {
            assert(final(out)@ =~= old(out)@ + policy_block_value(self@));
        }
    }

    /// The whole block: its TLV of type `ABE_POLICY_BLOCK_TYPE`.
    pub fn encode_to_bytes(&self) -> (r: Vec<u8>)
        ensures
            r@ == tlv_encode(ABE_POLICY_BLOCK_TYPE, policy_block_value(self@)),
    {
        let mut v: Vec<u8> = Vec::new();
        self.write_value(&mut v);
        let mut out: Vec<u8> = Vec::new();
        write_tlv(&mut out, ABE_POLICY_BLOCK_TYPE, v.as_slice());
        proof {
            assert(v@ =~= policy_block_value(self@));
        }
        out
    }

    /// Encode to bytes for storage as a Data payload.
    pub fn encode(&self) -> (r: Vec<u8>)
        ensures
            r@ == tlv_encode(ABE_POLICY_BLOCK_TYPE, policy_block_value(self@)),
    {
        self.encode_to_bytes()
    }
}

// ---------------------------------------------------------------------------
// Reading
// ---------------------------------------------------------------------------

fn read_kgc_ref(v: &[u8]) -> (r: Result<KgcRef, TlvCodecError>)
    ensures
        match kgc_ref_decoding(v@) {
            Ok(k) => r matches Ok(x) && x@ == k,
            Err(e) => r == Err::<KgcRef, TlvCodecError>(e),
        },
{
    proof {
        assert(v@.skip(0) =~= v@);
    }
    let (a, b) = match read_expected(v, 0, TLV_NAME) {
        Ok(x) => x,
        Err(e) => return Err(e),
    };
    let nv = slice_to_vec(v, a, b);
    let kgc_did = match Name::decode(nv.as_slice()) {
        Some(n) => n,
        None => return Err(TlvCodecError::MalformedField(TLV_NAME)),
    };
    let (c, d) = match read_expected(v, b, ABE_MASTER_PARAMS_HASH_TYPE) {
        Ok(x) => x,
        Err(e) => return Err(e),
    };
    if d - c != 32 {
        return Err(TlvCodecError::MalformedField(ABE_MASTER_PARAMS_HASH_TYPE));
    }
    let mut arr = [0u8; 32];
    let mut i: usize = 0;
    while i < 32
        invariant
            i <= 32,
            c + 32 == d,
            d <= v@.len(),
            arr@.len() == 32,
            forall|j: int| 0 <= j < i ==> arr@[j] == v@[c + j],
        decreases 32 - i,
    {
        arr[i] = v[c + i];
        i = i + 1;
    }
    proof {
        assert(arr@ =~= v@.subrange(c as int, d as int));
    }
    Ok(KgcRef { kgc_did, master_params_hash: crate::digest::Hash::from_bytes(arr) })
}

pub open spec fn prepend_refs(done: Seq<KgcRefView>, r: Result<Seq<KgcRefView>, TlvCodecError>) -> Result<Seq<KgcRefView>, TlvCodecError> {
    match r {
        Err(e) => Err(e),
        Ok(rest) => Ok(done + rest),
    }
}

pub open spec fn prepend_texts(done: Seq<Seq<char>>, r: Result<Seq<Seq<char>>, TlvCodecError>) -> Result<Seq<Seq<char>>, TlvCodecError> {
    match r {
        Err(e) => Err(e),
        Ok(rest) => Ok(done + rest),
    }
}

proof fn lemma_expect_progress(s: Seq<u8>, typ: u64)
    ensures
        expect_tlv(s, typ) matches Ok((v, n)) ==> 2 <= n <= s.len(),
{
}

#[verifier::rlimit(100)]
fn read_kgc_refs(s: &[u8]) -> (r: Result<Vec<KgcRef>, TlvCodecError>)
    ensures
        match kgc_refs_decoding(s@) {
            Ok(refs) => r matches Ok(v) && v@.map_values(|k: KgcRef| k@) == refs,
            Err(e) => r == Err::<Vec<KgcRef>, TlvCodecError>(e),
        },
{
    let mut out: Vec<KgcRef> = Vec::new();
    let mut pos: usize = 0;
    proof {
        assert(s@.skip(0) =~= s@);
        match kgc_refs_decoding(s@) {
            Err(e) => {},
            Ok(rest) => {
                assert(out@.map_values(|k: KgcRef| k@) + rest =~= rest);
            },
        }
    }
    while pos < s.len()
        invariant
            pos <= s@.len(),
            kgc_refs_decoding(s@) == prepend_refs(out@.map_values(|k: KgcRef| k@), kgc_refs_decoding(s@.skip(pos as int))),
        decreases s@.len() - pos,
    {
        let ghost t = s@.skip(pos as int);
        proof {
            lemma_expect_progress(t, ABE_KGC_REF_TYPE);
        }
        let (a, b) = match read_expected(s, pos, ABE_KGC_REF_TYPE) {
            Ok(x) => x,
            Err(e) => return Err(e),
        };
        let v = slice_to_vec(s, a, b);
        let k = match read_kgc_ref(v.as_slice()) {
            Ok(k) => k,
            Err(e) => return Err(e),
        };
        let ghost before = out@.map_values(|k: KgcRef| k@);
        out.push(k);
        proof {
            assert(t.skip((b - pos) as int) =~= s@.skip(b as int));
            assert(out@.map_values(|k: KgcRef| k@) =~= before.push(k@));
            match kgc_refs_decoding(s@.skip(b as int)) {
                Err(e) => {},
                Ok(rest) => {
                    assert(before + (seq![k@] + rest) =~= before.push(k@) + rest);
                },
            }
        }
        pos = b;
    }
    proof {
        assert(s@.skip(pos as int) =~= Seq::<u8>::empty());
        assert(out@.map_values(|k: KgcRef| k@) + Seq::<KgcRefView>::empty() =~= out@.map_values(|k: KgcRef| k@));
    }
    Ok(out)
}

#[verifier::rlimit(100)]
fn read_attributes(s: &[u8]) -> (r: Result<Vec<String>, TlvCodecError>)
    ensures
        match attributes_decoding(s@) {
            Ok(attrs) => r matches Ok(v) && v@.map_values(|x: String| x@) == attrs,
            Err(e) => r == Err::<Vec<String>, TlvCodecError>(e),
        },
{
    let mut out: Vec<String> = Vec::new();
    let mut pos: usize = 0;
    proof {
        assert(s@.skip(0) =~= s@);
        match attributes_decoding(s@) {
            Err(e) => {},
            Ok(rest) => {
                assert(out@.map_values(|x: String| x@) + rest =~= rest);
            },
        }
    }
    while pos < s.len()
        invariant
            pos <= s@.len(),
            attributes_decoding(s@) == prepend_texts(out@.map_values(|x: String| x@), attributes_decoding(s@.skip(pos as int))),
        decreases s@.len() - pos,
    {
        let ghost t = s@.skip(pos as int);
        proof {
            lemma_expect_progress(t, ABE_ATTRIBUTE_TYPE);
        }
        let (a, b) = match read_expected(s, pos, ABE_ATTRIBUTE_TYPE) {
            Ok(x) => x,
            Err(e) => return Err(e),
        };
        let v = slice_to_vec(s, a, b);
        let text = match utf8_to_string(v.as_slice()) {
            Some(x) => x,
            None => return Err(TlvCodecError::MalformedField(ABE_ATTRIBUTE_TYPE)),
        };
        let ghost before = out@.map_values(|x: String| x@);
        out.push(text);
        proof {
            assert(t.skip((b - pos) as int) =~= s@.skip(b as int));
            assert(out@.map_values(|x: String| x@) =~= before.push(decode_utf8(v@)));
            match attributes_decoding(s@.skip(b as int)) {
                Err(e) => {},
                Ok(rest) => {
                    assert(before + (seq![decode_utf8(v@)] + rest) =~= before.push(decode_utf8(v@)) + rest);
                },
            }
        }
        pos = b;
    }
    proof {
        assert(s@.skip(pos as int) =~= Seq::<u8>::empty());
        assert(out@.map_values(|x: String| x@) + Seq::<Seq<char>>::empty() =~= out@.map_values(|x: String| x@));
    }
    Ok(out)
}

fn read_header(s: &[u8]) -> (r: Result<(u16, AbeSchemeId, String, usize), TlvCodecError>)
    ensures
        match header_decoding(s@) {
            Ok((sv, scheme, p, n)) => r matches Ok((a, b, c, d)) && a == sv && b == scheme && c@ == p && d == n && d <= s@.len(),
            Err(e) => r == Err::<(u16, AbeSchemeId, String, usize), TlvCodecError>(e),
        },
{
    if s.len() < 2 {
        return Err(TlvCodecError::Truncated);
    }
    let sv = read_be(s, 0, 2) as u16;
    proof {
        assert(s@.subrange(0, 2) =~= s@.take(2));
    }
    let (a, b) = match read_expected(s, 2, ABE_SCHEME_ID_TYPE) {
        Ok(x) => x,
        Err(e) => return Err(e),
    };
    if b == a {
        return Err(TlvCodecError::MalformedField(ABE_SCHEME_ID_TYPE));
    }
    let disc = s[a];
    proof {
        assert(s@.subrange(a as int, b as int)[0] == disc);
    }
    let scheme = match AbeSchemeId::from_wire_disc(disc) {
        Some(x) => x,
        None => return Err(TlvCodecError::UnrecognizedVariant(disc)),
    };
    proof {
        assert(s@.skip(2).skip((b - 2) as int) =~= s@.skip(b as int));
    }
    let (c, d) = match read_expected(s, b, ABE_POLICY_SOURCE_TYPE) {
        Ok(x) => x,
        Err(e) => return Err(e),
    };
    let pv = slice_to_vec(s, c, d);
    let policy = match utf8_to_string(pv.as_slice()) {
        Some(x) => x,
        None => return Err(TlvCodecError::MalformedField(ABE_POLICY_SOURCE_TYPE)),
    };
    Ok((sv, scheme, policy, d))
}

impl AbeCiphertext {
    /// Decode the value of a ciphertext container.
    pub fn decode_value(s: &[u8]) -> (r: Result<AbeCiphertext, TlvCodecError>)
        ensures
            match ciphertext_decoding(s@) {
                Ok(m) => r matches Ok(x) && x@ == m,
                Err(e) => r == Err::<AbeCiphertext, TlvCodecError>(e),
            },
    {
        if s.len() >= 2 {
            let v = read_be(s, 0, 2);
            proof {
                assert(s@.subrange(0, 2) =~= s@.take(2));
            }
            if v != CIPHERTEXT_SCHEMA_VERSION as u64 {
                return Err(TlvCodecError::UnrecognizedVariant((v % 256) as u8));
            }
        }
        let (schema_version, scheme, policy_source, n0) = match read_header(s) {
            Ok(x) => x,
            Err(e) => return Err(e),
        };
        AbeCiphertext::decode_fields(s, n0, schema_version, scheme, policy_source)
    }

    /// Decode the fields after the header (which ended at `n0`).
    #[verifier::spinoff_prover]
    fn decode_fields(s: &[u8], n0: usize, schema_version: u16, scheme: AbeSchemeId, policy_source: String) -> (r: Result<
        AbeCiphertext,
        TlvCodecError,
    >)
        requires
            n0 <= s@.len(),
        ensures
            match ciphertext_fields_decoding(schema_version, scheme, policy_source@, s@.skip(n0 as int)) {
                Ok(m) => r matches Ok(x) && x@ == m,
                Err(e) => r == Err::<AbeCiphertext, TlvCodecError>(e),
            },
    {
        let (a1, b1) = match read_expected(s, n0, ABE_ATTRIBUTES_TYPE) {
            Ok(x) => x,
            Err(e) => return Err(e),
        };
        let av = slice_to_vec(s, a1, b1);
        let attributes = match read_attributes(av.as_slice()) {
            Ok(x) => x,
            Err(e) => return Err(e),
        };
        proof {
            assert(s@.skip(n0 as int).skip((b1 - n0) as int) =~= s@.skip(b1 as int));
        }
        AbeCiphertext::decode_tail(s, b1, schema_version, scheme, policy_source, attributes)
    }

    /// Decode the KGC references and the blob, which start at `b1`.
    #[verifier::spinoff_prover]
    fn decode_tail(
        s: &[u8],
        b1: usize,
        schema_version: u16,
        scheme: AbeSchemeId,
        policy_source: String,
        attributes: Vec<String>,
    ) -> (r: Result<AbeCiphertext, TlvCodecError>)
        requires
            b1 <= s@.len(),
        ensures
            match ciphertext_tail_decoding(
                schema_version,
                scheme,
                policy_source@,
                attributes@.map_values(|x: String| x@),
                s@.skip(b1 as int),
            ) {
                Ok(m) => r matches Ok(x) && x@ == m,
                Err(e) => r == Err::<AbeCiphertext, TlvCodecError>(e),
            },
    {
        let (a2, b2) = match read_expected(s, b1, ABE_KGC_REFS_TYPE) {
            Ok(x) => x,
            Err(e) => return Err(e),
        };
        let rv = slice_to_vec(s, a2, b2);
        let kgc_refs = match read_kgc_refs(rv.as_slice()) {
            Ok(x) => x,
            Err(e) => return Err(e),
        };
        proof {
            assert(s@.skip(b1 as int).skip((b2 - b1) as int) =~= s@.skip(b2 as int));
        }
        let (a3, b3) = match read_expected(s, b2, ABE_CIPHERTEXT_BLOB_TYPE) {
            Ok(x) => x,
            Err(e) => return Err(e),
        };
        let rabe_ciphertext_bytes = slice_to_vec(s, a3, b3);
        Ok(AbeCiphertext { schema_version, scheme, policy_source, attributes, kgc_refs, rabe_ciphertext_bytes })
    }

    /// Decode a whole container (its TLV of type `ABE_CIPHERTEXT_TYPE`).
    pub fn decode_from_bytes(b: &[u8]) -> (r: Result<AbeCiphertext, TlvCodecError>)
        ensures
            match outer_value(b@, ABE_CIPHERTEXT_TYPE) {
                Err(e) => r == Err::<AbeCiphertext, TlvCodecError>(e),
                Ok(v) => match ciphertext_decoding(v) {
                    Ok(m) => r matches Ok(x) && x@ == m,
                    Err(e) => r == Err::<AbeCiphertext, TlvCodecError>(e),
                },
            },
    {
        proof {
            assert(b@.skip(0) =~= b@);
        }
        let (x, y) = match read_expected(b, 0, ABE_CIPHERTEXT_TYPE) {
            Ok(p) => p,
            Err(e) => return Err(e),
        };
        let v = slice_to_vec(b, x, y);
        AbeCiphertext::decode_value(v.as_slice())
    }
}

impl PolicyBlockPayload {
    /// Decode the value of a policy block.
    pub fn decode_value(s: &[u8]) -> (r: Result<PolicyBlockPayload, TlvCodecError>)
        ensures
            match policy_block_decoding(s@) {
                Ok(m) => r matches Ok(x) && x@ == m,
                Err(e) => r == Err::<PolicyBlockPayload, TlvCodecError>(e),
            },
    {
        if s.len() >= 2 {
            let v = read_be(s, 0, 2);
            proof {
                assert(s@.subrange(0, 2) =~= s@.take(2));
            }
            if v != POLICY_BLOCK_SCHEMA_VERSION as u64 {
                return Err(TlvCodecError::UnrecognizedVariant((v % 256) as u8));
            }
        }
        let (schema_version, scheme, policy_source, n0) = match read_header(s) {
            Ok(x) => x,
            Err(e) => return Err(e),
        };
        let (a2, b2) = match read_expected(s, n0, ABE_KGC_REFS_TYPE) {
            Ok(x) => x,
            Err(e) => return Err(e),
        };
        let rv = slice_to_vec(s, a2, b2);
        let kgc_refs = match read_kgc_refs(rv.as_slice()) {
            Ok(x) => x,
            Err(e) => return Err(e),
        };
        Ok(PolicyBlockPayload { schema_version, scheme, policy_source, kgc_refs })
    }

    /// Decode a whole block (its TLV of type `ABE_POLICY_BLOCK_TYPE`).
    pub fn decode_from_bytes(b: &[u8]) -> (r: Result<PolicyBlockPayload, TlvCodecError>)
        ensures
            match outer_value(b@, ABE_POLICY_BLOCK_TYPE) {
                Err(e) => r == Err::<PolicyBlockPayload, TlvCodecError>(e),
                Ok(v) => match policy_block_decoding(v) {
                    Ok(m) => r matches Ok(x) && x@ == m,
                    Err(e) => r == Err::<PolicyBlockPayload, TlvCodecError>(e),
                },
            },
    {
        proof {
            assert(b@.skip(0) =~= b@);
        }
        let (x, y) = match read_expected(b, 0, ABE_POLICY_BLOCK_TYPE) {
            Ok(p) => p,
            Err(e) => return Err(e),
        };
        let v = slice_to_vec(b, x, y);
        PolicyBlockPayload::decode_value(v.as_slice())
    }

    /// Decode from Data payload bytes.
    pub fn decode(bytes: &[u8]) -> (r: Result<PolicyBlockPayload, TlvCodecError>)
        ensures
            match outer_value(bytes@, ABE_POLICY_BLOCK_TYPE) {
                Err(e) => r == Err::<PolicyBlockPayload, TlvCodecError>(e),
                Ok(v) => match policy_block_decoding(v) {
                    Ok(m) => r matches Ok(x) && x@ == m,
                    Err(e) => r == Err::<PolicyBlockPayload, TlvCodecError>(e),
                },
            },
    {
        PolicyBlockPayload::decode_from_bytes(bytes)
    }
}

/// Refuse a scheme ciphertext larger than [`MAX_RABE_BLOB`] before it reaches
/// the scheme's deserializer.
pub fn check_rabe_blob(ciphertext: &AbeCiphertext) -> (r: Result<(), AbeError>)
    ensures
        r is Ok <==> ciphertext.rabe_ciphertext_bytes@.len() <= MAX_RABE_BLOB,
{
    if ciphertext.rabe_ciphertext_bytes.len() > MAX_RABE_BLOB {
        return Err(AbeError::CiphertextMalformed(crate::text::string_from_static("rabe ciphertext blob exceeds maximum size")));
    }
    Ok(())
}

// ---------------------------------------------------------------------------
// Decoding laws
// ---------------------------------------------------------------------------

/// A reference is representable: a 32-byte hash and lengths that fit.
pub open spec fn ref_fits(r: KgcRefView) -> bool {
    &&& r.1.len() == 32
    &&& forall|j: int| 0 <= j < r.0.len() ==> #[trigger] r.0[j].1.len() <= u64::MAX
    &&& tlv_encode_all(r.0).len() + 64 <= u64::MAX
}

pub open spec fn refs_fit(refs: Seq<KgcRefView>) -> bool {
    &&& forall|i: int| 0 <= i < refs.len() ==> ref_fits(#[trigger] refs[i])
    &&& kgc_refs_value(refs).len() <= u64::MAX
}

pub open spec fn attrs_fit(attrs: Seq<Seq<char>>) -> bool {
    attributes_value(attrs).len() <= u64::MAX
}

proof fn lemma_kgc_ref_roundtrip(r: KgcRefView)
    requires
        ref_fits(r),
    ensures
        kgc_ref_decoding(kgc_ref_value(r)) == Ok::<KgcRefView, TlvCodecError>(r),
{
    let nv = tlv_encode_all(r.0);
    let hv = tlv_encode(ABE_MASTER_PARAMS_HASH_TYPE, r.1);
    lemma_expect_encoded(TLV_NAME, nv, hv);
    crate::name::lemma_name_value_roundtrip(r.0);
    let v = kgc_ref_value(r);
    assert(v.skip(tlv_encode(TLV_NAME, nv).len() as int) =~= hv);
    lemma_expect_encoded(ABE_MASTER_PARAMS_HASH_TYPE, r.1, Seq::empty());
    assert(hv + Seq::<u8>::empty() =~= hv);
}

pub open spec fn ref_elements(refs: Seq<KgcRefView>) -> Seq<(u64, Seq<u8>)> {
    refs.map_values(|r: KgcRefView| (ABE_KGC_REF_TYPE, kgc_ref_value(r)))
}

proof fn lemma_refs_step(v: Seq<u8>, tail: Seq<u8>)
    requires
        v.len() <= u64::MAX,
    ensures
        kgc_refs_decoding(tlv_encode(ABE_KGC_REF_TYPE, v) + tail) == match kgc_ref_decoding(v) {
            Err(e) => Err(e),
            Ok(r) => match kgc_refs_decoding(tail) {
                Err(e) => Err(e),
                Ok(rest) => Ok(seq![r] + rest),
            },
        },
{
    let head = tlv_encode(ABE_KGC_REF_TYPE, v);
    lemma_expect_encoded(ABE_KGC_REF_TYPE, v, tail);
    assert((head + tail).skip(head.len() as int) =~= tail);
}

#[verifier::rlimit(100)]
#[verifier::spinoff_prover]
proof fn lemma_kgc_refs_roundtrip(refs: Seq<KgcRefView>)
    requires
        refs_fit(refs),
    ensures
        kgc_refs_decoding(kgc_refs_value(refs)) == Ok::<Seq<KgcRefView>, TlvCodecError>(refs),
    decreases refs.len(),
{
    let els = ref_elements(refs);
    if refs.len() == 0 {
        assert(kgc_refs_value(refs) =~= Seq::<u8>::empty());
        assert(refs =~= Seq::<KgcRefView>::empty());
    } else {
        let rest = refs.drop_first();
        assert(ref_elements(rest) =~= els.drop_first());
        let head = tlv_encode(ABE_KGC_REF_TYPE, kgc_ref_value(refs[0]));
        let tail = kgc_refs_value(rest);
        assert(kgc_refs_value(refs) == head + tail);
        crate::tlv::lemma_encode_all_member_len(els, 0);
        assert(tail.len() <= kgc_refs_value(refs).len());
        assert(refs_fit(rest)) by {
            assert forall|i: int| 0 <= i < rest.len() implies ref_fits(#[trigger] rest[i]) by {
                assert(rest[i] == refs[i + 1]);
            }
        }
        lemma_kgc_refs_roundtrip(rest);
        assert(ref_fits(refs[0]));
        lemma_kgc_ref_roundtrip(refs[0]);
        lemma_refs_step(kgc_ref_value(refs[0]), tail);
        assert(seq![refs[0]] + rest =~= refs);
    }
}

pub open spec fn attr_elements(attrs: Seq<Seq<char>>) -> Seq<(u64, Seq<u8>)> {
    attrs.map_values(|a: Seq<char>| (ABE_ATTRIBUTE_TYPE, utf8_bytes(a)))
}

proof fn lemma_attributes_roundtrip(attrs: Seq<Seq<char>>)
    requires
        attrs_fit(attrs),
    ensures
        attributes_decoding(attributes_value(attrs)) == Ok::<Seq<Seq<char>>, TlvCodecError>(attrs),
    decreases attrs.len(),
{
    let els = attr_elements(attrs);
    if attrs.len() == 0 {
        assert(attributes_value(attrs) =~= Seq::<u8>::empty());
        assert(attrs =~= Seq::<Seq<char>>::empty());
    } else {
        let rest = attrs.drop_first();
        assert(attr_elements(rest) =~= els.drop_first());
        let head = tlv_encode(ABE_ATTRIBUTE_TYPE, utf8_bytes(attrs[0]));
        let tail = attributes_value(rest);
        assert(attributes_value(attrs) == head + tail);
        crate::tlv::lemma_encode_all_member_len(els, 0);
        lemma_attributes_roundtrip(rest);
        crate::text::lemma_utf8_roundtrip(attrs[0]);
        lemma_expect_encoded(ABE_ATTRIBUTE_TYPE, utf8_bytes(attrs[0]), tail);
        assert((head + tail).skip(head.len() as int) =~= tail);
        assert(seq![attrs[0]] + rest =~= attrs);
    }
}

proof fn lemma_header_roundtrip(sv: u16, scheme: AbeSchemeId, policy: Seq<char>, rest: Seq<u8>)
    requires
        utf8_bytes(policy).len() <= u64::MAX,
    ensures
        ({
            let h = be_bytes(sv as nat, 2) + tlv_encode(ABE_SCHEME_ID_TYPE, seq![scheme_disc(scheme)])
                + tlv_encode(ABE_POLICY_SOURCE_TYPE, utf8_bytes(policy));
            &&& header_decoding(h + rest) == Ok::<(u16, AbeSchemeId, Seq<char>, nat), TlvCodecError>((sv, scheme, policy, h.len()))
            &&& (h + rest).take(2) == be_bytes(sv as nat, 2)
            &&& be_value(be_bytes(sv as nat, 2)) == sv
        }),
{
    let b = be_bytes(sv as nat, 2);
    let t1 = tlv_encode(ABE_SCHEME_ID_TYPE, seq![scheme_disc(scheme)]);
    let t2 = tlv_encode(ABE_POLICY_SOURCE_TYPE, utf8_bytes(policy));
    let s = b + t1 + t2 + rest;
    lemma_pow256_values();
    crate::tlv::lemma_be_roundtrip(sv as nat, 2);
    assert(s.take(2) =~= b);
    assert(s.skip(2) =~= t1 + (t2 + rest));
    lemma_expect_encoded(ABE_SCHEME_ID_TYPE, seq![scheme_disc(scheme)], t2 + rest);
    assert(s.skip(2 + t1.len() as int) =~= t2 + rest);
    lemma_expect_encoded(ABE_POLICY_SOURCE_TYPE, utf8_bytes(policy), rest);
    crate::text::lemma_utf8_roundtrip(policy);
    assert(b + t1 + t2 + rest =~= (b + t1 + t2) + rest);
}

/// The ciphertext container is representable.
pub open spec fn ciphertext_fits(m: CiphertextModel) -> bool {
    &&& refs_fit(m.kgc_refs)
    &&& attrs_fit(m.attributes)
    &&& utf8_bytes(m.policy_source).len() <= u64::MAX
    &&& m.blob.len() <= u64::MAX
}

#[verifier::spinoff_prover]
#[verifier::rlimit(60)]
proof fn lemma_ciphertext_fields_roundtrip(m: CiphertextModel)
    requires
        ciphertext_fits(m),
    ensures
        ciphertext_fields_decoding(
            m.schema_version,
            m.scheme,
            m.policy_source,
            tlv_encode(ABE_ATTRIBUTES_TYPE, attributes_value(m.attributes)) + tlv_encode(
                ABE_KGC_REFS_TYPE,
                kgc_refs_value(m.kgc_refs),
            ) + tlv_encode(ABE_CIPHERTEXT_BLOB_TYPE, m.blob),
        ) == Ok::<CiphertextModel, TlvCodecError>(m),
{
    let t3 = tlv_encode(ABE_ATTRIBUTES_TYPE, attributes_value(m.attributes));
    let t4 = tlv_encode(ABE_KGC_REFS_TYPE, kgc_refs_value(m.kgc_refs));
    let t5 = tlv_encode(ABE_CIPHERTEXT_BLOB_TYPE, m.blob);
    let s1 = t3 + t4 + t5;
    assert(s1 =~= t3 + (t4 + t5));
    lemma_expect_encoded(ABE_ATTRIBUTES_TYPE, attributes_value(m.attributes), t4 + t5);
    lemma_attributes_roundtrip(m.attributes);
    let s2 = s1.skip(t3.len() as int);
    assert(s2 =~= t4 + t5);
    lemma_expect_encoded(ABE_KGC_REFS_TYPE, kgc_refs_value(m.kgc_refs), t5);
    lemma_kgc_refs_roundtrip(m.kgc_refs);
    assert(s2.skip(t4.len() as int) =~= t5 + Seq::<u8>::empty());
    lemma_expect_encoded(ABE_CIPHERTEXT_BLOB_TYPE, m.blob, Seq::empty());
}

/// Decoding the container of a ciphertext of the current schema version gives
/// that ciphertext back.
pub proof fn lemma_ciphertext_roundtrip(m: CiphertextModel)
    requires
        m.schema_version == CIPHERTEXT_SCHEMA_VERSION,
        ciphertext_fits(m),
    ensures
        ciphertext_decoding(ciphertext_value(m)) == Ok::<CiphertextModel, TlvCodecError>(m),
{
    let t = tlv_encode(ABE_ATTRIBUTES_TYPE, attributes_value(m.attributes)) + tlv_encode(
        ABE_KGC_REFS_TYPE,
        kgc_refs_value(m.kgc_refs),
    ) + tlv_encode(ABE_CIPHERTEXT_BLOB_TYPE, m.blob);
    let h = be_bytes(m.schema_version as nat, 2) + tlv_encode(ABE_SCHEME_ID_TYPE, seq![scheme_disc(m.scheme)])
        + tlv_encode(ABE_POLICY_SOURCE_TYPE, utf8_bytes(m.policy_source));
    let s = ciphertext_value(m);
    assert(s =~= h + t);
    lemma_header_roundtrip(m.schema_version, m.scheme, m.policy_source, t);
    assert(s.skip(h.len() as int) =~= t);
    lemma_ciphertext_fields_roundtrip(m);
}

/// The policy block is of the current schema version and representable.
pub open spec fn policy_block_fits(m: PolicyBlockModel) -> bool {
    &&& m.schema_version == POLICY_BLOCK_SCHEMA_VERSION
    &&& refs_fit(m.kgc_refs)
    &&& utf8_bytes(m.policy_source).len() <= u64::MAX
}

/// Decoding the value of a policy block gives that block back.
pub proof fn lemma_policy_block_roundtrip(m: PolicyBlockModel)
    requires
        policy_block_fits(m),
    ensures
        policy_block_decoding(policy_block_value(m)) == Ok::<PolicyBlockModel, TlvCodecError>(m),
{
    let t4 = tlv_encode(ABE_KGC_REFS_TYPE, kgc_refs_value(m.kgc_refs));
    let h = be_bytes(m.schema_version as nat, 2) + tlv_encode(ABE_SCHEME_ID_TYPE, seq![scheme_disc(m.scheme)])
        + tlv_encode(ABE_POLICY_SOURCE_TYPE, utf8_bytes(m.policy_source));
    let s = policy_block_value(m);
    assert(s =~= h + t4);
    lemma_header_roundtrip(m.schema_version, m.scheme, m.policy_source, t4);
    assert(s.skip(h.len() as int) =~= t4 + Seq::<u8>::empty());
    lemma_expect_encoded(ABE_KGC_REFS_TYPE, kgc_refs_value(m.kgc_refs), Seq::empty());
    lemma_kgc_refs_roundtrip(m.kgc_refs);
}

/// The outer element of an encoded container is read back.
pub proof fn lemma_outer_roundtrip(typ: u64, v: Seq<u8>)
    requires
        v.len() <= u64::MAX,
    ensures
        outer_value(tlv_encode(typ, v), typ) == Ok::<Seq<u8>, TlvCodecError>(v),
{
    lemma_expect_encoded(typ, v, Seq::empty());
    assert(tlv_encode(typ, v) + Seq::<u8>::empty() =~= tlv_encode(typ, v));
}

} // verus!
