//! Signature type codes and signature checking by type.

use vstd::prelude::*;

use crate::crypto::{
    ed25519_accepts, ed25519_public, ed25519_public_key, ed25519_sign, ed25519_signature, ed25519_verify, hmac_sha256,
    hmac_sha256_tag,
};
use crate::name::Name;

verus! {

/// `DigestSha256`.
pub const SIGNATURE_TYPE_DIGEST_SHA256: u64 = 0;

/// `SignatureSha256WithEcdsa`.
pub const SIGNATURE_TYPE_ECDSA_P256: u64 = 3;

/// `SignatureHmacWithSha256`.
pub const SIGNATURE_TYPE_HMAC_SHA256: u64 = 4;

/// `SignatureEd25519`.
pub const SIGNATURE_TYPE_ED25519: u64 = 5;

/// Plain BLAKE3 digest (integrity only). Plain and keyed BLAKE3 use distinct
/// codes so that one cannot be passed off as the other.
pub const SIGNATURE_TYPE_DIGEST_BLAKE3_PLAIN: u64 = 6;

/// Keyed BLAKE3 digest.
pub const SIGNATURE_TYPE_DIGEST_BLAKE3_KEYED: u64 = 7;

/// The verdict on a signature of the given type: `Ok(valid)`, or an error
/// for a type this crate does not check.
pub open spec fn signature_verdict(sig_type: u64, region: Seq<u8>, sig: Seq<u8>, key: Seq<u8>) -> Result<bool, Seq<char>> {
    if sig_type == SIGNATURE_TYPE_ED25519 {
        Ok(ed25519_accepts(key, region, sig))
    } else if sig_type == SIGNATURE_TYPE_DIGEST_SHA256 {
        Ok(crate::digest::sha256_of(region) == sig)
    } else if sig_type == SIGNATURE_TYPE_DIGEST_BLAKE3_PLAIN {
        Ok(blake3_digest(region) == sig)
    } else {
        Err("unsupported signature type"@)
    }
}

/// Check `sig` over `region` under `key` as the signature type says:
/// Ed25519 signatures, and the keyless SHA-256 and BLAKE3 digests; other
/// types are reported as unsupported.
pub fn verify_by_sig_type(sig_type: u64, region: &[u8], sig: &[u8], key: &[u8]) -> (r: Result<bool, String>)
    ensures
        match signature_verdict(sig_type, region@, sig@, key@) {
            Ok(v) => r == Ok::<bool, String>(v),
            Err(m) => r matches Err(e) && e@ == m,
        },
{
    if sig_type == SIGNATURE_TYPE_ED25519 {
        Ok(ed25519_verify(key, region, sig))
    } else if sig_type == SIGNATURE_TYPE_DIGEST_SHA256 {
        let h = crate::digest::sha256(region);
        Ok(crate::name::bytes_eq(&h, sig))
    } else if sig_type == SIGNATURE_TYPE_DIGEST_BLAKE3_PLAIN {
        let h = blake3_hash(region);
        Ok(crate::name::bytes_eq(&h, sig))
    } else {
        Err(crate::text::string_from_static("unsupported signature type"))
    }
}


/// Why a key could not be made or used.
#[derive(Debug, Clone, PartialEq, Eq)]
pub enum TrustError {
    /// The key bytes do not form a valid key.
    InvalidKey,
    /// The key store failed (with its message).
    KeyStore(String),
    /// A signature does not verify.
    InvalidSignature,
    /// The trust schema does not let the key sign the name.
    SchemaMismatch,
    /// The certificate chain loops back on a key it already passed.
    ChainCycle { name: String },
    /// A key in the chain is revoked.
    Revoked { name: String },
    /// A certificate is missing or unusable (the text says why).
    CertNotFound { name: String },
    /// The chain is longer than the limit.
    ChainTooDeep { limit: usize },
    /// The signature type is not one this crate checks.
    Unsupported(String),
}

/// The message of a trust error.
pub open spec fn trust_error_text(e: TrustError) -> Seq<char> {
    match e {
        TrustError::InvalidKey => "invalid key"@,
        TrustError::KeyStore(m) => "key store error: "@ + m@,
        TrustError::InvalidSignature => "invalid signature"@,
        TrustError::SchemaMismatch => "trust schema mismatch"@,
        TrustError::ChainCycle { name } => "certificate chain cycle at "@ + name@,
        TrustError::Revoked { name } => "certificate revoked: "@ + name@,
        TrustError::CertNotFound { name } => "certificate not found: "@ + name@,
        TrustError::ChainTooDeep { limit } => "certificate chain too deep (limit "@ + crate::text::decimal_text(
            limit as nat,
        ) + ")"@,
        TrustError::Unsupported(m) => "unsupported: "@ + m@,
    }
}

impl TrustError {
    /// The message of the error.
    pub fn message(&self) -> (r: String)
        ensures
            r@ == trust_error_text(*self),
    {
        match self {
            TrustError::InvalidKey => crate::text::string_from_static("invalid key"),
            TrustError::KeyStore(m) => crate::text::concat2("key store error: ", m.as_str()),
            TrustError::InvalidSignature => crate::text::string_from_static("invalid signature"),
            TrustError::SchemaMismatch => crate::text::string_from_static("trust schema mismatch"),
            TrustError::ChainCycle { name } => crate::text::concat2("certificate chain cycle at ", name.as_str()),
            TrustError::Revoked { name } => crate::text::concat2("certificate revoked: ", name.as_str()),
            TrustError::CertNotFound { name } => crate::text::concat2("certificate not found: ", name.as_str()),
            TrustError::ChainTooDeep { limit } => {
                let n = crate::text::u64_text(*limit as u64);
                crate::text::concat3("certificate chain too deep (limit ", n.as_str(), ")")
            },
            TrustError::Unsupported(m) => crate::text::concat2("unsupported: ", m.as_str()),
        }
    }
}

/// An Ed25519 signing key under an NDN key name.
pub struct Ed25519Signer {
    seed: [u8; 32],
    key_name: Name,
    cert_name: Option<Name>,
}

/// `getrandom::getrandom` into 32 bytes; `None` when the source fails.
#[verifier::external_body]
fn random_seed() -> (r: Option<[u8; 32]>) {
    let mut seed = [0u8; 32];
    match getrandom::getrandom(&mut seed) {
        Ok(()) => Some(seed),
        Err(_) => None,
    }
}

impl Ed25519Signer {
    /// The key with this seed, stamping no certificate name.
    pub fn from_seed(seed: &[u8; 32], key_name: Name) -> (r: Ed25519Signer)
        ensures
            r.seed_view() == seed@,
            r.key_name_of() == key_name,
            r.cert_name_of() is None,
    {
        Ed25519Signer { seed: *seed, key_name, cert_name: None }
    }

    /// A fresh key from the operating system's randomness.
    pub fn generate(key_name: Name) -> (r: Result<Ed25519Signer, TrustError>)
        ensures
            r matches Ok(s) ==> s.key_name_of() == key_name && s.cert_name_of() is None,
            r matches Err(e) ==> (e matches TrustError::KeyStore(m) && m@ == "rng failure"@),
    {
        match random_seed() {
            Some(seed) => Ok(Ed25519Signer::from_seed(&seed, key_name)),
            None => Err(TrustError::KeyStore(crate::text::string_from_static("rng failure"))),
        }
    }

    /// The key in a PKCS#8 `PrivateKeyInfo` DER.
    pub fn from_pkcs8_der(pkcs8_der: &[u8], key_name: Name) -> (r: Result<Ed25519Signer, TrustError>)
        ensures
            match crate::safebag::ed25519_seed_of(pkcs8_der@) {
                Ok(seed) => r matches Ok(s) && s.seed_view() == seed && s.key_name_of() == key_name && s.cert_name_of() is None,
                Err(m) => r matches Err(TrustError::KeyStore(t)) && t@ == "ed25519 from_pkcs8_der: "@ + m,
            },
    {
        match crate::safebag::ed25519_from_pkcs8(pkcs8_der) {
            Ok(seed) => Ok(Ed25519Signer::from_seed(&seed, key_name)),
            Err(e) => {
                let mut t = crate::text::string_from_static("ed25519 from_pkcs8_der: ");
                crate::text::push_text(&mut t, e.as_str());
                Err(TrustError::KeyStore(t))
            },
        }
    }

    /// The key as PKCS#8 `PrivateKeyInfo` DER.
    pub fn to_pkcs8_der(&self) -> (r: Result<Vec<u8>, TrustError>)
        ensures
            match crate::safebag::ed25519_pkcs8_of(self.seed_view()) {
                Ok(v) => r matches Ok(w) && w@ == v,
                Err(m) => r matches Err(TrustError::KeyStore(t)) && t@ == "ed25519 to_pkcs8_der: "@ + m,
            },
    {
        match crate::safebag::ed25519_to_pkcs8(&self.seed) {
            Ok(v) => Ok(v),
            Err(e) => {
                let mut t = crate::text::string_from_static("ed25519 to_pkcs8_der: ");
                crate::text::push_text(&mut t, e.as_str());
                Err(TrustError::KeyStore(t))
            },
        }
    }

    /// Stamp `cert_name` as the `KeyLocator` of produced signatures.
    pub fn with_cert_name(self, cert_name: Name) -> (r: Ed25519Signer)
        ensures
            r.seed_view() == self.seed_view(),
            r.key_name_of() == self.key_name_of(),
            r.cert_name_of() == Some(cert_name),
    {
        Ed25519Signer { cert_name: Some(cert_name), ..self }
    }

    pub closed spec fn seed_view(&self) -> Seq<u8> {
        self.seed@
    }

    pub closed spec fn key_name_of(&self) -> Name {
        self.key_name
    }

    pub closed spec fn cert_name_of(&self) -> Option<Name> {
        self.cert_name
    }

    /// The 32-byte seed.
    pub(crate) fn seed_bytes(&self) -> (r: [u8; 32])
        ensures
            r@ == self.seed_view(),
    {
        self.seed
    }

    /// The 32-byte public key.
    pub fn public_key_bytes(&self) -> (r: [u8; 32])
        ensures
            r@ == ed25519_public_key(self.seed_view()),
    {
        ed25519_public(&self.seed)
    }

    pub fn sig_type(&self) -> (r: u64)
        ensures
            r == SIGNATURE_TYPE_ED25519,
    {
        SIGNATURE_TYPE_ED25519
    }

    pub fn key_name(&self) -> (r: &Name)
        ensures
            *r == self.key_name_of(),
    {
        &self.key_name
    }

    pub fn cert_name(&self) -> (r: Option<&Name>)
        ensures
            match r {
                Some(n) => self.cert_name_of() == Some(*n),
                None => self.cert_name_of() is None,
            },
    {
        match &self.cert_name {
            Some(n) => Some(n),
            None => None,
        }
    }

    /// The Ed25519 signature of `region`; the key's own public key accepts
    /// it.
    pub fn sign_sync(&self, region: &[u8]) -> (r: Vec<u8>)
        ensures
            r@ == ed25519_signature(self.seed_view(), region@),
            r@.len() == 64,
            ed25519_accepts(ed25519_public_key(self.seed_view()), region@, r@),
    {
        ed25519_sign(&self.seed, region)
    }
}

/// An HMAC-SHA256 key under an NDN key name.
pub struct HmacSha256Signer {
    key: Vec<u8>,
    key_name: Name,
}

impl HmacSha256Signer {
    pub fn new(key_bytes: &[u8], key_name: Name) -> (r: HmacSha256Signer)
        ensures
            r.key_view() == key_bytes@,
            r.key_name_of() == key_name,
    {
        HmacSha256Signer { key: crate::tlv::slice_to_vec(key_bytes, 0, key_bytes.len()), key_name }
    }

    pub closed spec fn key_view(&self) -> Seq<u8> {
        self.key@
    }

    pub closed spec fn key_name_of(&self) -> Name {
        self.key_name
    }

    pub fn sig_type(&self) -> (r: u64)
        ensures
            r == SIGNATURE_TYPE_HMAC_SHA256,
    {
        SIGNATURE_TYPE_HMAC_SHA256
    }

    pub fn key_name(&self) -> (r: &Name)
        ensures
            *r == self.key_name_of(),
    {
        &self.key_name
    }

    /// The 32-byte HMAC-SHA256 tag of `region` under the key.
    pub fn sign_sync(&self, region: &[u8]) -> (r: Vec<u8>)
        ensures
            r@ == hmac_sha256(self.key_view(), region@),
            r@.len() == 32,
    {
        hmac_sha256_tag(self.key.as_slice(), region)
    }
}


// ---------------------------------------------------------------------------
// BLAKE3 digests
// ---------------------------------------------------------------------------

/// Regions at least this long would be hashed on several threads; the
/// digest is the same either way.
pub const BLAKE3_RAYON_THRESHOLD: usize = 131072;

/// The BLAKE3 digest of a message.
pub uninterp spec fn blake3_digest(msg: Seq<u8>) -> Seq<u8>;

/// The keyed BLAKE3 digest of a message.
pub uninterp spec fn blake3_keyed_digest(key: Seq<u8>, msg: Seq<u8>) -> Seq<u8>;

/// `blake3::hash`: the 32-byte digest.
#[verifier::external_body]
fn blake3_hash(region: &[u8]) -> (r: [u8; 32])
    ensures
        r@ == blake3_digest(region@),
{
    *blake3::hash(region).as_bytes()
}

/// `blake3::keyed_hash`: the 32-byte keyed digest.
#[verifier::external_body]
fn blake3_keyed_hash(key: &[u8; 32], region: &[u8]) -> (r: [u8; 32])
    ensures
        r@ == blake3_keyed_digest(key@, region@),
{
    *blake3::keyed_hash(key, region).as_bytes()
}

/// The BLAKE3 digest of `region`.
pub fn blake3_hash_auto(region: &[u8]) -> (r: [u8; 32])
    ensures
        r@ == blake3_digest(region@),
{
    blake3_hash(region)
}

/// The keyed BLAKE3 digest of `region`.
pub fn blake3_keyed_hash_auto(key: &[u8; 32], region: &[u8]) -> (r: [u8; 32])
    ensures
        r@ == blake3_keyed_digest(key@, region@),
{
    blake3_keyed_hash(key, region)
}

/// Plain BLAKE3 digest "signer" (integrity only, no key).
pub struct Blake3Signer {
    pub key_name: Name,
}

impl Blake3Signer {
    pub fn new(key_name: Name) -> (r: Blake3Signer)
        ensures
            r.key_name == key_name,
    {
        Blake3Signer { key_name }
    }

    pub fn sig_type(&self) -> (r: u64)
        ensures
            r == SIGNATURE_TYPE_DIGEST_BLAKE3_PLAIN,
    {
        SIGNATURE_TYPE_DIGEST_BLAKE3_PLAIN
    }

    /// The 32-byte digest of `region`.
    pub fn sign_sync(&self, region: &[u8]) -> (r: Vec<u8>)
        ensures
            r@ == blake3_digest(region@),
    {
        let h = blake3_hash_auto(region);
        crate::tlv::slice_to_vec(&h, 0, 32)
    }
}

/// Keyed BLAKE3 signer, with a 32-byte secret.
pub struct Blake3KeyedSigner {
    key: [u8; 32],
    key_name: Name,
}

impl Blake3KeyedSigner {
    pub fn new(key: [u8; 32], key_name: Name) -> (r: Blake3KeyedSigner)
        ensures
            r.key_view() == key@,
            r.key_name_of() == key_name,
    {
        Blake3KeyedSigner { key, key_name }
    }

    pub closed spec fn key_view(&self) -> Seq<u8> {
        self.key@
    }

    pub closed spec fn key_name_of(&self) -> Name {
        self.key_name
    }

    pub fn key_name(&self) -> (r: &Name)
        ensures
            *r == self.key_name_of(),
    {
        &self.key_name
    }

    pub fn sig_type(&self) -> (r: u64)
        ensures
            r == SIGNATURE_TYPE_DIGEST_BLAKE3_KEYED,
    {
        SIGNATURE_TYPE_DIGEST_BLAKE3_KEYED
    }

    /// The 32-byte keyed digest of `region`.
    pub fn sign_sync(&self, region: &[u8]) -> (r: Vec<u8>)
        ensures
            r@ == blake3_keyed_digest(self.key_view(), region@),
    {
        let h = blake3_keyed_hash_auto(&self.key, region);
        crate::tlv::slice_to_vec(&h, 0, 32)
    }
}

// ---------------------------------------------------------------------------
// ECDSA P-256
// ---------------------------------------------------------------------------

/// The uncompressed public point (65 bytes) of the P-256 key with this
/// secret scalar; `None` when the bytes are not a valid scalar.
pub uninterp spec fn p256_point_of(seed: Seq<u8>) -> Option<Seq<u8>>;

/// The DER ECDSA signature (SHA-256, RFC 6979 nonces) of `msg` by the key
/// with this scalar.
pub uninterp spec fn p256_signature(seed: Seq<u8>, msg: Seq<u8>) -> Seq<u8>;

/// The scalar in a PKCS#8 DER holding a P-256 key, or the error text.
pub uninterp spec fn p256_scalar_of_pkcs8(der: Seq<u8>) -> Result<Seq<u8>, Seq<char>>;

/// The PKCS#8 DER of the P-256 key with this scalar, or the error text.
pub uninterp spec fn p256_pkcs8_of(seed: Seq<u8>) -> Result<Seq<u8>, Seq<char>>;

/// `ecdsa::SigningKey::from_bytes` and the verifying key's uncompressed
/// encoding (crate `p256`): `None` for an invalid scalar.
#[verifier::external_body]
fn p256_public_point(seed: &[u8; 32]) -> (r: Option<Vec<u8>>)
    ensures
        match p256_point_of(seed@) {
            None => r is None,
            Some(p) => r matches Some(v) && v@ == p,
        },
{
    let sk = p256::ecdsa::SigningKey::from_bytes(&p256::FieldBytes::from(*seed)).ok()?;
    Some(sk.verifying_key().to_encoded_point(false).as_bytes().to_vec())
}

/// `ecdsa::SigningKey::sign` (crate `p256`), DER-encoded.
#[verifier::external_body]
fn p256_sign(seed: &[u8; 32], msg: &[u8]) -> (r: Vec<u8>)
    requires
        p256_point_of(seed@) is Some,
    ensures
        r@ == p256_signature(seed@, msg@),
{
    let sk = p256::ecdsa::SigningKey::from_bytes(&p256::FieldBytes::from(*seed)).unwrap();
    let sig: p256::ecdsa::Signature = p256::ecdsa::signature::Signer::sign(&sk, msg);
    sig.to_der().as_bytes().to_vec()
}

/// `SigningKey::from_pkcs8_der` (crate `p256`) and its scalar bytes.
#[verifier::external_body]
fn p256_from_pkcs8(der: &[u8]) -> (r: Result<[u8; 32], String>)
    ensures
        match p256_scalar_of_pkcs8(der@) {
            Ok(v) => r matches Ok(w) && w@ == v && p256_point_of(v) is Some,
            Err(m) => r matches Err(e) && e@ == m,
        },
{
    let sk = <p256::ecdsa::SigningKey as p256::pkcs8::DecodePrivateKey>::from_pkcs8_der(der).map_err(|e| format!("{e}"))?;
    Ok(sk.to_bytes().into())
}

/// `SecretKey::from_bytes(scalar).to_pkcs8_der()` (crate `p256`).
#[verifier::external_body]
fn p256_to_pkcs8(seed: &[u8; 32]) -> (r: Result<Vec<u8>, String>)
    ensures
        match p256_pkcs8_of(seed@) {
            Ok(v) => r matches Ok(w) && w@ == v,
            Err(m) => r matches Err(e) && e@ == m,
        },
{
    let sk = p256::SecretKey::from_bytes(&p256::FieldBytes::from(*seed)).map_err(|e| format!("{e}"))?;
    let der = p256::pkcs8::EncodePrivateKey::to_pkcs8_der(&sk).map_err(|e| format!("{e}"))?;
    Ok(der.as_bytes().to_vec())
}

/// The SubjectPublicKeyInfo DER header of an uncompressed P-256 point.
pub open spec fn p256_spki_prefix() -> Seq<u8> {
    seq![
        0x30u8, 0x59u8, 0x30u8, 0x13u8, 0x06u8, 0x07u8, 0x2au8, 0x86u8, 0x48u8, 0xceu8, 0x3du8, 0x02u8, 0x01u8,
        0x06u8, 0x08u8, 0x2au8, 0x86u8, 0x48u8, 0xceu8, 0x3du8, 0x03u8, 0x01u8, 0x07u8, 0x03u8, 0x42u8, 0x00u8,
    ]
}

/// Wrap an uncompressed P-256 point in a SubjectPublicKeyInfo.
pub fn p256_spki_wrap(point: &[u8]) -> (r: Vec<u8>)
    ensures
        r@ == p256_spki_prefix() + point@,
{
    let mut out: Vec<u8> = vec![
        0x30u8, 0x59u8, 0x30u8, 0x13u8, 0x06u8, 0x07u8, 0x2au8, 0x86u8, 0x48u8, 0xceu8, 0x3du8, 0x02u8, 0x01u8,
        0x06u8, 0x08u8, 0x2au8, 0x86u8, 0x48u8, 0xceu8, 0x3du8, 0x03u8, 0x01u8, 0x07u8, 0x03u8, 0x42u8, 0x00u8,
    ];
    assert(out@ =~= p256_spki_prefix());
    crate::tlv::append_bytes(&mut out, point);
    out
}

/// An ECDSA P-256 signing key under an NDN key name.
pub struct EcdsaP256Signer {
    seed: [u8; 32],
    spki_der: Vec<u8>,
    key_name: Name,
    cert_name: Option<Name>,
}

impl EcdsaP256Signer {
    #[verifier::type_invariant]
    spec fn valid(&self) -> bool {
        p256_point_of(self.seed@) is Some
    }

    pub closed spec fn seed_view(&self) -> Seq<u8> {
        self.seed@
    }

    pub closed spec fn key_name_of(&self) -> Name {
        self.key_name
    }

    pub closed spec fn cert_name_of(&self) -> Option<Name> {
        self.cert_name
    }

    pub closed spec fn spki_view(&self) -> Seq<u8> {
        self.spki_der@
    }

    /// The key with this scalar; an invalid scalar is refused.
    pub fn from_seed(seed: &[u8; 32], key_name: Name) -> (r: Result<EcdsaP256Signer, TrustError>)
        ensures
            match p256_point_of(seed@) {
                None => r == Err::<EcdsaP256Signer, TrustError>(TrustError::InvalidKey),
                Some(p) => r matches Ok(s) && s.seed_view() == seed@ && s.spki_view() == p256_spki_prefix() + p
                    && s.key_name_of() == key_name && s.cert_name_of() is None,
            },
    {
        match p256_public_point(seed) {
            None => Err(TrustError::InvalidKey),
            Some(point) => {
                let spki_der = p256_spki_wrap(point.as_slice());
                Ok(EcdsaP256Signer { seed: *seed, spki_der, key_name, cert_name: None })
            },
        }
    }

    /// A fresh key from the operating system's randomness.
    pub fn generate(key_name: Name) -> (r: Result<EcdsaP256Signer, TrustError>)
        ensures
            r matches Ok(s) ==> s.seed_view().len() == 32 && p256_point_of(s.seed_view()) is Some && s.spki_view()
                == p256_spki_prefix() + p256_point_of(s.seed_view()).unwrap() && s.key_name_of() == key_name
                && s.cert_name_of() is None,
            r matches Err(e) ==> (e matches TrustError::KeyStore(m) && m@ == "rng failure"@) || (e is InvalidKey
                && exists|sd: Seq<u8>| sd.len() == 32 && #[trigger] p256_point_of(sd) is None),
    {
        match random_seed() {
            Some(seed) => {
                let r = EcdsaP256Signer::from_seed(&seed, key_name);
                proof {
                    if p256_point_of(seed@) is None {
                        assert(seed@.len() == 32 && p256_point_of(seed@) is None);
                    }
                }
                r
            },
            None => Err(TrustError::KeyStore(crate::text::string_from_static("rng failure"))),
        }
    }

    /// The key in a PKCS#8 `PrivateKeyInfo` DER.
    pub fn from_pkcs8_der(pkcs8_der: &[u8], key_name: Name) -> (r: Result<EcdsaP256Signer, TrustError>)
        ensures
            match p256_scalar_of_pkcs8(pkcs8_der@) {
                Ok(seed) => r matches Ok(s) && s.seed_view() == seed && s.key_name_of() == key_name,
                Err(m) => r matches Err(TrustError::KeyStore(t)) && t@ == "from_pkcs8_der: "@ + m,
            },
    {
        match p256_from_pkcs8(pkcs8_der) {
            Ok(seed) => match EcdsaP256Signer::from_seed(&seed, key_name) {
                Ok(s) => Ok(s),
                Err(e) => Err(e),
            },
            Err(e) => {
                let mut t = crate::text::string_from_static("from_pkcs8_der: ");
                crate::text::push_text(&mut t, e.as_str());
                Err(TrustError::KeyStore(t))
            },
        }
    }

    /// The key as PKCS#8 `PrivateKeyInfo` DER.
    pub fn to_pkcs8_der(&self) -> (r: Result<Vec<u8>, TrustError>)
        ensures
            match p256_pkcs8_of(self.seed_view()) {
                Ok(v) => r matches Ok(w) && w@ == v,
                Err(m) => r matches Err(TrustError::KeyStore(t)) && t@ == "to_pkcs8_der: "@ + m,
            },
    {
        match p256_to_pkcs8(&self.seed) {
            Ok(v) => Ok(v),
            Err(e) => {
                let mut t = crate::text::string_from_static("to_pkcs8_der: ");
                crate::text::push_text(&mut t, e.as_str());
                Err(TrustError::KeyStore(t))
            },
        }
    }

    /// Stamp `cert_name` as the `KeyLocator` of produced signatures.
    pub fn with_cert_name(self, cert_name: Name) -> (r: EcdsaP256Signer)
        ensures
            r.seed_view() == self.seed_view(),
            r.spki_view() == self.spki_view(),
            r.key_name_of() == self.key_name_of(),
            r.cert_name_of() == Some(cert_name),
    {
        proof {
            use_type_invariant(&self);
        }
        EcdsaP256Signer { cert_name: Some(cert_name), ..self }
    }

    pub fn sig_type(&self) -> (r: u64)
        ensures
            r == SIGNATURE_TYPE_ECDSA_P256,
    {
        SIGNATURE_TYPE_ECDSA_P256
    }

    pub fn key_name(&self) -> (r: &Name)
        ensures
            *r == self.key_name_of(),
    {
        &self.key_name
    }

    /// The public key as SubjectPublicKeyInfo DER.
    pub fn public_key(&self) -> (r: Vec<u8>)
        ensures
            r@ == self.spki_view(),
    {
        crate::tlv::slice_to_vec(self.spki_der.as_slice(), 0, self.spki_der.len())
    }

    /// The DER ECDSA signature of `region`.
    pub fn sign_sync(&self, region: &[u8]) -> (r: Vec<u8>)
        ensures
            r@ == p256_signature(self.seed_view(), region@),
    {
        proof {
            use_type_invariant(self);
        }
        p256_sign(&self.seed, region)
    }
}

} // verus!
