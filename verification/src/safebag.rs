//! SafeBag: the `safe-bag` wire format for moving an identity, a
//! certificate together with its password-encrypted private key.
//!
//! ```text
//! SafeBag (0x80) {
//!     Data (0x06) { ... certificate ... }
//!     EncryptedKey (0x81) { EncryptedPrivateKeyInfo (RFC 5958) }
//! }
//! ```
//!
//! The key is encrypted with PBES2 (PBKDF2-HMAC-SHA256, AES-256-CBC) by the
//! `pkcs8` crate.

use vstd::prelude::*;

use pkcs8::EncodePrivateKey;
use pkcs8::DecodePrivateKey;

use crate::ca::TLV_DATA;
use crate::text::{hex_text, push_text, string_from_static, u64_hex};
use crate::tlv::{append_bytes, lemma_tlv_roundtrip, read_tlv, slice_to_vec, tlv_encode, tlv_parse, write_tlv};

verus! {

/// TLV type of a SafeBag.
pub const TLV_SAFE_BAG: u64 = 0x80;

/// TLV type of the encrypted key inside a SafeBag.
pub const TLV_ENCRYPTED_KEY: u64 = 0x81;

/// PBKDF2 iteration count used when encrypting.
pub const PBKDF2_ITERATIONS: u32 = 600_000;

/// Why a SafeBag operation failed.
#[derive(Debug, Clone, PartialEq, Eq)]
pub enum SafeBagError {
    Malformed(String),
    Pkcs8(String),
    Ed25519(String),
    KeyConversion(String),
    UnsupportedAlgorithm(String),
}

/// A certificate (the full `Data` wire encoding) and its encrypted private
/// key (`EncryptedPrivateKeyInfo` DER).
#[derive(Debug, Clone, PartialEq, Eq)]
pub struct SafeBag {
    pub certificate: Vec<u8>,
    pub encrypted_key: Vec<u8>,
}

/// The signing algorithm of a SafeBag's key, by its PKCS#8 algorithm OID.
#[derive(Debug, Clone, PartialEq, Eq)]
pub enum SafeBagAlgorithm {
    Ed25519,
    EcdsaP256,
    /// Any other OID, as a dotted string.
    Other(String),
}

/// The kinds of key a file TPM stores.
#[derive(Debug, Clone, Copy, PartialEq, Eq)]
pub enum TpmKeyKind {
    Rsa,
    EcdsaP256,
    Ed25519,
}

/// The wire form of a SafeBag.
pub open spec fn safebag_wire(certificate: Seq<u8>, encrypted_key: Seq<u8>) -> Seq<u8> {
    tlv_encode(TLV_SAFE_BAG, certificate + tlv_encode(TLV_ENCRYPTED_KEY, encrypted_key))
}

pub open spec fn malformed(m: Seq<char>) -> Result<(Seq<u8>, Seq<u8>), Seq<char>> {
    Err(m)
}

/// Reading a SafeBag: the outer element must be a SafeBag holding a `Data`
/// element and then an `EncryptedKey` element; the certificate is the
/// `Data` element written back out. Errors are `Malformed` with the text
/// given.
pub open spec fn safebag_decoding(wire: Seq<u8>) -> Result<(Seq<u8>, Seq<u8>), Seq<char>> {
    match tlv_parse(wire) {
        None => malformed("outer TLV: truncated or malformed element"@),
        Some((typ, body, _)) => if typ != TLV_SAFE_BAG {
            malformed("expected SafeBag (0x80), got 0x"@ + hex_text(typ as nat))
        } else {
            match tlv_parse(body) {
                None => malformed("certificate TLV: truncated or malformed element"@),
                Some((ct, cb, n)) => if ct != TLV_DATA {
                    malformed("expected Data (0x06) inside SafeBag, got 0x"@ + hex_text(ct as nat))
                } else {
                    match tlv_parse(body.skip(n as int)) {
                        None => malformed("EncryptedKey TLV: truncated or malformed element"@),
                        Some((et, eb, _)) => if et != TLV_ENCRYPTED_KEY {
                            malformed("expected EncryptedKey (0x81), got 0x"@ + hex_text(et as nat))
                        } else {
                            Ok((tlv_encode(TLV_DATA, cb), eb))
                        },
                    }
                },
            }
        },
    }
}

/// The algorithm an OID names.
pub open spec fn algorithm_of(oid: Seq<char>) -> Option<SafeBagAlgorithm> {
    if oid == "1.3.101.112"@ {
        Some(SafeBagAlgorithm::Ed25519)
    } else if oid == "1.2.840.10045.2.1"@ {
        Some(SafeBagAlgorithm::EcdsaP256)
    } else {
        None
    }
}

/// What PBES2 encryption (PBKDF2-HMAC-SHA256 with the iteration count
/// above, AES-256-CBC) of a `PrivateKeyInfo` makes with this password, salt
/// and IV: the `EncryptedPrivateKeyInfo` DER, or the error text.
pub uninterp spec fn pbes2_encryption(pki: Seq<u8>, password: Seq<u8>, salt: Seq<u8>, iv: Seq<u8>) -> Result<
    Seq<u8>,
    Seq<char>,
>;

/// What decrypting an `EncryptedPrivateKeyInfo` with a password gives: the
/// `PrivateKeyInfo` DER, or the error text.
pub uninterp spec fn pbes2_decryption(epki: Seq<u8>, password: Seq<u8>) -> Result<Seq<u8>, Seq<char>>;

/// The algorithm OID of a `PrivateKeyInfo`, as a dotted string, or the
/// error text.
pub uninterp spec fn pkcs8_algorithm_oid(pki: Seq<u8>) -> Result<Seq<char>, Seq<char>>;

/// The PKCS#8 DER of the Ed25519 key with this seed, or the error text.
pub uninterp spec fn ed25519_pkcs8_of(seed: Seq<u8>) -> Result<Seq<u8>, Seq<char>>;

/// The seed of the Ed25519 key in a PKCS#8 DER, or the error text.
pub uninterp spec fn ed25519_seed_of(pki: Seq<u8>) -> Result<Seq<u8>, Seq<char>>;

/// `PrivateKeyInfo::try_from`, `pbes2::Parameters::pbkdf2_sha256_aes256cbc`
/// and `PrivateKeyInfo::encrypt_with_params` (crate `pkcs8`): the contract
/// names the result; an error carries its stage and the crate's message.
#[verifier::external_body]
fn pbes2_encrypt(pki: &[u8], password: &[u8], salt: &[u8; 16], iv: &[u8; 16]) -> (r: Result<Vec<u8>, String>)
    ensures
        match pbes2_encryption(pki@, password@, salt@, iv@) {
            Ok(v) => r matches Ok(w) && w@ == v,
            Err(m) => r matches Err(e) && e@ == m,
        },
{
    let info = pkcs8::PrivateKeyInfo::try_from(pki).map_err(|e| format!("parse PrivateKeyInfo: {e}"))?;
    let params = pkcs5::pbes2::Parameters::pbkdf2_sha256_aes256cbc(PBKDF2_ITERATIONS, salt, iv).map_err(
        |e| format!("pbes2 params: {e}"),
    )?;
    let doc = info.encrypt_with_params(params, password).map_err(|e| format!("encrypt: {e}"))?;
    Ok(doc.as_bytes().to_vec())
}

/// `EncryptedPrivateKeyInfo::try_from` and `decrypt` (crate `pkcs8`): the
/// contract names the result; an error carries its stage and the crate's
/// message.
#[verifier::external_body]
fn pbes2_decrypt(epki: &[u8], password: &[u8]) -> (r: Result<Vec<u8>, String>)
    ensures
        match pbes2_decryption(epki@, password@) {
            Ok(v) => r matches Ok(w) && w@ == v,
            Err(m) => r matches Err(e) && e@ == m,
        },
{
    let info = pkcs8::EncryptedPrivateKeyInfo::try_from(epki).map_err(
        |e| format!("parse EncryptedPrivateKeyInfo: {e}"),
    )?;
    let doc = info.decrypt(password).map_err(|e| format!("decrypt: {e}"))?;
    Ok(doc.as_bytes().to_vec())
}

/// `PrivateKeyInfo::try_from` and the algorithm OID's dotted string.
#[verifier::external_body]
pub(crate) fn algorithm_oid(pki: &[u8]) -> (r: Result<String, String>)
    ensures
        match pkcs8_algorithm_oid(pki@) {
            Ok(v) => r matches Ok(w) && w@ == v,
            Err(m) => r matches Err(e) && e@ == m,
        },
{
    let info = pkcs8::PrivateKeyInfo::try_from(pki).map_err(|e| format!("{e}"))?;
    Ok(info.algorithm.oid.to_string())
}

/// `SigningKey::from_bytes(seed).to_pkcs8_der()` (crate `ed25519-dalek`).
#[verifier::external_body]
pub(crate) fn ed25519_to_pkcs8(seed: &[u8; 32]) -> (r: Result<Vec<u8>, String>)
    ensures
        match ed25519_pkcs8_of(seed@) {
            Ok(v) => r matches Ok(w) && w@ == v,
            Err(m) => r matches Err(e) && e@ == m,
        },
{
    let sk = ed25519_dalek::SigningKey::from_bytes(seed);
    let doc = sk.to_pkcs8_der().map_err(|e| format!("{e}"))?;
    Ok(doc.as_bytes().to_vec())
}

/// `SigningKey::from_pkcs8_der(der).to_bytes()` (crate `ed25519-dalek`).
#[verifier::external_body]
pub(crate) fn ed25519_from_pkcs8(der: &[u8]) -> (r: Result<[u8; 32], String>)
    ensures
        match ed25519_seed_of(der@) {
            Ok(v) => r matches Ok(w) && w@ == v,
            Err(m) => r matches Err(e) && e@ == m,
        },
{
    let sk = ed25519_dalek::SigningKey::from_pkcs8_der(der).map_err(|e| format!("{e}"))?;
    Ok(sk.to_bytes())
}

fn malformed_error(prefix: &str, typ: u64) -> (r: SafeBagError)
    ensures
        r matches SafeBagError::Malformed(m) && m@ == prefix@ + hex_text(typ as nat),
{
    let mut m = string_from_static(prefix);
    push_text(&mut m, u64_hex(typ).as_str());
    SafeBagError::Malformed(m)
}

fn prefixed(prefix: &str, e: String) -> (r: String)
    ensures
        r@ == prefix@ + e@,
{
    let mut m = string_from_static(prefix);
    push_text(&mut m, e.as_str());
    m
}

impl SafeBag {
    /// The wire form.
    pub fn encode(&self) -> (r: Vec<u8>)
        ensures
            r@ == safebag_wire(self.certificate@, self.encrypted_key@),
    {
        let mut body: Vec<u8> = Vec::new();
        append_bytes(&mut body, self.certificate.as_slice());
        write_tlv(&mut body, TLV_ENCRYPTED_KEY, self.encrypted_key.as_slice());
        let mut out: Vec<u8> = Vec::new();
        write_tlv(&mut out, TLV_SAFE_BAG, body.as_slice());
        proof {
            assert(body@ =~= self.certificate@ + tlv_encode(TLV_ENCRYPTED_KEY, self.encrypted_key@));
            assert(out@ =~= safebag_wire(self.certificate@, self.encrypted_key@));
        }
        out
    }

    /// Read a SafeBag, checking the outer, certificate and key element
    /// types.
    pub fn decode(wire: &[u8]) -> (r: Result<SafeBag, SafeBagError>)
        ensures
            match safebag_decoding(wire@) {
                Ok((c, k)) => r matches Ok(b) && b.certificate@ == c && b.encrypted_key@ == k,
                Err(m) => r matches Err(SafeBagError::Malformed(t)) && t@ == m,
            },
    {
        proof {
            assert(wire@.skip(0) =~= wire@);
        }
        let sp = match read_tlv(wire, 0) {
            None => return Err(SafeBagError::Malformed(string_from_static("outer TLV: truncated or malformed element"))),
            Some(sp) => sp,
        };
        if sp.typ != TLV_SAFE_BAG {
            return Err(malformed_error("expected SafeBag (0x80), got 0x", sp.typ));
        }
        let body = slice_to_vec(wire, sp.value_start, sp.value_end);
        proof {
            assert(body@.skip(0) =~= body@);
        }
        let cp = match read_tlv(body.as_slice(), 0) {
            None => return Err(
                SafeBagError::Malformed(string_from_static("certificate TLV: truncated or malformed element")),
            ),
            Some(cp) => cp,
        };
        if cp.typ != TLV_DATA {
            return Err(malformed_error("expected Data (0x06) inside SafeBag, got 0x", cp.typ));
        }
        let cert_body = slice_to_vec(body.as_slice(), cp.value_start, cp.value_end);
        let mut certificate: Vec<u8> = Vec::new();
        write_tlv(&mut certificate, TLV_DATA, cert_body.as_slice());
        proof {
            assert(certificate@ =~= tlv_encode(TLV_DATA, cert_body@));
        }
        let ep = match read_tlv(body.as_slice(), cp.value_end) {
            None => return Err(
                SafeBagError::Malformed(string_from_static("EncryptedKey TLV: truncated or malformed element")),
            ),
            Some(ep) => ep,
        };
        if ep.typ != TLV_ENCRYPTED_KEY {
            return Err(malformed_error("expected EncryptedKey (0x81), got 0x", ep.typ));
        }
        let encrypted_key = slice_to_vec(body.as_slice(), ep.value_start, ep.value_end);
        Ok(SafeBag { certificate, encrypted_key })
    }

    /// Encrypt a `PrivateKeyInfo` DER under `password` with a fresh random
    /// salt and IV.
    pub fn encrypt(certificate: Vec<u8>, pkcs8_pki_der: &[u8], password: &[u8]) -> (r: Result<SafeBag, SafeBagError>)
        ensures
            r matches Ok(b) ==> b.certificate@ == certificate@ && exists|salt: Seq<u8>, iv: Seq<u8>|
                #[trigger] pbes2_encryption(pkcs8_pki_der@, password@, salt, iv) == Ok::<Seq<u8>, Seq<char>>(
                    b.encrypted_key@,
                ),
            r matches Err(e) ==> e is Pkcs8,
    {
        let salt = match crate::confidentiality::os_random::<16>() {
            Some(b) => b,
            None => return Err(SafeBagError::Pkcs8(crate::text::string_from_static("rng failure"))),
        };
        let iv = match crate::confidentiality::os_random::<16>() {
            Some(b) => b,
            None => return Err(SafeBagError::Pkcs8(crate::text::string_from_static("rng failure"))),
        };
        match pbes2_encrypt(pkcs8_pki_der, password, &salt, &iv) {
            Ok(encrypted_key) => Ok(SafeBag { certificate, encrypted_key }),
            Err(e) => Err(SafeBagError::Pkcs8(e)),
        }
    }

    /// The `PrivateKeyInfo` DER under the encryption.
    pub fn decrypt_pkcs8(&self, password: &[u8]) -> (r: Result<Vec<u8>, SafeBagError>)
        ensures
            match pbes2_decryption(self.encrypted_key@, password@) {
                Ok(v) => r matches Ok(w) && w@ == v,
                Err(m) => r matches Err(SafeBagError::Pkcs8(t)) && t@ == m,
            },
    {
        match pbes2_decrypt(self.encrypted_key.as_slice(), password) {
            Ok(v) => Ok(v),
            Err(e) => Err(SafeBagError::Pkcs8(e)),
        }
    }

    /// The same as [`SafeBag::decrypt_pkcs8`].
    pub fn decrypt_key(&self, password: &[u8]) -> (r: Result<Vec<u8>, SafeBagError>)
        ensures
            match pbes2_decryption(self.encrypted_key@, password@) {
                Ok(v) => r matches Ok(w) && w@ == v,
                Err(m) => r matches Err(SafeBagError::Pkcs8(t)) && t@ == m,
            },
    {
        self.decrypt_pkcs8(password)
    }

    /// The Ed25519 seed under the encryption.
    pub fn decrypt_ed25519_seed(&self, password: &[u8]) -> (r: Result<[u8; 32], SafeBagError>)
        ensures
            match pbes2_decryption(self.encrypted_key@, password@) {
                Err(m) => r matches Err(SafeBagError::Pkcs8(t)) && t@ == m,
                Ok(pki) => match ed25519_seed_of(pki) {
                    Ok(seed) => r matches Ok(s) && s@ == seed,
                    Err(m) => r matches Err(SafeBagError::Ed25519(t)) && t@ == "from_pkcs8_der: "@ + m,
                },
            },
    {
        let pkcs8 = match self.decrypt_pkcs8(password) {
            Err(e) => return Err(e),
            Ok(p) => p,
        };
        pkcs8_to_ed25519_seed(pkcs8.as_slice())
    }

    /// The algorithm of the key, without exposing it.
    pub fn algorithm(&self, password: &[u8]) -> (r: Result<SafeBagAlgorithm, SafeBagError>)
        ensures
            match pbes2_decryption(self.encrypted_key@, password@) {
                Err(m) => r matches Err(SafeBagError::Pkcs8(t)) && t@ == m,
                Ok(pki) => match pkcs8_algorithm_oid(pki) {
                    Err(m) => r matches Err(SafeBagError::Pkcs8(t)) && t@ == "parse PrivateKeyInfo: "@ + m,
                    Ok(oid) => match algorithm_of(oid) {
                        Some(a) => r == Ok::<SafeBagAlgorithm, SafeBagError>(a),
                        None => r matches Ok(SafeBagAlgorithm::Other(o)) && o@ == oid,
                    },
                },
            },
    {
        let pkcs8 = match self.decrypt_pkcs8(password) {
            Err(e) => return Err(e),
            Ok(p) => p,
        };
        match algorithm_oid(pkcs8.as_slice()) {
            Err(e) => Err(SafeBagError::Pkcs8(prefixed("parse PrivateKeyInfo: ", e))),
            Ok(oid) => Ok(algorithm_for_oid(oid.as_str())),
        }
    }
}

/// The algorithm named by a dotted OID string.
pub fn algorithm_for_oid(oid: &str) -> (r: SafeBagAlgorithm)
    ensures
        match algorithm_of(oid@) {
            Some(a) => r == a,
            None => r matches SafeBagAlgorithm::Other(o) && o@ == oid@,
        },
{
    if crate::text::str_eq(oid, "1.3.101.112") {
        SafeBagAlgorithm::Ed25519
    } else if crate::text::str_eq(oid, "1.2.840.10045.2.1") {
        SafeBagAlgorithm::EcdsaP256
    } else {
        SafeBagAlgorithm::Other(string_from_static(oid))
    }
}

/// The PKCS#8 DER of the Ed25519 key with this seed.
pub fn ed25519_seed_to_pkcs8(seed: &[u8; 32]) -> (r: Result<Vec<u8>, SafeBagError>)
    ensures
        match ed25519_pkcs8_of(seed@) {
            Ok(v) => r matches Ok(w) && w@ == v,
            Err(m) => r matches Err(SafeBagError::Ed25519(t)) && t@ == "to_pkcs8_der: "@ + m,
        },
{
    match ed25519_to_pkcs8(seed) {
        Ok(v) => Ok(v),
        Err(e) => Err(SafeBagError::Ed25519(prefixed("to_pkcs8_der: ", e))),
    }
}

/// The seed of the Ed25519 key in a PKCS#8 DER.
pub fn pkcs8_to_ed25519_seed(pkcs8_der: &[u8]) -> (r: Result<[u8; 32], SafeBagError>)
    ensures
        match ed25519_seed_of(pkcs8_der@) {
            Ok(v) => r matches Ok(w) && w@ == v,
            Err(m) => r matches Err(SafeBagError::Ed25519(t)) && t@ == "from_pkcs8_der: "@ + m,
        },
{
    match ed25519_from_pkcs8(pkcs8_der) {
        Ok(v) => Ok(v),
        Err(e) => Err(SafeBagError::Ed25519(prefixed("from_pkcs8_der: ", e))),
    }
}

/// The kind of key in a PKCS#8 DER, by its algorithm OID.
pub fn detect_pkcs8_algorithm(pkcs8_der: &[u8]) -> (r: Result<TpmKeyKind, SafeBagError>)
    ensures
        match pkcs8_algorithm_oid(pkcs8_der@) {
            Err(m) => r matches Err(SafeBagError::Pkcs8(t)) && t@ == "PrivateKeyInfo parse: "@ + m,
            Ok(oid) => if oid == "1.2.840.113549.1.1.1"@ {
                r == Ok::<TpmKeyKind, SafeBagError>(TpmKeyKind::Rsa)
            } else if oid == "1.2.840.10045.2.1"@ {
                r == Ok::<TpmKeyKind, SafeBagError>(TpmKeyKind::EcdsaP256)
            } else if oid == "1.3.101.112"@ {
                r == Ok::<TpmKeyKind, SafeBagError>(TpmKeyKind::Ed25519)
            } else {
                r matches Err(SafeBagError::UnsupportedAlgorithm(t)) && t@ == "unknown PKCS#8 algorithm OID "@ + oid
            },
        },
{
    let oid = match algorithm_oid(pkcs8_der) {
        Err(e) => return Err(SafeBagError::Pkcs8(prefixed("PrivateKeyInfo parse: ", e))),
        Ok(o) => o,
    };
    if crate::text::str_eq(oid.as_str(), "1.2.840.113549.1.1.1") {
        Ok(TpmKeyKind::Rsa)
    } else if crate::text::str_eq(oid.as_str(), "1.2.840.10045.2.1") {
        Ok(TpmKeyKind::EcdsaP256)
    } else if crate::text::str_eq(oid.as_str(), "1.3.101.112") {
        Ok(TpmKeyKind::Ed25519)
    } else {
        Err(SafeBagError::UnsupportedAlgorithm(prefixed("unknown PKCS#8 algorithm OID ", oid)))
    }
}

/// Reading a SafeBag whose certificate is a `Data` element gives it back.
pub proof fn lemma_safebag_roundtrip(cert_body: Seq<u8>, encrypted_key: Seq<u8>)
    requires
        safebag_wire(tlv_encode(TLV_DATA, cert_body), encrypted_key).len() <= u64::MAX,
    ensures
        safebag_decoding(safebag_wire(tlv_encode(TLV_DATA, cert_body), encrypted_key)) == Ok::<
            (Seq<u8>, Seq<u8>),
            Seq<char>,
        >((tlv_encode(TLV_DATA, cert_body), encrypted_key)),
{
    let c = tlv_encode(TLV_DATA, cert_body);
    let k = tlv_encode(TLV_ENCRYPTED_KEY, encrypted_key);
    let body = c + k;
    let w = safebag_wire(c, encrypted_key);
    assert(body.len() <= w.len());
    lemma_tlv_roundtrip(TLV_SAFE_BAG, body, Seq::empty());
    assert(w + Seq::<u8>::empty() =~= w);
    assert(cert_body.len() <= c.len());
    lemma_tlv_roundtrip(TLV_DATA, cert_body, k);
    assert(body.skip(c.len() as int) =~= k);
    assert(encrypted_key.len() <= k.len());
    lemma_tlv_roundtrip(TLV_ENCRYPTED_KEY, encrypted_key, Seq::empty());
    assert(k + Seq::<u8>::empty() =~= k);
}

} // verus!
