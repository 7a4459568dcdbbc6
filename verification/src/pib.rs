//! The file-based public information base: where it lives, the NDNC
//! certificate summary it stores, and the name form of its directories.
//!
//! NDNC v2 certificate format: 4 bytes magic `NDNC`, 1 byte version (2),
//! 2 bytes signature type, 8 bytes `valid_from` (ns), 8 bytes `valid_until`
//! (ns), 4 bytes public-key length, then the public key; all big-endian.
//! Version 1 has no signature type and means Ed25519.

use vstd::prelude::*;

use crate::acme::path_join;
use crate::ca::Certificate;
use crate::name::{ComponentView, Name};
use crate::name_uri::uri_parse;
use crate::text::{push_text, string_from_static, utf8_bytes};
use crate::tlv::{be_bytes, be_value, pow256, push_be, read_be};
use crate::safebag::{ed25519_seed_of, pkcs8_algorithm_oid};
use crate::signer::{p256_scalar_of_pkcs8, EcdsaP256Signer, Ed25519Signer, TrustError};

verus! {

/// The first four bytes of an NDNC certificate: `NDNC`.
pub open spec fn ndnc_magic() -> Seq<u8> {
    seq![0x4Eu8, 0x44u8, 0x4Eu8, 0x43u8]
}

pub const NDNC_VERSION_V1: u8 = 1;

pub const NDNC_VERSION_V2: u8 = 2;

/// The kind of an I/O failure, as far as the base tells them apart.
#[derive(Debug, Clone, Copy, PartialEq, Eq)]
pub enum IoKind {
    /// What was looked for does not exist.
    NotFound,
    /// Any other failure.
    Other,
}

/// Errors of the public information base.
#[derive(Debug, Clone, PartialEq, Eq)]
pub enum PibError {
    /// An I/O failure: its kind and message.
    Io(IoKind, String),
    KeyNotFound(String),
    CertNotFound(String),
    Corrupt(String),
    InvalidName,
}

/// `std::path::Path::exists` on `path`: whether something is there on
/// disk. Nothing is promised of the answer, which the disk decides.
#[verifier::external_body]
fn path_exists(path: &str) -> bool {
    std::path::Path::new(path).exists()
}

/// A public information base rooted at a directory.
#[derive(Debug, Clone, PartialEq, Eq)]
pub struct FilePib {
    root: String,
}

impl FilePib {
    pub closed spec fn root_view(&self) -> Seq<char> {
        self.root@
    }

    /// Open the PIB at `root`, given whether its `keys` directory exists:
    /// it opens exactly when the directory is there; otherwise the error is
    /// `NotFound`.
    pub fn open_with(root: &str, keys_exists: bool) -> (r: Result<FilePib, PibError>)
        ensures
            r is Ok <==> keys_exists,
            r matches Ok(p) ==> p.root_view() == root@,
            r matches Err(e) ==> (e matches PibError::Io(IoKind::NotFound, m)
                && m@ == "PIB not found at "@ + root@ + " (run `ndn-sec keygen` to create one)"@),
    {
        if !keys_exists {
            let mut m = string_from_static("PIB not found at ");
            push_text(&mut m, root);
            push_text(&mut m, " (run `ndn-sec keygen` to create one)");
            return Err(PibError::Io(IoKind::NotFound, m));
        }
        Ok(FilePib { root: string_from_static(root) })
    }

    /// Open an existing PIB: its `keys` directory must exist (what
    /// [`FilePib::open_with`] makes of the answer the disk gives).
    pub fn open(root: &str) -> (r: Result<FilePib, PibError>)
        ensures
            r matches Ok(p) ==> p.root_view() == root@,
            r matches Err(e) ==> (e matches PibError::Io(IoKind::NotFound, m)
                && m@ == "PIB not found at "@ + root@ + " (run `ndn-sec keygen` to create one)"@),
    {
        let keys_dir = path_join(root, "keys");
        let keys_exists = path_exists(keys_dir.as_str());
        FilePib::open_with(root, keys_exists)
    }

    /// The root directory.
    pub fn root(&self) -> (r: &str)
        ensures
            r@ == self.root_view(),
    {
        self.root.as_str()
    }
}

/// The NDNC v2 encoding of a certificate summary.
pub open spec fn ndnc_encoding(sig_type: u64, valid_from: u64, valid_until: u64, pk: Seq<u8>) -> Seq<u8> {
    ndnc_magic() + seq![NDNC_VERSION_V2] + be_bytes((sig_type % 65536) as nat, 2) + be_bytes(valid_from as nat, 8) + be_bytes(
        valid_until as nat,
        8,
    ) + be_bytes(pk.len() % 0x1_0000_0000, 4) + pk
}

/// Encode a certificate's summary in NDNC v2 (the signature type is kept to
/// 16 bits).
pub fn encode_cert(cert: &Certificate) -> (r: Vec<u8>)
    ensures
        r@ == ndnc_encoding(cert.sig_type, cert.valid_from, cert.valid_until, cert.public_key@),
{
    let mut buf: Vec<u8> = Vec::new();
    buf.push(0x4E);
    buf.push(0x44);
    buf.push(0x4E);
    buf.push(0x43);
    buf.push(NDNC_VERSION_V2);
    push_be(&mut buf, cert.sig_type % 65536, 2);
    push_be(&mut buf, cert.valid_from, 8);
    push_be(&mut buf, cert.valid_until, 8);
    let n = cert.public_key.len();
    let len32: u64 = (n as u64) % 0x1_0000_0000;
    push_be(&mut buf, len32, 4);
    crate::tlv::append_bytes(&mut buf, cert.public_key.as_slice());
    proof {
        assert((cert.sig_type % 65536) as nat == (cert.sig_type % 65536) as nat);
        assert(buf@ =~= ndnc_encoding(cert.sig_type, cert.valid_from, cert.valid_until, cert.public_key@));
    }
    buf
}

/// The fields of a certificate summary.
pub struct NdncFields {
    pub sig_type: u64,
    pub valid_from: u64,
    pub valid_until: u64,
    pub public_key: Seq<u8>,
}

/// What an NDNC certificate holds, or why it is corrupt.
pub open spec fn ndnc_decoding(d: Seq<u8>) -> Result<NdncFields, Seq<char>> {
    if d.len() < 5 {
        Err("cert too short"@)
    } else if d.take(4) != ndnc_magic() {
        Err("invalid magic bytes"@)
    } else if d[4] == NDNC_VERSION_V1 {
        if d.len() < 25 {
            Err("v1 cert too short"@)
        } else {
            let n = be_value(d.subrange(21, 25));
            if d.len() < 25 + n {
                Err("v1 cert data truncated"@)
            } else {
                Ok(
                    NdncFields {
                        sig_type: crate::signer::SIGNATURE_TYPE_ED25519,
                        valid_from: be_value(d.subrange(5, 13)) as u64,
                        valid_until: be_value(d.subrange(13, 21)) as u64,
                        public_key: d.subrange(25, 25 + n as int),
                    },
                )
            }
        }
    } else if d[4] == NDNC_VERSION_V2 {
        if d.len() < 27 {
            Err("v2 cert too short"@)
        } else {
            let n = be_value(d.subrange(23, 27));
            if d.len() < 27 + n {
                Err("v2 cert data truncated"@)
            } else {
                Ok(
                    NdncFields {
                        sig_type: be_value(d.subrange(5, 7)) as u64,
                        valid_from: be_value(d.subrange(7, 15)) as u64,
                        valid_until: be_value(d.subrange(15, 23)) as u64,
                        public_key: d.subrange(27, 27 + n as int),
                    },
                )
            }
        }
    } else {
        Err("unknown NDNC version "@ + crate::text::decimal_text(d[4] as nat))
    }
}

/// Decode an NDNC certificate (v1 or v2) under `name`.
pub fn decode_cert(name: Name, data: &[u8]) -> (r: Result<Certificate, PibError>)
    ensures
        match ndnc_decoding(data@) {
            Ok(f) => r matches Ok(c) && c.name == name && c.issuer is None && c.signed_region is None && c.sig_value is None
                && c.sig_type == f.sig_type && c.valid_from == f.valid_from && c.valid_until == f.valid_until
                && c.public_key@ == f.public_key,
            Err(m) => r matches Err(PibError::Corrupt(s)) && s@ == m,
        },
{
    if data.len() < 5 {
        return Err(PibError::Corrupt(string_from_static("cert too short")));
    }
    if !(data[0] == 0x4E && data[1] == 0x44 && data[2] == 0x4E && data[3] == 0x43) {
        proof {
            assert(!(data@.take(4) =~= ndnc_magic()) ==> data@.take(4) != ndnc_magic());
        }
        return Err(PibError::Corrupt(string_from_static("invalid magic bytes")));
    }
    proof {
        assert(data@.take(4) =~= ndnc_magic());
        crate::tlv::lemma_pow256_values();
    }
    if data[4] == NDNC_VERSION_V1 {
        if data.len() < 25 {
            return Err(PibError::Corrupt(string_from_static("v1 cert too short")));
        }
        let valid_from = read_be(data, 5, 8);
        let valid_until = read_be(data, 13, 8);
        let pk_len = read_be(data, 21, 4);
        proof {
            crate::tlv::lemma_be_value_bound(data@.subrange(21, 25));
        }
        if (data.len() as u64) < 25 + pk_len {
            return Err(PibError::Corrupt(string_from_static("v1 cert data truncated")));
        }
        let pk = crate::tlv::slice_to_vec(data, 25, 25 + pk_len as usize);
        return Ok(
            Certificate {
                name,
                issuer: None,
                public_key: pk,
                valid_from,
                valid_until,
                signed_region: None,
                sig_value: None,
                sig_type: crate::signer::SIGNATURE_TYPE_ED25519,
            },
        );
    }
    if data[4] == NDNC_VERSION_V2 {
        if data.len() < 27 {
            return Err(PibError::Corrupt(string_from_static("v2 cert too short")));
        }
        let sig_type = read_be(data, 5, 2);
        let valid_from = read_be(data, 7, 8);
        let valid_until = read_be(data, 15, 8);
        let pk_len = read_be(data, 23, 4);
        proof {
            crate::tlv::lemma_be_value_bound(data@.subrange(23, 27));
        }
        if (data.len() as u64) < 27 + pk_len {
            return Err(PibError::Corrupt(string_from_static("v2 cert data truncated")));
        }
        let pk = crate::tlv::slice_to_vec(data, 27, 27 + pk_len as usize);
        return Ok(
            Certificate {
                name,
                issuer: None,
                public_key: pk,
                valid_from,
                valid_until,
                signed_region: None,
                sig_value: None,
                sig_type,
            },
        );
    }
    let v = crate::text::u64_text(data[4] as u64);
    let mut m = string_from_static("unknown NDNC version ");
    push_text(&mut m, v.as_str());
    Err(PibError::Corrupt(m))
}

/// Decoding what `encode_cert` wrote gives the summary back (the signature
/// type kept to 16 bits), when the key is shorter than 4 GiB.
pub proof fn lemma_ndnc_roundtrip(sig_type: u64, valid_from: u64, valid_until: u64, pk: Seq<u8>)
    requires
        pk.len() < 0x1_0000_0000,
    ensures
        ndnc_decoding(ndnc_encoding(sig_type, valid_from, valid_until, pk)) matches Ok(f) && f.sig_type == sig_type % 65536
            && f.valid_from == valid_from && f.valid_until == valid_until && f.public_key == pk,
{
    let e = ndnc_encoding(sig_type, valid_from, valid_until, pk);
    crate::tlv::lemma_pow256_values();
    crate::tlv::lemma_be_roundtrip((sig_type % 65536) as nat, 2);
    crate::tlv::lemma_be_roundtrip(valid_from as nat, 8);
    crate::tlv::lemma_be_roundtrip(valid_until as nat, 8);
    crate::tlv::lemma_be_roundtrip(pk.len() % 0x1_0000_0000, 4);
    assert(e.take(4) =~= ndnc_magic());
    assert(e[4] == NDNC_VERSION_V2);
    assert(e.subrange(5, 7) =~= be_bytes((sig_type % 65536) as nat, 2));
    assert(e.subrange(7, 15) =~= be_bytes(valid_from as nat, 8));
    assert(e.subrange(15, 23) =~= be_bytes(valid_until as nat, 8));
    assert(e.subrange(23, 27) =~= be_bytes(pk.len() % 0x1_0000_0000, 4));
    assert(e.subrange(27, 27 + pk.len() as int) =~= pk);
}

/// The canonical URI of a name (`/` for the root).
pub fn name_to_uri(name: &Name) -> (r: String)
    ensures
        r@ == crate::name_uri::spec_uri_text(name@),
{
    name.to_uri()
}

/// Parse a name stored as a URI: `/` or the empty text is the root.
pub fn name_from_uri(uri: &str) -> (r: Result<Name, PibError>)
    ensures
        (uri@ == "/"@ || uri@.len() == 0) ==> (r matches Ok(n) && n@.len() == 0),
        !(uri@ == "/"@ || uri@.len() == 0) ==> match uri_parse(utf8_bytes(uri@)) {
            Some(n) => r matches Ok(m) && m@ == n,
            None => r == Err::<Name, PibError>(PibError::InvalidName),
        },
{
    if uri.unicode_len() == 0 || crate::text::str_eq(uri, "/") {
        return Ok(Name::root());
    }
    match Name::from_uri(uri) {
        Some(n) => Ok(n),
        None => Err(PibError::InvalidName),
    }
}

/// The bytes whose digest names a key's directory: each component's value,
/// preceded by its length on four big-endian bytes.
pub open spec fn name_hash_input(n: Seq<ComponentView>) -> Seq<u8>
    decreases n.len(),
{
    if n.len() == 0 {
        Seq::empty()
    } else {
        name_hash_input(n.drop_last()) + be_bytes(n.last().1.len() % 0x1_0000_0000, 4) + n.last().1
    }
}

/// The directory name of a key or anchor: the lower-case hex SHA-256 of
/// its components.
pub fn name_hash(name: &Name) -> (r: String)
    ensures
        r@ == crate::text::ascii_chars(crate::challenge::hex_bytes(crate::digest::sha256_of(name_hash_input(name@)))),
{
    let mut bytes: Vec<u8> = Vec::new();
    let mut i: usize = 0;
    let ghost v = name@;
    proof {
        assert(v.take(0) =~= Seq::<ComponentView>::empty());
    }
    while i < name.components.len()
        invariant
            i <= name.components@.len(),
            v == name@,
            v.len() == name.components@.len(),
            bytes@ == name_hash_input(v.take(i as int)),
        decreases name.components@.len() - i,
    {
        let c = &name.components[i];
        let len = c.value.len();
        let len32: u64 = (len as u64) % 0x1_0000_0000;
        push_be(&mut bytes, len32, 4);
        crate::tlv::append_bytes(&mut bytes, c.value.as_slice());
        proof {
            assert(v.take(i + 1).drop_last() =~= v.take(i as int));
            assert(v.take(i + 1).last() == c@);
        }
        i = i + 1;
    }
    proof {
        assert(v.take(i as int) =~= v);
    }
    let h = crate::digest::sha256(bytes.as_slice());
    crate::challenge::hex_encode(&h)
}

/// A stored private key, ready to sign.
pub enum PibSigner {
    Ed25519(Ed25519Signer),
    EcdsaP256(EcdsaP256Signer),
}

/// The signer for a stored PKCS#8 `PrivateKeyInfo`, by its algorithm OID:
/// Ed25519 and ECDSA P-256 are supported.
pub fn signer_from_pkcs8(pkcs8: &[u8], key_name: &Name) -> (r: Result<PibSigner, PibError>)
    ensures
        match pkcs8_algorithm_oid(pkcs8@) {
            Err(m) => r matches Err(PibError::Corrupt(t)) && t@ == "parse PrivateKeyInfo: "@ + m,
            Ok(oid) => if oid == "1.3.101.112"@ {
                match ed25519_seed_of(pkcs8@) {
                    Ok(seed) => r matches Ok(PibSigner::Ed25519(s)) && s.seed_view() == seed && s.key_name_of()@
                        == key_name@,
                    Err(m) => r matches Err(PibError::Corrupt(t)) && t@
                        == "pkcs8 \u{2192} ed25519 seed: Ed25519 PKCS#8 conversion: from_pkcs8_der: "@ + m,
                }
            } else if oid == "1.2.840.10045.2.1"@ {
                match p256_scalar_of_pkcs8(pkcs8@) {
                    Ok(seed) => r matches Ok(PibSigner::EcdsaP256(s)) && s.seed_view() == seed && s.key_name_of()@
                        == key_name@,
                    Err(m) => r matches Err(PibError::Corrupt(t)) && t@
                        == "pkcs8 \u{2192} ecdsa-p256: "@ + "from_pkcs8_der: "@ + m,
                }
            } else {
                r matches Err(PibError::Corrupt(t)) && t@ == "stored key uses unsupported algorithm OID "@ + oid
                    + " (only Ed25519 / ECDSA-P256 wired today)"@
            },
        },
{
    let oid = match crate::safebag::algorithm_oid(pkcs8) {
        Err(e) => {
            let mut t = string_from_static("parse PrivateKeyInfo: ");
            push_text(&mut t, e.as_str());
            return Err(PibError::Corrupt(t));
        },
        Ok(o) => o,
    };
    if crate::text::str_eq(oid.as_str(), "1.3.101.112") {
        match crate::safebag::ed25519_from_pkcs8(pkcs8) {
            Ok(seed) => Ok(PibSigner::Ed25519(Ed25519Signer::from_seed(&seed, key_name.copy()))),
            Err(e) => {
                let mut t = string_from_static("pkcs8 \u{2192} ed25519 seed: Ed25519 PKCS#8 conversion: from_pkcs8_der: ");
                push_text(&mut t, e.as_str());
                Err(PibError::Corrupt(t))
            },
        }
    } else if crate::text::str_eq(oid.as_str(), "1.2.840.10045.2.1") {
        match EcdsaP256Signer::from_pkcs8_der(pkcs8, key_name.copy()) {
            Ok(s) => Ok(PibSigner::EcdsaP256(s)),
            Err(TrustError::KeyStore(m)) => {
                let mut t = string_from_static("pkcs8 \u{2192} ecdsa-p256: ");
                push_text(&mut t, m.as_str());
                Err(PibError::Corrupt(t))
            },
            Err(_) => Err(PibError::Corrupt(string_from_static("pkcs8 \u{2192} ecdsa-p256: invalid key"))),
        }
    } else {
        let mut t = string_from_static("stored key uses unsupported algorithm OID ");
        push_text(&mut t, oid.as_str());
        push_text(&mut t, " (only Ed25519 / ECDSA-P256 wired today)");
        Err(PibError::Corrupt(t))
    }
}

/// The signer for a stored key: the PKCS#8 file when there is one, else
/// the legacy 32-byte Ed25519 seed file.
pub fn signer_from_stored(pkcs8: Option<&[u8]>, legacy_seed: Option<&[u8]>, key_name: &Name) -> (r: Result<
    PibSigner,
    PibError,
>)
    ensures
        pkcs8 is None && legacy_seed is None ==> (r matches Err(PibError::KeyNotFound(t)) && t@
            == crate::name_uri::spec_uri_text(key_name@)),
        pkcs8 is None && legacy_seed is Some && legacy_seed.unwrap()@.len() != 32 ==> (r matches Err(PibError::Corrupt(t)) && t@
            == "private.key must be exactly 32 bytes (legacy Ed25519 seed)"@),
        pkcs8 is None && legacy_seed is Some && legacy_seed.unwrap()@.len() == 32 ==> (r matches Ok(PibSigner::Ed25519(s))
            && s.seed_view() == legacy_seed.unwrap()@ && s.key_name_of()@ == key_name@),
        pkcs8 is Some ==> match pkcs8_algorithm_oid(pkcs8.unwrap()@) {
            Err(m) => r matches Err(PibError::Corrupt(t)) && t@ == "parse PrivateKeyInfo: "@ + m,
            Ok(oid) => oid == "1.3.101.112"@ || oid == "1.2.840.10045.2.1"@ || r is Err,
        },
{
    match pkcs8 {
        Some(p) => signer_from_pkcs8(p, key_name),
        None => match legacy_seed {
            None => Err(PibError::KeyNotFound(key_name.to_uri())),
            Some(b) => {
                if b.len() != 32 {
                    return Err(PibError::Corrupt(string_from_static("private.key must be exactly 32 bytes (legacy Ed25519 seed)")));
                }
                let mut seed = [0u8; 32];
                let mut i: usize = 0;
                while i < 32
                    invariant
                        i <= 32,
                        b@.len() == 32,
                        forall|j: int| 0 <= j < i ==> seed@[j] == b@[j],
                    decreases 32 - i,
                {
                    seed.set(i, b[i]);
                    i = i + 1;
                }
                proof {
                    assert(seed@ =~= b@);
                }
                Ok(PibSigner::Ed25519(Ed25519Signer::from_seed(&seed, key_name.copy())))
            },
        },
    }
}

} // verus!
