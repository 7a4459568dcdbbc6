use ndn_security::ca::Certificate;
use ndn_security::name::{Name, NameComponent};
use ndn_security::pib::{decode_cert, encode_cert, name_from_uri, name_to_uri, signer_from_stored, PibError, PibSigner};
use sha2::Digest;
use ndn_security::signer::SIGNATURE_TYPE_ED25519;
use ndn_security::trust_schema::PatternComponent;
use ndn_security::validation::{InsecureTrust, SecurityProfile, Unverified, ValidationResult, VerifyError};

fn key_name(s: &str) -> Name {
    Name::from_components(vec![NameComponent::generic(s.as_bytes().to_vec())])
}

#[test]
fn name_uri_roundtrip_ascii() {
    let name = Name::from_components(vec![
        NameComponent::generic(b"ndn".to_vec()),
        NameComponent::generic(b"router1".to_vec()),
    ]);
    let uri = name_to_uri(&name);
    assert_eq!(uri, "/ndn/router1");
    let back = name_from_uri(&uri).unwrap();
    assert_eq!(back, name);
}

#[test]
fn name_uri_roundtrip_binary() {
    let name = Name::from_components(vec![
        NameComponent::generic(b"ndn".to_vec()),
        NameComponent::generic(vec![0x08, 0x01, 0xFF]),
    ]);
    let uri = name_to_uri(&name);
    let back = name_from_uri(&uri).unwrap();
    assert_eq!(back, name);
}

#[test]
fn root_name_uri() {
    let uri = name_to_uri(&Name::root());
    assert_eq!(uri, "/");
    let back = name_from_uri(&uri).unwrap();
    assert_eq!(back, Name::root());
    assert_eq!(name_from_uri("").unwrap(), Name::root());
}

fn sample_cert(name: Name) -> Certificate {
    Certificate {
        name,
        issuer: None,
        public_key: vec![0x55; 32],
        valid_from: 1_000_000,
        valid_until: 9_999_999,
        signed_region: None,
        sig_value: None,
        sig_type: SIGNATURE_TYPE_ED25519,
    }
}

#[test]
fn cert_encode_decode_roundtrip() {
    let name = key_name("enc");
    let cert = sample_cert(name.clone());
    let encoded = encode_cert(&cert);
    assert_eq!(encoded.len(), 27 + 32);
    assert_eq!(&encoded[..5], b"NDNC\x02");
    let decoded = decode_cert(name, &encoded).unwrap();
    assert_eq!(decoded.public_key, cert.public_key);
    assert_eq!(decoded.valid_from, cert.valid_from);
    assert_eq!(decoded.valid_until, cert.valid_until);
    assert_eq!(decoded.sig_type, SIGNATURE_TYPE_ED25519);
}

#[test]
fn corrupt_cert_errors() {
    let name = key_name("bad");
    assert!(decode_cert(name.clone(), b"").is_err());
    assert!(decode_cert(name.clone(), b"BADC\x01\x00\x00\x00\x00\x00\x00\x00\x00\x00\x00\x00\x00\x00\x00\x00\x00\x00\x00\x00\x00\x00\x00\x00\x00").is_err());
}

#[test]
fn corrupt_cert_messages() {
    let name = key_name("bad");
    assert_eq!(decode_cert(name.clone(), b"NDN"), Err(PibError::Corrupt("cert too short".to_string())));
    assert_eq!(decode_cert(name.clone(), b"XDNC\x02"), Err(PibError::Corrupt("invalid magic bytes".to_string())));
    assert_eq!(decode_cert(name.clone(), b"NDNC\x02\x00"), Err(PibError::Corrupt("v2 cert too short".to_string())));
    assert_eq!(decode_cert(name.clone(), b"NDNC\x09"), Err(PibError::Corrupt("unknown NDNC version 9".to_string())));
    let mut v1 = b"NDNC\x01".to_vec();
    v1.extend_from_slice(&5u64.to_be_bytes());
    v1.extend_from_slice(&6u64.to_be_bytes());
    v1.extend_from_slice(&2u32.to_be_bytes());
    v1.extend_from_slice(&[0xAA, 0xBB]);
    let c = decode_cert(name.clone(), &v1).unwrap();
    assert_eq!((c.valid_from, c.valid_until, c.public_key.clone()), (5, 6, vec![0xAA, 0xBB]));
    assert_eq!(c.sig_type, SIGNATURE_TYPE_ED25519);
    v1.pop();
    assert_eq!(decode_cert(name, &v1), Err(PibError::Corrupt("v1 cert data truncated".to_string())));
}

#[test]
fn peek_borrows_without_consuming() {
    let u = Unverified::new(key_name("thing"));
    assert_eq!(u.peek().to_uri(), "/thing");
    let d = u.trust_unchecked();
    assert_eq!(d.to_uri(), "/thing");
}

#[test]
fn trust_unchecked_is_the_explicit_bypass() {
    let u = Unverified::new(key_name("demo"));
    let d = u.trust_unchecked();
    assert_eq!(d.to_uri(), "/demo");
}

#[test]
fn settle_rejects_digest_only_unless_allowed() {
    let digest = ValidationResult::Valid { data: 7u32, digest_only: true };
    assert_eq!(Unverified::<u32>::settle(digest.clone(), false), Err(VerifyError::UnauthenticatedDigest));
    assert_eq!(Unverified::<u32>::settle(digest, true), Ok(7));
    let signed = ValidationResult::Valid { data: 8u32, digest_only: false };
    assert_eq!(Unverified::<u32>::settle(signed, false), Ok(8));
    assert_eq!(
        Unverified::<u32>::settle::<u32>(ValidationResult::<u32>::Invalid("bad".to_string()), true),
        Err(VerifyError::Invalid("bad".to_string()))
    );
    assert_eq!(Unverified::<u32>::settle::<u32>(ValidationResult::<u32>::Pending, true), Err(VerifyError::Pending));
}

#[test]
fn insecure_trust_accepts_all() {
    let schema = InsecureTrust.validator();
    assert!(schema.allows(&key_name("a"), &key_name("b")));
    assert_eq!(schema.rules.len(), 1);
    assert!(matches!(&schema.rules[0].data_pattern.0[0], PatternComponent::MultiCapture(v) if v == "_"));
    let p = SecurityProfile::Custom(schema);
    assert!(matches!(p, SecurityProfile::Custom(_)));
}

#[test]
fn name_hash_is_hex_sha256_of_length_prefixed_components() {
    let name = Name::from_uri("/a/bc").unwrap();
    let mut input = vec![0, 0, 0, 1, b'a'];
    input.extend_from_slice(&[0, 0, 0, 2, b'b', b'c']);
    let expected: String = sha2::Sha256::digest(&input).iter().map(|b| format!("{b:02x}")).collect();
    assert_eq!(ndn_security::pib::name_hash(&name), expected);
}

#[test]
fn stored_keys_load_as_signers() {
    let name = Name::from_uri("/op/KEY/k").unwrap();
    assert_eq!(
        signer_from_stored(None, None, &name).err(),
        Some(PibError::KeyNotFound("/op/KEY/k".to_string()))
    );
    assert_eq!(
        signer_from_stored(None, Some(&[1u8; 31]), &name).err(),
        Some(PibError::Corrupt("private.key must be exactly 32 bytes (legacy Ed25519 seed)".to_string()))
    );
    match signer_from_stored(None, Some(&[1u8; 32]), &name) {
        Ok(PibSigner::Ed25519(s)) => assert_eq!(s.key_name(), &name),
        _ => panic!("expected an Ed25519 signer"),
    }
    let der = ndn_security::safebag::ed25519_seed_to_pkcs8(&[1u8; 32]).unwrap();
    match signer_from_stored(Some(&der), None, &name) {
        Ok(PibSigner::Ed25519(s)) => {
            let legacy = ndn_security::signer::Ed25519Signer::from_seed(&[1u8; 32], name.clone());
            assert_eq!(s.public_key_bytes(), legacy.public_key_bytes());
        }
        _ => panic!("expected an Ed25519 signer"),
    }
    assert!(matches!(signer_from_stored(Some(b"junk"), None, &name), Err(PibError::Corrupt(_))));
}
