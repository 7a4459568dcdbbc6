use ndn_security::ca::{CaConfig, CaState, Certificate, RevokeStatus};
use ndn_security::chain::{
    validate_chain, validate_interest_chain, walk_to_anchor, ChainContext, ChainValidation, InterestValidation,
    TrustPath, WalkOutcome,
};
use ndn_security::custodian::{
    respond_to, ChannelRemoteSigner, CustodianError, CustodianRef, EnclaveCustodian, InPageCustodian, PairingOffer,
    RemoteCustodian, UnlockContext, WireSignRequest, WireSignResponse,
};
use ndn_security::delegation::KeyId;
use ndn_security::name::Name;
use ndn_security::ndncert::HierarchicalPolicy;
use ndn_security::safebag::{
    detect_pkcs8_algorithm, ed25519_seed_to_pkcs8, pkcs8_to_ed25519_seed, SafeBag, SafeBagAlgorithm, SafeBagError,
    TpmKeyKind,
};
use ndn_security::signer::{
    blake3_hash_auto, verify_by_sig_type, Blake3KeyedSigner, Blake3Signer, EcdsaP256Signer, Ed25519Signer,
    HmacSha256Signer, TrustError, SIGNATURE_TYPE_DIGEST_BLAKE3_KEYED, SIGNATURE_TYPE_DIGEST_BLAKE3_PLAIN,
    SIGNATURE_TYPE_DIGEST_SHA256, SIGNATURE_TYPE_ED25519, SIGNATURE_TYPE_HMAC_SHA256,
};
use ndn_security::trust_schema::TrustSchema;
use p256::pkcs8::EncodePrivateKey;

fn n(s: &str) -> Name {
    Name::from_uri(s).unwrap()
}

fn test_key_name() -> Name {
    n("/testkey")
}

// ---------------------------------------------------------------------------
// Signers
// ---------------------------------------------------------------------------

#[test]
fn sig_type_is_ed25519() {
    let s = Ed25519Signer::from_seed(&[1u8; 32], test_key_name());
    assert_eq!(s.sig_type(), SIGNATURE_TYPE_ED25519);
}

#[test]
fn sign_produces_64_bytes() {
    let s = Ed25519Signer::from_seed(&[2u8; 32], test_key_name());
    assert_eq!(s.sign_sync(b"hello ndn").len(), 64);
}

#[test]
fn deterministic_signature() {
    let s1 = Ed25519Signer::from_seed(&[3u8; 32], test_key_name());
    let s2 = Ed25519Signer::from_seed(&[3u8; 32], test_key_name());
    assert_eq!(s1.sign_sync(b"region"), s2.sign_sync(b"region"));
}

#[test]
fn different_region_different_signature() {
    let s = Ed25519Signer::from_seed(&[4u8; 32], test_key_name());
    assert_ne!(s.sign_sync(b"region-a"), s.sign_sync(b"region-b"));
}

#[test]
fn key_name_accessor() {
    let name = test_key_name();
    let s = Ed25519Signer::from_seed(&[0u8; 32], name.clone());
    assert_eq!(s.key_name(), &name);
}

#[test]
fn cert_name_defaults_to_none() {
    let s = Ed25519Signer::from_seed(&[0u8; 32], test_key_name());
    assert!(s.cert_name().is_none());
    let s = s.with_cert_name(n("/testkey/cert"));
    assert_eq!(s.cert_name(), Some(&n("/testkey/cert")));
}

#[test]
fn ed25519_sign_sync_produces_64_bytes() {
    let s = Ed25519Signer::from_seed(&[2u8; 32], test_key_name());
    assert_eq!(s.sign_sync(b"hello ndn").len(), 64);
}

#[test]
fn ed25519_signature_verifies_under_its_key() {
    let s = Ed25519Signer::from_seed(&[6u8; 32], test_key_name());
    let sig = s.sign_sync(b"payload");
    let pk = s.public_key_bytes();
    assert_eq!(verify_by_sig_type(SIGNATURE_TYPE_ED25519, b"payload", &sig, &pk), Ok(true));
    assert_eq!(verify_by_sig_type(SIGNATURE_TYPE_ED25519, b"payload!", &sig, &pk), Ok(false));
    assert_eq!(verify_by_sig_type(99, b"payload", &sig, &pk), Err("unsupported signature type".to_string()));
}

#[test]
fn pkcs8_round_trip_preserves_key() {
    let original = Ed25519Signer::from_seed(&[9u8; 32], n("/op/alice/KEY/k1"));
    let der = original.to_pkcs8_der().expect("encode pkcs8");
    let loaded = Ed25519Signer::from_pkcs8_der(&der, n("/op/alice/KEY/k1")).expect("decode pkcs8");
    assert_eq!(original.public_key_bytes(), loaded.public_key_bytes());
    assert!(matches!(Ed25519Signer::from_pkcs8_der(b"junk", test_key_name()), Err(TrustError::KeyStore(_))));
}

#[test]
fn hmac_sig_type() {
    let s = HmacSha256Signer::new(b"secret", test_key_name());
    assert_eq!(s.sig_type(), SIGNATURE_TYPE_HMAC_SHA256);
}

#[test]
fn hmac_sign_sync_produces_32_bytes() {
    let s = HmacSha256Signer::new(b"secret", test_key_name());
    assert_eq!(s.sign_sync(b"hello ndn").len(), 32);
}

#[test]
fn hmac_deterministic() {
    let s1 = HmacSha256Signer::new(b"key", test_key_name());
    let s2 = HmacSha256Signer::new(b"key", test_key_name());
    assert_eq!(s1.sign_sync(b"data"), s2.sign_sync(b"data"));
}

#[test]
fn hmac_different_key_different_sig() {
    let s1 = HmacSha256Signer::new(b"key-a", test_key_name());
    let s2 = HmacSha256Signer::new(b"key-b", test_key_name());
    assert_ne!(s1.sign_sync(b"data"), s2.sign_sync(b"data"));
}

#[test]
fn hmac_rfc4231_vector() {
    // RFC 4231 test case 2.
    let s = HmacSha256Signer::new(b"Jefe", test_key_name());
    let tag = s.sign_sync(b"what do ya want for nothing?");
    let hex: String = tag.iter().map(|b| format!("{b:02x}")).collect();
    assert_eq!(hex, "5bdcc146bf60754e6a042426089575c75a003f089d2739839dec58b964ec3843");
}

#[test]
fn blake3_plain_and_keyed_use_distinct_sig_types() {
    let plain = Blake3Signer::new(test_key_name());
    let keyed = Blake3KeyedSigner::new([9u8; 32], test_key_name());
    assert_eq!(plain.sig_type(), SIGNATURE_TYPE_DIGEST_BLAKE3_PLAIN);
    assert_eq!(keyed.sig_type(), SIGNATURE_TYPE_DIGEST_BLAKE3_KEYED);
    assert_ne!(plain.sig_type(), keyed.sig_type());
}

#[test]
fn blake3_plain_produces_32_bytes() {
    let s = Blake3Signer::new(test_key_name());
    assert_eq!(s.sign_sync(b"hello ndn").len(), 32);
}

#[test]
fn blake3_keyed_produces_32_bytes() {
    let s = Blake3KeyedSigner::new([1u8; 32], test_key_name());
    assert_eq!(s.sign_sync(b"hello ndn").len(), 32);
}

#[test]
fn blake3_keyed_different_key_different_sig() {
    let s1 = Blake3KeyedSigner::new([1u8; 32], test_key_name());
    let s2 = Blake3KeyedSigner::new([2u8; 32], test_key_name());
    assert_ne!(s1.sign_sync(b"data"), s2.sign_sync(b"data"));
}

#[test]
fn blake3_plain_and_keyed_with_zero_key_differ() {
    let plain = Blake3Signer::new(test_key_name());
    let keyed = Blake3KeyedSigner::new([0u8; 32], test_key_name());
    assert_ne!(plain.sign_sync(b"region"), keyed.sign_sync(b"region"));
}

#[test]
fn blake3_known_digest_and_verification() {
    let h = blake3_hash_auto(b"");
    let hex: String = h.iter().map(|b| format!("{b:02x}")).collect();
    assert_eq!(hex, "af1349b9f5f9a1a6a0404dea36dcc9499bcb25c9adc112b7cc9a93cae41f3262");
    let digest = Blake3Signer::new(test_key_name()).sign_sync(b"abc");
    assert_eq!(verify_by_sig_type(SIGNATURE_TYPE_DIGEST_BLAKE3_PLAIN, b"abc", &digest, &[]), Ok(true));
    assert_eq!(verify_by_sig_type(SIGNATURE_TYPE_DIGEST_BLAKE3_PLAIN, b"abd", &digest, &[]), Ok(false));
}

#[test]
fn ecdsa_pkcs8_round_trips_and_preserves_key() {
    let original = EcdsaP256Signer::from_seed(&[7u8; 32], test_key_name()).unwrap();
    let der = original.to_pkcs8_der().unwrap();
    let reimported = EcdsaP256Signer::from_pkcs8_der(&der, test_key_name()).unwrap();
    assert_eq!(original.public_key(), reimported.public_key());
    assert_eq!(original.sign_sync(b"enroll witness"), reimported.sign_sync(b"enroll witness"));
    assert_eq!(original.public_key().len(), 91);
    assert!(matches!(EcdsaP256Signer::from_seed(&[0u8; 32], test_key_name()), Err(TrustError::InvalidKey)));
}

// ---------------------------------------------------------------------------
// SafeBag
// ---------------------------------------------------------------------------

fn fake_cert(body: &[u8]) -> Vec<u8> {
    let mut out = vec![0x06, body.len() as u8];
    out.extend_from_slice(body);
    out
}

#[test]
fn ed25519_seed_pkcs8_roundtrip() {
    let seed = [0x42u8; 32];
    let pkcs8 = ed25519_seed_to_pkcs8(&seed).expect("encode");
    let recovered = pkcs8_to_ed25519_seed(&pkcs8).expect("decode");
    assert_eq!(seed, recovered);
}

#[test]
fn safebag_encrypt_decrypt_ed25519() {
    let seed = [0xAAu8; 32];
    let pkcs8 = ed25519_seed_to_pkcs8(&seed).expect("encode pkcs8");
    let cert = fake_cert(b"identity-cert");
    let bag = SafeBag::encrypt(cert.clone(), &pkcs8, b"hunter2").expect("encrypt");
    let recovered = bag.decrypt_ed25519_seed(b"hunter2").expect("decrypt");
    assert_eq!(seed, recovered);
    assert_eq!(bag.certificate, cert);
}

// The wrong-password case of the test above, run on its own so that each
// test stays within two key derivations.
#[test]
fn safebag_encrypt_decrypt_ed25519_wrong_password() {
    let seed = [0xAAu8; 32];
    let pkcs8 = ed25519_seed_to_pkcs8(&seed).expect("encode pkcs8");
    let bag = SafeBag::encrypt(fake_cert(b"identity-cert"), &pkcs8, b"hunter2").expect("encrypt");
    assert!(bag.decrypt_ed25519_seed(b"wrong").is_err());
}

#[test]
fn algorithm_detection_ed25519() {
    let pkcs8 = ed25519_seed_to_pkcs8(&[0x55u8; 32]).expect("encode pkcs8");
    let bag = SafeBag::encrypt(fake_cert(b"c"), &pkcs8, b"pw").expect("encrypt");
    assert_eq!(bag.algorithm(b"pw").unwrap(), SafeBagAlgorithm::Ed25519);
}

#[test]
fn algorithm_detection_ecdsa_p256() {
    let sk = p256::SecretKey::random(&mut rand_core::OsRng);
    let pkcs8 = sk.to_pkcs8_der().expect("encode ecdsa pkcs8");
    let bag = SafeBag::encrypt(fake_cert(b"c"), pkcs8.as_bytes(), b"pw").expect("encrypt");
    assert_eq!(bag.algorithm(b"pw").unwrap(), SafeBagAlgorithm::EcdsaP256);
}

#[test]
fn safebag_encode_decode_roundtrip() {
    let seed = [0x77u8; 32];
    let pkcs8 = ed25519_seed_to_pkcs8(&seed).expect("encode pkcs8");
    let cert = fake_cert(b"hello");
    let bag = SafeBag::encrypt(cert.clone(), &pkcs8, b"pw").expect("encrypt");
    let parsed = SafeBag::decode(&bag.encode()).expect("decode");
    assert_eq!(parsed.certificate, cert);
    assert_eq!(parsed.decrypt_ed25519_seed(b"pw").expect("decrypt parsed"), seed);
}

#[test]
fn safebag_decode_rejects_wrong_outer_type() {
    let wire = [0x06, 0x01, 0xff];
    assert!(SafeBag::decode(&wire).is_err());
}

#[test]
fn safebag_tlv_roundtrip() {
    let cert = fake_cert(b"fake certificate body");
    let sb = SafeBag { certificate: cert.clone(), encrypted_key: b"opaque encrypted key bytes".to_vec() };
    let wire = sb.encode();
    assert_eq!(wire[0], 0x80, "outer TLV must be SafeBag (0x80)");
    let decoded = SafeBag::decode(&wire).unwrap();
    assert_eq!(decoded.certificate, cert);
    assert_eq!(decoded.encrypted_key, sb.encrypted_key);
}

#[test]
fn safebag_safebag_decode_rejects_wrong_outer_type() {
    let wire = fake_cert(b"oops");
    match SafeBag::decode(&wire) {
        Err(SafeBagError::Malformed(m)) => assert_eq!(m, "expected SafeBag (0x80), got 0x6"),
        other => panic!("expected Malformed, got {other:?}"),
    }
}

#[test]
fn safebag_decode_checks_inner_types() {
    let mut body = vec![0x07, 0x00];
    body.extend_from_slice(&[0x81, 0x00]);
    let mut wire = vec![0x80, body.len() as u8];
    wire.extend_from_slice(&body);
    assert_eq!(
        SafeBag::decode(&wire),
        Err(SafeBagError::Malformed("expected Data (0x06) inside SafeBag, got 0x7".to_string()))
    );
    let mut body = fake_cert(b"c");
    body.extend_from_slice(&[0x82, 0x00]);
    let mut wire = vec![0x80, body.len() as u8];
    wire.extend_from_slice(&body);
    assert_eq!(
        SafeBag::decode(&wire),
        Err(SafeBagError::Malformed("expected EncryptedKey (0x81), got 0x82".to_string()))
    );
}

#[test]
fn pkcs8_encrypt_decrypt_roundtrip_ed25519() {
    let mut seed = [0u8; 32];
    getrandom::getrandom(&mut seed).unwrap();
    let pkcs8 = ed25519_seed_to_pkcs8(&seed).unwrap();
    let cert = fake_cert(b"ed25519 cert");
    let pw = b"correct horse battery staple";
    let sb = SafeBag::encrypt(cert.clone(), &pkcs8, pw).unwrap();
    assert!(sb.encrypted_key.windows(32).all(|w| w != seed), "encrypted key leaked the seed");
    let decrypted = sb.decrypt_key(pw).unwrap();
    assert_eq!(decrypted, pkcs8);
    // The wire form carries the same encrypted key, so it decrypts to the
    // same PrivateKeyInfo (decryption is a function of key and password).
    let sb2 = SafeBag::decode(&sb.encode()).unwrap();
    assert_eq!(sb2.encrypted_key, sb.encrypted_key);
    assert_eq!(sb2.certificate, cert);
}

// The wrong-password case of the test above, on its own.
#[test]
fn pkcs8_encrypt_decrypt_roundtrip_ed25519_wrong_password() {
    let mut seed = [0u8; 32];
    getrandom::getrandom(&mut seed).unwrap();
    let pkcs8 = ed25519_seed_to_pkcs8(&seed).unwrap();
    let sb = SafeBag::encrypt(fake_cert(b"ed25519 cert"), &pkcs8, b"correct horse battery staple").unwrap();
    assert!(sb.decrypt_key(b"wrong password").is_err());
}

#[test]
fn detect_pkcs8_algorithm_recognises_each_kind() {
    let ed = ed25519_seed_to_pkcs8(&[5u8; 32]).unwrap();
    assert_eq!(detect_pkcs8_algorithm(&ed).unwrap(), TpmKeyKind::Ed25519);
    // A PrivateKeyInfo carrying the rsaEncryption OID.
    let rsa = [
        0x30, 0x17, 0x02, 0x01, 0x00, 0x30, 0x0d, 0x06, 0x09, 0x2a, 0x86, 0x48, 0x86, 0xf7, 0x0d, 0x01, 0x01, 0x01,
        0x05, 0x00, 0x04, 0x03, 0x01, 0x02, 0x03,
    ];
    assert_eq!(detect_pkcs8_algorithm(&rsa).unwrap(), TpmKeyKind::Rsa);
    let secret = p256::SecretKey::from_slice(&[7u8; 32]).unwrap();
    let pkcs8 = secret.to_pkcs8_der().unwrap();
    assert_eq!(detect_pkcs8_algorithm(pkcs8.as_bytes()).unwrap(), TpmKeyKind::EcdsaP256);
}

// ---------------------------------------------------------------------------
// Custodians and the remote-signer frames
// ---------------------------------------------------------------------------

#[test]
fn custodian_ref_semantics() {
    let fob = CustodianRef::Fob { fob_id: "phone".to_string() };
    assert!(!fob.key_on_this_machine());
    assert!(fob.prompts_per_action());
    assert_eq!(fob.label(), "Hardware fob");
    assert!(CustodianRef::InPage.key_on_this_machine());
    assert!(!CustodianRef::InPage.prompts_per_action());
    assert!(CustodianRef::OsKeyring.key_on_this_machine());
    assert!(!CustodianRef::OsKeyring.prompts_per_action());
    assert!(CustodianRef::BrowserExtension.prompts_per_action());
}

#[test]
fn wire_request_round_trips() {
    let req = WireSignRequest { req_id: 0x1_0000_0001, region: b"to-be-signed bytes".to_vec() };
    let decoded = WireSignRequest::decode(&req.encode()).expect("decode");
    assert_eq!(decoded, req);
}

#[test]
fn wire_response_round_trips_both_outcomes() {
    let approved = WireSignResponse::Approved { req_id: 7, signature: b"\xde\xad\xbe\xef".to_vec() };
    assert_eq!(WireSignResponse::decode(&approved.encode()).expect("decode approved"), approved);
    let denied = WireSignResponse::Denied { req_id: 9 };
    assert_eq!(WireSignResponse::decode(&denied.encode()).expect("decode denied"), denied);
}

#[test]
fn decode_rejects_wrong_message_type() {
    let resp = WireSignResponse::Denied { req_id: 1 }.encode();
    match WireSignRequest::decode(&resp) {
        Err(CustodianError::SignFailed(m)) => assert_eq!(m, "unexpected message type 0x642, want SignRequest"),
        other => panic!("unexpected {other:?}"),
    }
}

#[test]
fn pairing_offer_round_trips() {
    let offer = PairingOffer {
        dashboard_pubkey: b"dashboard-spki-der".to_vec(),
        transport_hint: "https://relay.example/ndn-fob#sess-42".to_string(),
        nonce: b"\x01\x02\x03\x04\x05\x06\x07\x08".to_vec(),
    };
    let decoded = PairingOffer::decode(&offer.encode()).expect("decode offer");
    assert_eq!(decoded, offer);
}

#[test]
fn frame_field_errors() {
    // SignRequest holding a 2-byte ReqId.
    let wire = [0xFD, 0x06, 0x40, 0x06, 0xFD, 0x06, 0x44, 0x02, 0x00, 0x01];
    assert_eq!(WireSignRequest::decode(&wire), Err(CustodianError::SignFailed("ReqId must be 8 bytes".to_string())));
    // SignResponse with a ReqId and no status.
    let mut inner = vec![0xFD, 0x06, 0x44, 0x08];
    inner.extend_from_slice(&5u64.to_be_bytes());
    let mut wire = vec![0xFD, 0x06, 0x42, inner.len() as u8];
    wire.extend_from_slice(&inner);
    assert_eq!(
        WireSignResponse::decode(&wire),
        Err(CustodianError::SignFailed("remote-signer frame missing Status".to_string()))
    );
    // ... and with a status byte that is neither.
    let mut inner2 = inner.clone();
    inner2.extend_from_slice(&[0xFD, 0x06, 0x48, 0x01, 0x05]);
    let mut wire = vec![0xFD, 0x06, 0x42, inner2.len() as u8];
    wire.extend_from_slice(&inner2);
    assert_eq!(WireSignResponse::decode(&wire), Err(CustodianError::SignFailed("bad status byte 5".to_string())));
    assert_eq!(
        WireSignResponse::decode(&[]),
        Err(CustodianError::SignFailed("malformed remote-signer frame: truncated or malformed element".to_string()))
    );
}

#[test]
fn channel_signer_correlates_responses() {
    let mut requester = ChannelRemoteSigner::new();
    let req = requester.next_request(b"cmd");
    assert_eq!(req.req_id, 1);
    assert_eq!(requester.next_req_id, 2);
    let signer = Ed25519Signer::from_seed(&[8u8; 32], test_key_name());
    let reply = respond_to(&req, true, Some(signer.sign_sync(&req.region)));
    let sig = requester.accept_response(1, &reply.encode()).expect("approved");
    assert_eq!(sig, signer.sign_sync(b"cmd"));
    let denied = respond_to(&req, false, None);
    assert_eq!(
        requester.accept_response(1, &denied.encode()),
        Err(CustodianError::SignFailed("remote signer denied the request".to_string()))
    );
    assert_eq!(
        requester.accept_response(2, &reply.encode()),
        Err(CustodianError::SignFailed("response req_id 1 != request 2 (channel desync)".to_string()))
    );
    assert_eq!(respond_to(&req, true, None), WireSignResponse::Denied { req_id: 1 });
}

#[test]
fn remote_and_enclave_custodians() {
    let remote = RemoteCustodian::new(CustodianRef::Remote { reachable_via: n("/relay") });
    assert!(remote.prompts_per_action());
    assert_eq!(remote.unlock(true), Ok(()));
    assert_eq!(remote.unlock(false), Err(CustodianError::Unavailable));
    let req = remote.sign_request(&n("/op/cmd"), b"region");
    assert_eq!(req.context, "Authorize a signed command as /op/cmd");
    assert_eq!(req.region, b"region".to_vec());
    let enclave = EnclaveCustodian::new("phone-1".to_string());
    assert_eq!(enclave.kind(), CustodianRef::Tpm { device_id: "phone-1".to_string() });
    assert_eq!(enclave.unlock(false), Err(CustodianError::Unavailable));
}

#[test]
fn in_page_custodian_signs_with_held_keys() {
    let mut custodian = InPageCustodian::new();
    let key_id = KeyId(n("/test/alice/KEY/k1"));
    let signer = Ed25519Signer::from_seed(&[7u8; 32], n("/test/alice/KEY/k1"));
    let pk = signer.public_key_bytes();
    custodian.insert(key_id.clone(), signer);
    let sig = custodian.sign(&key_id, &n("/test/alice/doc"), b"hello world").unwrap();
    assert_eq!(verify_by_sig_type(SIGNATURE_TYPE_ED25519, b"hello world", &sig, &pk), Ok(true));
    assert_eq!(custodian.public_key(&key_id), Some(pk));
    assert_eq!(custodian.unlock(UnlockContext::default()), Ok(()));
    let missing = KeyId(n("/missing/KEY/k"));
    assert!(matches!(custodian.sign(&missing, &n("/some/name"), b"x"), Err(CustodianError::UnknownKey(_))));
}

// ---------------------------------------------------------------------------
// Certificate chains
// ---------------------------------------------------------------------------

fn cert(name: &str, issuer: Option<&str>, pk: &[u8], region: &[u8], sig: Vec<u8>) -> Certificate {
    Certificate {
        name: n(name),
        issuer: issuer.map(n),
        public_key: pk.to_vec(),
        valid_from: 0,
        valid_until: u64::MAX,
        signed_region: Some(region.to_vec()),
        sig_value: Some(sig),
        sig_type: SIGNATURE_TYPE_ED25519,
    }
}

struct Fixture {
    ctx: ChainContext,
    cache: Vec<Certificate>,
    data_sig: Vec<u8>,
}

fn fixture(revoke_key: bool) -> Fixture {
    let anchor = Ed25519Signer::from_seed(&[60u8; 32], n("/anchor"));
    let key = Ed25519Signer::from_seed(&[61u8; 32], n("/key"));
    let anchor_cert = cert("/anchor", None, &anchor.public_key_bytes(), b"anchor", Vec::new());
    let key_cert = cert("/key", Some("/anchor"), &key.public_key_bytes(), b"key-cert", anchor.sign_sync(b"key-cert"));
    let ctx = ChainContext {
        schema: TrustSchema::accept_all(),
        anchors: vec![anchor_cert],
        revoked: if revoke_key { vec![n("/key")] } else { Vec::new() },
    };
    Fixture { ctx, cache: vec![key_cert], data_sig: key.sign_sync(b"data-region") }
}

#[test]
fn chain_walk_data_to_anchor() {
    let f = fixture(false);
    let r = validate_chain(&f.ctx, &f.cache, &n("/data"), SIGNATURE_TYPE_ED25519, Some(&n("/key")), b"data-region", &f.data_sig, 10, 5);
    assert_eq!(r, ChainValidation::Valid(TrustPath::CertChain(vec![n("/key"), n("/anchor")])));
    let bad = validate_chain(&f.ctx, &f.cache, &n("/data"), SIGNATURE_TYPE_ED25519, Some(&n("/key")), b"tampered", &f.data_sig, 10, 5);
    assert_eq!(bad, ChainValidation::Invalid(TrustError::InvalidSignature));
}

#[test]
fn chain_walk_missing_cert_returns_pending() {
    let f = fixture(false);
    let r = walk_to_anchor(&f.ctx, &Vec::new(), &n("/data"), &n("/key"), b"data-region", &f.data_sig, SIGNATURE_TYPE_ED25519, 10, 5);
    assert_eq!(r, WalkOutcome::Pending(n("/key")));
}

#[test]
fn chain_walk_depth_limit() {
    let key = Ed25519Signer::from_seed(&[23u8; 32], n("/key"));
    let self_signed = cert("/key", Some("/key"), &key.public_key_bytes(), b"cert", key.sign_sync(b"cert"));
    let ctx = ChainContext { schema: TrustSchema::accept_all(), anchors: Vec::new(), revoked: Vec::new() };
    let data_sig = key.sign_sync(b"data");
    match walk_to_anchor(&ctx, &vec![self_signed.clone()], &n("/data"), &n("/key"), b"data", &data_sig, SIGNATURE_TYPE_ED25519, 1, 5) {
        WalkOutcome::Invalid(TrustError::ChainCycle { name }) => assert_eq!(name, "/key"),
        other => panic!("expected ChainCycle, got: {other:?}"),
    }
    assert_eq!(
        walk_to_anchor(&ctx, &vec![self_signed], &n("/data"), &n("/key"), b"data", &data_sig, SIGNATURE_TYPE_ED25519, 1, 1),
        WalkOutcome::Invalid(TrustError::ChainTooDeep { limit: 1 })
    );
}

#[test]
fn chain_walk_rejects_a_revoked_key() {
    let f = fixture(true);
    match validate_chain(&f.ctx, &f.cache, &n("/data"), SIGNATURE_TYPE_ED25519, Some(&n("/key")), b"data-region", &f.data_sig, 10, 5) {
        ChainValidation::Invalid(TrustError::Revoked { name }) => assert_eq!(name, "/key"),
        other => panic!("expected Invalid(Revoked), got {other:?}"),
    }
}

#[test]
fn chain_validation_other_paths() {
    let f = fixture(false);
    let digest = ndn_security::digest::sha256(b"payload").to_vec();
    assert_eq!(
        validate_chain(&f.ctx, &f.cache, &n("/d"), SIGNATURE_TYPE_DIGEST_SHA256, None, b"payload", &digest, 0, 5),
        ChainValidation::Valid(TrustPath::DigestSha256)
    );
    assert_eq!(
        validate_chain(&f.ctx, &f.cache, &n("/d"), SIGNATURE_TYPE_ED25519, None, b"payload", &digest, 0, 5),
        ChainValidation::Invalid(TrustError::InvalidSignature)
    );
    let strict = ChainContext { schema: TrustSchema::new(), anchors: Vec::new(), revoked: Vec::new() };
    assert_eq!(
        validate_chain(&strict, &f.cache, &n("/data"), SIGNATURE_TYPE_ED25519, Some(&n("/key")), b"data-region", &f.data_sig, 10, 5),
        ChainValidation::Invalid(TrustError::SchemaMismatch)
    );
    assert_eq!(
        validate_interest_chain(&f.ctx, &f.cache, &n("/cmd"), SIGNATURE_TYPE_ED25519, Some(&n("/key")), b"data-region", &f.data_sig, 10, 5),
        InterestValidation::Valid
    );
    assert_eq!(
        validate_interest_chain(&f.ctx, &Vec::new(), &n("/cmd"), SIGNATURE_TYPE_ED25519, Some(&n("/key")), b"data-region", &f.data_sig, 10, 5),
        InterestValidation::Pending(n("/key"))
    );
    // An expired anchor.
    let mut expired = fixture(false);
    expired.ctx.anchors[0].valid_until = 5;
    match validate_chain(&expired.ctx, &expired.cache, &n("/data"), SIGNATURE_TYPE_ED25519, Some(&n("/key")), b"data-region", &expired.data_sig, 10, 5) {
        ChainValidation::Invalid(TrustError::CertNotFound { name }) => assert_eq!(name, "expired trust anchor: /anchor"),
        other => panic!("unexpected {other:?}"),
    }
}

// ---------------------------------------------------------------------------
// CA revocation and validity
// ---------------------------------------------------------------------------

#[test]
fn ca_revoke_request_checks_signature() {
    let cfg = CaConfig::new(n("/org/CA"), "test CA".to_string(), 86_400_000, 7 * 86_400_000, vec!["token".to_string()], HierarchicalPolicy);
    let mut ca = CaState::new(cfg);
    let anchor = Ed25519Signer::from_seed(&[9u8; 32], n("/org/KEY/a"));
    let pk = anchor.public_key_bytes();
    let name = "/org/alice/KEY/k1".to_string();
    let sig = anchor.sign_sync(name.as_bytes());
    assert_eq!(ca.revoke_request(name.clone(), &sig, None), RevokeStatus::NotFound);
    assert_eq!(ca.revoke_request(name.clone(), &[0u8; 64], Some(&pk[..])), RevokeStatus::Unauthorized);
    assert!(!ca.is_revoked(&name));
    assert_eq!(ca.revoke_request(name.clone(), &sig, Some(&pk[..])), RevokeStatus::Revoked);
    assert!(ca.is_revoked(&name));
    let profile = ca.info_profile(None);
    assert_eq!(profile.ca_prefix, "/org/CA");
    assert_eq!(profile.max_validity_secs, 7 * 86_400);
    assert!(profile.ca_certificate.is_empty());
    assert_eq!(profile.challenges, vec!["token".to_string()]);
}
