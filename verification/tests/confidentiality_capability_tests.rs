use ndn_security::capability::{Capability, CapabilityError};
use ndn_security::confidentiality::{
    unwrap_ck, wrap_ck, ConfidentialityError, ContentKey, EpochPolicy, RotatingKey, Sealed,
};
use ndn_security::name::Name;

fn name(s: &str) -> Name {
    Name::from_uri(s).expect("name")
}

#[test]
fn seal_open_round_trips() {
    let ck = ContentKey::generate().unwrap();
    let sealed = ck.seal(b"telemetry frame 42", b"/muas/drone-A/telemetry").unwrap();
    let pt = ck.open(&sealed, b"/muas/drone-A/telemetry").unwrap();
    assert_eq!(pt, b"telemetry frame 42");
}

#[test]
fn open_rejects_wrong_aad() {
    let ck = ContentKey::generate().unwrap();
    let sealed = ck.seal(b"secret", b"/name/v1").unwrap();
    assert_eq!(ck.open(&sealed, b"/name/v2"), Err(ConfidentialityError::OpenFailed));
}

#[test]
fn open_rejects_tampered_ciphertext() {
    let ck = ContentKey::generate().unwrap();
    let mut sealed = ck.seal(b"secret payload", b"aad").unwrap();
    sealed.ciphertext[0] ^= 0xff;
    assert_eq!(ck.open(&sealed, b"aad"), Err(ConfidentialityError::OpenFailed));
}

#[test]
fn open_rejects_wrong_key() {
    let ck = ContentKey::generate().unwrap();
    let other = ContentKey::generate().unwrap();
    let sealed = ck.seal(b"secret", b"aad").unwrap();
    assert_eq!(other.open(&sealed, b"aad"), Err(ConfidentialityError::OpenFailed));
}

#[test]
fn wrap_unwrap_recovers_the_same_key() {
    let kek = ContentKey::generate().unwrap();
    let ck = ContentKey::generate().unwrap();
    let sealed = ck.seal(b"under the content key", b"ctx").unwrap();
    let wrapped = wrap_ck(&kek, &ck, b"/ck-data/name").unwrap();
    let recovered = unwrap_ck(&kek, &wrapped, b"/ck-data/name").unwrap();
    assert_eq!(recovered.expose(), ck.expose());
    assert_eq!(recovered.open(&sealed, b"ctx").unwrap(), b"under the content key");
}

#[test]
fn unwrap_rejects_wrong_kek() {
    let kek = ContentKey::generate().unwrap();
    let wrong = ContentKey::generate().unwrap();
    let ck = ContentKey::generate().unwrap();
    let wrapped = wrap_ck(&kek, &ck, b"n").unwrap();
    assert!(matches!(unwrap_ck(&wrong, &wrapped, b"n"), Err(ConfidentialityError::OpenFailed)));
}

#[test]
fn unwrap_rejects_short_key() {
    let kek = ContentKey::generate().unwrap();
    let wrapped = kek.seal(b"too short", b"n").unwrap();
    assert!(matches!(unwrap_ck(&kek, &wrapped, b"n"), Err(ConfidentialityError::BadKeyLength)));
}

#[test]
fn sealed_bytes_round_trip() {
    let ck = ContentKey::generate().unwrap();
    let sealed = ck.seal(b"frame", b"aad").unwrap();
    let bytes = sealed.to_bytes();
    assert_eq!(bytes.len(), 12 + 16 + 5);
    let parsed = Sealed::from_bytes(&bytes).unwrap();
    assert_eq!(parsed, sealed);
    assert_eq!(ck.open(&parsed, b"aad").unwrap(), b"frame");
}

#[test]
fn sealed_from_bytes_rejects_short_input() {
    assert_eq!(Sealed::from_bytes(&[0u8; 10]), Err(ConfidentialityError::Malformed));
    assert_eq!(Sealed::from_bytes(&[0u8; 28]).unwrap().ciphertext.len(), 0);
}

#[test]
fn nonces_are_unique_per_seal() {
    let ck = ContentKey::generate().unwrap();
    let a = ck.seal(b"x", b"").unwrap();
    let b = ck.seal(b"x", b"").unwrap();
    assert_ne!(a.nonce, b.nonce);
    assert_ne!(a.ciphertext, b.ciphertext);
}

#[test]
fn rotates_after_max_uses() {
    let policy = EpochPolicy { max_age_secs: 60, max_uses: 3 };
    let mut rk = RotatingKey::new(0, policy).unwrap();
    let e0 = *rk.epoch_id();
    for _ in 0..3 {
        let (e, _) = rk.seal(0, b"m", b"").unwrap();
        assert_eq!(e, e0);
    }
    let (e4, _) = rk.seal(0, b"m", b"").unwrap();
    assert_ne!(e4, e0, "key should rotate once max_uses is reached");
}

#[test]
fn rotates_after_max_age() {
    let policy = EpochPolicy { max_age_secs: 60, max_uses: 10_000 };
    let mut rk = RotatingKey::new(0, policy).unwrap();
    let e0 = *rk.epoch_id();
    assert!(!rk.is_stale(59));
    let (e_before, _) = rk.seal(59, b"m", b"").unwrap();
    assert_eq!(e_before, e0);
    assert!(rk.is_stale(60));
    let (e_after, _) = rk.seal(60, b"m", b"").unwrap();
    assert_ne!(e_after, e0, "key should rotate once max_age is reached");
}

#[test]
fn receiver_with_rotated_epoch_key_can_open() {
    let mut rk = RotatingKey::new(0, EpochPolicy::default()).unwrap();
    let (_epoch, sealed) = rk.seal(0, b"hello", b"/svc/topic").unwrap();
    let shipped_ck = ContentKey::from_bytes(*rk.content_key().expose());
    assert_eq!(shipped_ck.open(&sealed, b"/svc/topic").unwrap(), b"hello");
}

#[test]
fn epoch_policy_defaults() {
    let p = EpochPolicy::default();
    assert_eq!(p.max_age_secs, 60);
    assert_eq!(p.max_uses, 10_000);
}

fn sample() -> Capability {
    Capability::new(name("/muas/alice"), name("/svc/mavlink"), 100, 200)
}

#[test]
fn encode_decode_round_trips() {
    let cap = sample();
    let decoded = Capability::decode(&cap.encode()).expect("decode");
    assert_eq!(decoded, cap);
}

#[test]
fn authorizes_matching_request() {
    let cap = sample();
    assert_eq!(cap.authorizes(&name("/muas/alice/KEY/k1"), &name("/svc/mavlink/execute"), 150), Ok(()));
}

#[test]
fn rejects_wrong_grantee() {
    let cap = sample();
    assert_eq!(
        cap.authorizes(&name("/muas/bob/KEY/k1"), &name("/svc/mavlink/execute"), 150),
        Err(CapabilityError::NotGrantee)
    );
}

#[test]
fn rejects_out_of_scope_operation() {
    let cap = sample();
    assert_eq!(
        cap.authorizes(&name("/muas/alice/KEY/k1"), &name("/svc/camera/capture"), 150),
        Err(CapabilityError::OutOfScope)
    );
}

#[test]
fn rejects_before_and_after_window() {
    let cap = sample();
    let signer = name("/muas/alice/KEY/k1");
    let op = name("/svc/mavlink/execute");
    assert_eq!(cap.authorizes(&signer, &op, 99), Err(CapabilityError::NotYetValid));
    assert_eq!(cap.authorizes(&signer, &op, 200), Err(CapabilityError::Expired));
    assert_eq!(cap.authorizes(&signer, &op, 199), Ok(()));
}

#[test]
fn grantee_may_be_an_exact_key_name() {
    let cap = Capability::new(name("/muas/alice/KEY/k1"), name("/svc"), 0, 10);
    assert_eq!(cap.authorizes(&name("/muas/alice/KEY/k1"), &name("/svc/x"), 5), Ok(()));
    assert_eq!(
        cap.authorizes(&name("/muas/alice/KEY/k2"), &name("/svc/x"), 5),
        Err(CapabilityError::NotGrantee)
    );
}

#[test]
fn decode_rejects_wrong_top_type() {
    let bogus = name("/not/a/capability").encode_to_tlv();
    assert_eq!(Capability::decode(&bogus), Err(CapabilityError::Malformed("not a capability")));
}

#[test]
fn decode_rejects_truncated() {
    let mut bytes = sample().encode();
    bytes.truncate(bytes.len() - 4);
    assert!(Capability::decode(&bytes).is_err());
}

#[test]
fn decode_rejects_empty_input() {
    assert_eq!(Capability::decode(&[]), Err(CapabilityError::Malformed("top-level TLV")));
}

#[test]
fn nsf_t2_capability_expires_after_window() {
    let cap = Capability::new(name("/muas/alice"), name("/svc/mavlink"), 100, 200);
    let signer = name("/muas/alice/KEY/k1");
    let op = name("/svc/mavlink/execute");
    assert_eq!(cap.authorizes(&signer, &op, 199), Ok(()));
    assert_eq!(cap.authorizes(&signer, &op, 200), Err(CapabilityError::Expired));
}

#[test]
fn nsf_t4_expired_capability_rejected() {
    let cap = Capability::new(name("/muas/alice"), name("/svc"), 0, 10);
    assert_eq!(cap.authorizes(&name("/muas/alice/KEY/k1"), &name("/svc/x"), 11), Err(CapabilityError::Expired));
}

#[test]
fn nsf_t5_unknown_grantee_rejected() {
    let cap = Capability::new(name("/muas/alice"), name("/svc"), 0, 100);
    assert_eq!(cap.authorizes(&name("/muas/mallory/KEY/k1"), &name("/svc/x"), 50), Err(CapabilityError::NotGrantee));
}
