use ndn_security::signer::Ed25519Signer;
use ndn_security::transition::{
    resolve_chain, AuthorityOutcome, CertRotation, ChainError, DidDocumentRotation, IdentityProof, KeyRecovery, KeyState,
    RecoveryCommitment, RecoveryProof, RecoverySignature, TransitionAuthority, TransitionProof,
};
use ndn_security::ca::{admit_request, answer_issuance};
use ndn_security::challenge::mail_for;
use ndn_security::ndncert::PolicyDecision;
use ndn_security::attestation::{
    encode_additional_description, find_description_value, AttestationSet, ChallengeAttestation, Combinator,
};
use ndn_security::ca::{CaConfig, CaState, Certificate, ChallengeResponse, Conclusion, STATUS_FAILURE, STATUS_PENDING, STATUS_SUCCESS};
use ndn_security::challenge::{
    generate_otp, hotp, sha256_hex, verify_hotp, ChallengeOutcome, ChallengeState, EmailChallenge, EmailSender,
    JsonFields, JsonScalar, NopChallenge, TokenCheck, TokenStore, YubikeyHotpChallenge,
};
use ndn_security::name::Name;
use ndn_security::ndncert::{
    AcceptAllIssuance, CertError, CertRequest, HierarchicalPolicy, IssuanceContext, IssuanceDecision, IssuancePolicy,
    RequireAttestationKind,
};

fn n(s: &str) -> Name {
    Name::from_uri(s).unwrap()
}

fn ctx<'a>(
    req: &'a CertRequest,
    challenge_type: &'a str,
    ca_prefix: &'a Name,
    attestation: Option<&'a AttestationSet>,
) -> IssuanceContext<'a> {
    IssuanceContext {
        cert_request: req,
        challenge_type,
        attestation,
        ca_prefix,
        default_validity_ms: 86_400_000,
        max_validity_ms: 7 * 86_400_000,
    }
}

fn req(name: &str) -> CertRequest {
    CertRequest { name: name.to_string(), public_key: String::new(), not_before: 0, not_after: 0 }
}

#[test]
fn accept_all_issues_at_default_validity() {
    let policy = AcceptAllIssuance;
    let r = req("/registry/zone-a/device/x");
    let ca = n("/registry/CA");
    match policy.decide(&ctx(&r, "token", &ca, None)) {
        IssuanceDecision::Issue { validity_ms } => assert_eq!(validity_ms, 86_400_000),
        IssuanceDecision::Deny(r) => panic!("default policy should accept, got deny: {r}"),
    }
}

struct RegistryIssuance {
    allowed_zone: Name,
}

impl IssuancePolicy for RegistryIssuance {
    fn decide(&self, ctx: &IssuanceContext) -> IssuanceDecision {
        if ctx.challenge_type != "token" {
            return IssuanceDecision::Deny(format!(
                "registry requires `token` challenge, got `{}`",
                ctx.challenge_type
            ));
        }
        let Some(name) = Name::from_uri(&ctx.cert_request.name) else {
            return IssuanceDecision::Deny(format!("unparsable subject name: {}", ctx.cert_request.name));
        };
        if !name.has_prefix(&self.allowed_zone) {
            return IssuanceDecision::Deny(format!(
                "{} is outside registry zone {}",
                name.to_uri(),
                self.allowed_zone.to_uri()
            ));
        }
        IssuanceDecision::Issue { validity_ms: 7 * 86_400_000 }
    }
}

#[test]
fn registry_policy_allows_in_zone_token_request() {
    let policy = RegistryIssuance { allowed_zone: n("/registry/zone-a") };
    let r = req("/registry/zone-a/device/x");
    let ca = n("/registry/CA");
    match policy.decide(&ctx(&r, "token", &ca, None)) {
        IssuanceDecision::Issue { validity_ms } => assert_eq!(validity_ms, 7 * 86_400_000),
        IssuanceDecision::Deny(r) => panic!("expected accept, got deny: {r}"),
    }
}

#[test]
fn registry_policy_denies_wrong_challenge() {
    let policy = RegistryIssuance { allowed_zone: n("/registry/zone-a") };
    let r = req("/registry/zone-a/device/x");
    let ca = n("/registry/CA");
    match policy.decide(&ctx(&r, "pin", &ca, None)) {
        IssuanceDecision::Deny(reason) => assert!(reason.contains("token"), "{reason}"),
        IssuanceDecision::Issue { .. } => panic!("expected deny on wrong challenge"),
    }
}

#[test]
fn registry_policy_denies_out_of_zone() {
    let policy = RegistryIssuance { allowed_zone: n("/registry/zone-a") };
    let r = req("/registry/zone-b/device/x");
    let ca = n("/registry/CA");
    match policy.decide(&ctx(&r, "token", &ca, None)) {
        IssuanceDecision::Deny(reason) => assert!(reason.contains("outside"), "{reason}"),
        IssuanceDecision::Issue { .. } => panic!("expected deny on out-of-zone name"),
    }
}

fn signed_device_approval() -> AttestationSet {
    let mut leaf = ChallengeAttestation::of_kind("device-approval");
    leaf.signature = Some("c2ln".to_string());
    AttestationSet::single(leaf)
}

#[test]
fn require_attestation_allows_outside_gated_prefix() {
    let policy = RequireAttestationKind::new(n("/high-trust"), "device-approval".to_string());
    let r = req("/registry/zone-a/device/x");
    let ca = n("/registry/CA");
    assert!(matches!(policy.decide(&ctx(&r, "token", &ca, None)), IssuanceDecision::Issue { .. }));
}

#[test]
fn require_attestation_gates_inside_prefix() {
    let policy = RequireAttestationKind::new(n("/high-trust"), "device-approval".to_string());
    let r = req("/high-trust/device/x");
    let ca = n("/high-trust/CA");
    let token_att = AttestationSet::single(ChallengeAttestation::of_kind("token"));
    match policy.decide(&ctx(&r, "token", &ca, Some(&token_att))) {
        IssuanceDecision::Deny(reason) => assert!(reason.contains("device-approval")),
        IssuanceDecision::Issue { .. } => panic!("expected deny without device-approval leaf"),
    }
    let da = signed_device_approval();
    assert!(matches!(
        policy.decide(&ctx(&r, "device-approval", &ca, Some(&da))),
        IssuanceDecision::Issue { .. }
    ));
}

#[test]
fn require_signed_rejects_unsigned_leaf() {
    let policy =
        RequireAttestationKind::new(n("/high-trust"), "device-approval".to_string()).require_signed(true);
    let r = req("/high-trust/device/x");
    let ca = n("/high-trust/CA");
    let unsigned = AttestationSet::single(ChallengeAttestation::of_kind("device-approval"));
    match policy.decide(&ctx(&r, "device-approval", &ca, Some(&unsigned))) {
        IssuanceDecision::Deny(reason) => assert!(reason.contains("signed")),
        IssuanceDecision::Issue { .. } => panic!("expected deny on unsigned leaf"),
    }
    let signed = signed_device_approval();
    assert!(matches!(
        policy.decide(&ctx(&r, "device-approval", &ca, Some(&signed))),
        IssuanceDecision::Issue { .. }
    ));
}

#[test]
fn stamp_only_fills_unset_leaves() {
    let mut first = ChallengeAttestation::of_kind("token");
    first.performed_at = 42;
    let mut set = AttestationSet::new(Combinator::AllOf, vec![first, ChallengeAttestation::of_kind("email")]);
    set.stamp(999);
    assert_eq!(set.leaves[0].performed_at, 42, "pre-stamped leaf untouched");
    assert_eq!(set.leaves[1].performed_at, 999);
}

fn tlv(t: u8, v: &[u8]) -> Vec<u8> {
    let mut out = vec![t, v.len() as u8];
    out.extend_from_slice(v);
    out
}

fn tlv_wide(t: u16, v: &[u8]) -> Vec<u8> {
    let mut out = vec![0xFD, (t >> 8) as u8, t as u8, v.len() as u8];
    out.extend_from_slice(v);
    out
}

#[test]
fn additional_description_round_trips_through_signed_region() {
    let json = br#"{"combinator":"single","leaves":[]}"#;
    let ad = encode_additional_description(json);
    let mut info = tlv(0x1b, &[5]);
    info.extend(tlv_wide(0x0102, &ad));
    let region = tlv(0x16, &info);
    let parsed = find_description_value(&region, b"ndn.challenge-attestations");
    assert_eq!(parsed, Some(json.to_vec()));
}

#[test]
fn absent_attestation_parses_as_none() {
    let region = tlv(0x16, &tlv(0x1b, &[5]));
    assert!(find_description_value(&region, b"ndn.challenge-attestations").is_none());
}

#[test]
fn foreign_description_key_is_ignored() {
    let mut entry = tlv_wide(0x0201, b"some.other.key");
    entry.extend(tlv_wide(0x0202, b"hello"));
    let ad = tlv_wide(0x0200, &entry);
    let region = tlv(0x16, &tlv_wide(0x0102, &ad));
    assert!(find_description_value(&region, b"ndn.challenge-attestations").is_none());
}

const TEST_SEED: &[u8] = b"12345678901234567890";

#[test]
fn hotp_rfc4226_test_vectors() {
    let expected = [755224, 287082, 359152, 969429, 338314, 254676, 287922, 162583, 399871, 520489];
    for (counter, &expected_code) in expected.iter().enumerate() {
        assert_eq!(hotp(TEST_SEED, counter as u64), expected_code, "counter={counter}");
    }
}

#[test]
fn verify_hotp_exact_counter() {
    let code = hotp(TEST_SEED, 0);
    assert_eq!(verify_hotp(TEST_SEED, 0, 20, code), Some(1));
}

#[test]
fn verify_hotp_window_lookahead() {
    let code = hotp(TEST_SEED, 5);
    assert_eq!(verify_hotp(TEST_SEED, 0, 20, code), Some(6));
}

#[test]
fn verify_hotp_outside_window() {
    let code = hotp(TEST_SEED, 25);
    assert!(verify_hotp(TEST_SEED, 0, 20, code).is_none());
}

#[test]
fn token_store_tokens_are_single_use() {
    let mut store = TokenStore::new();
    store.add("t1".to_string());
    assert_eq!(store.len(), 1);
    assert!(store.consume("t1"));
    assert!(!store.consume("t1"));
    assert!(store.is_empty());
}

#[test]
fn token_store_scope_and_expiry() {
    let mut store = TokenStore::new();
    store.add_scoped_at("t".to_string(), Some(10), Some(n("/alice")), 100);
    assert!(matches!(store.check_and_consume_at("t", Some(&n("/bob/x")), 105), TokenCheck::OutOfScope(_)));
    assert_eq!(store.check_and_consume_at("t", Some(&n("/alice/x")), 111), TokenCheck::Expired);
    let mut store = TokenStore::new();
    store.add_scoped_at("u".to_string(), Some(10), Some(n("/alice")), 100);
    assert_eq!(store.check_and_consume_at("u", Some(&n("/alice/x")), 105), TokenCheck::Accepted);
    assert_eq!(store.check_and_consume_at("u", Some(&n("/alice/x")), 105), TokenCheck::NotFound);
}

#[test]
fn nop_challenge_approves() {
    let c = NopChallenge::new();
    let st = c.begin(&req("/a"));
    assert_eq!(c.challenge_type(), "nop");
    assert!(matches!(c.verify(&st, &JsonFields::new()), ChallengeOutcome::Approved { attestation: None }));
}

struct RecordingSender {
    fail: bool,
}

impl EmailSender for RecordingSender {
    fn send(&self, _address: &str, _code: &str) -> Result<(), String> {
        if self.fail {
            Err("smtp down".to_string())
        } else {
            Ok(())
        }
    }
}

fn fields(entries: Vec<(&str, JsonScalar)>) -> JsonFields {
    JsonFields { entries: entries.into_iter().map(|(k, v)| (k.to_string(), v)).collect() }
}

#[test]
fn email_challenge_two_rounds() {
    let ch = EmailChallenge::new(RecordingSender { fail: false }).with_ttl(60).with_max_tries(2);
    let st = ch.begin(&req("/a"));
    assert_eq!(st.data.get_str("phase"), Some("awaiting_email".to_string()));
    let params = fields(vec![("email", JsonScalar::Str("a@example.com".to_string()))]);
    let out = ch.verify_at(&st, &params, 1000, "123456").unwrap();
    let next = match out {
        ChallengeOutcome::Pending { status_message, remaining_tries, remaining_time_secs, next_state } => {
            assert_eq!(status_message, "Code sent to a@example.com");
            assert_eq!(remaining_tries, 2);
            assert_eq!(remaining_time_secs, 60);
            next_state
        }
        other => panic!("expected pending, got {other:?}"),
    };
    assert_eq!(next.data.get_u64("expires_at"), Some(1060));
    assert_eq!(next.data.get_str("otp_hash"), Some(sha256_hex("123456")));
    let wrong = fields(vec![
        ("email", JsonScalar::Str("a@example.com".to_string())),
        ("code", JsonScalar::Str("000000".to_string())),
    ]);
    match ch.verify_at(&next, &wrong, 1010, "999999").unwrap() {
        ChallengeOutcome::Pending { status_message, remaining_tries, remaining_time_secs, .. } => {
            assert_eq!(remaining_tries, 1);
            assert_eq!(remaining_time_secs, 50);
            assert_eq!(status_message, "Incorrect code \u{2014} 1 attempt(s) remaining");
        }
        other => panic!("expected pending, got {other:?}"),
    }
    let right = fields(vec![
        ("email", JsonScalar::Str("a@example.com".to_string())),
        ("code", JsonScalar::Str("123456".to_string())),
    ]);
    assert!(matches!(ch.verify_at(&next, &right, 1059, "x").unwrap(), ChallengeOutcome::Approved { .. }));
    match ch.verify_at(&next, &right, 1061, "x").unwrap() {
        ChallengeOutcome::Denied(m) => assert_eq!(m, "email code expired; please restart enrollment"),
        other => panic!("expected denied, got {other:?}"),
    }
}

#[test]
fn email_challenge_errors() {
    let ch = EmailChallenge::new(RecordingSender { fail: true });
    let st = ch.begin(&req("/a"));
    assert_eq!(
        ch.verify_at(&st, &JsonFields::new(), 0, "1"),
        Err(CertError::InvalidRequest("missing 'email' parameter".to_string()))
    );
    let params = fields(vec![("email", JsonScalar::Str("a@b".to_string()))]);
    assert_eq!(
        ch.verify_at(&st, &params, 0, "1"),
        Err(CertError::InvalidRequest("email send failed: smtp down".to_string()))
    );
    let odd = ChallengeState { challenge_type: "email".to_string(), data: fields(vec![("phase", JsonScalar::Str("x".to_string()))]) };
    assert_eq!(ch.verify_at(&odd, &params, 0, "1"), Ok(ChallengeOutcome::Denied("unknown challenge phase".to_string())));
}

#[test]
fn generated_codes_have_six_digits() {
    for _ in 0..20 {
        let c = generate_otp();
        assert_eq!(c.len(), 6);
        assert!(c.bytes().all(|b| b.is_ascii_digit()));
    }
    assert_eq!(sha256_hex("abc"), "ba7816bf8f01cfea414140de5dae2223b00361a396177a9cb410ff61f20015ad");
}

fn client_cert(name: &str) -> Certificate {
    Certificate {
        name: n(name),
        issuer: None,
        public_key: vec![1, 2, 3],
        valid_from: 5_000_000,
        valid_until: 9_000_000,
        signed_region: Some(vec![0xAA]),
        sig_value: Some(vec![0xBB]),
        sig_type: 5,
    }
}

fn ca() -> CaState<HierarchicalPolicy, AcceptAllIssuance> {
    let cfg = CaConfig::new(
        n("/org/CA"),
        "test CA".to_string(),
        86_400_000,
        7 * 86_400_000,
        vec!["token".to_string(), "email".to_string()],
        HierarchicalPolicy,
    );
    CaState::new(cfg)
}

#[test]
fn ca_new_request_and_challenge_flow() {
    let mut ca = ca();
    let cert = client_cert("/org/alice/KEY/k1/cert-request/v1");
    let r = ca.new_request_at(&cert, 1000).unwrap();
    assert_eq!(r.name, "/org/alice/KEY/k1");
    assert_eq!(r.public_key, "AQID");
    assert_eq!((r.not_before, r.not_after), (5, 9));
    let resp = ca.open_request(r, [0, 1, 2, 3, 4, 5, 6, 0xff], vec![9; 16], [0; 12], 1000);
    assert_eq!(resp.challenges, vec!["token".to_string(), "email".to_string()]);
    let id = "00010203040506ff";
    let p = ca.pending_session(id).unwrap();
    assert_eq!(p.created_at, 1000);
    assert_eq!(ca.pending_session("nope"), Err(CertError::RequestNotFound("nope".to_string())));
    assert_eq!(
        ca.select_handler(&p, "pin"),
        Err(CertError::InvalidRequest("unsupported challenge type: pin".to_string()))
    );
    assert_eq!(ca.select_handler(&p, "email"), Ok(1));
    let st = ChallengeState { challenge_type: "email".to_string(), data: JsonFields::new() };
    ca.record_begun(id, st.clone(), "email".to_string());
    let p = ca.pending_session(id).unwrap();
    assert_eq!(
        ca.select_handler(&p, "token"),
        Err(CertError::InvalidRequest("challenge type locked to 'email' for this request".to_string()))
    );
    let pending = ChallengeOutcome::Pending {
        status_message: "go on".to_string(),
        remaining_tries: 2,
        remaining_time_secs: 30,
        next_state: st.clone(),
    };
    match ca.conclude(id, "email", pending, Some([7; 12]), 1001).unwrap() {
        Conclusion::Respond(ChallengeResponse { status, challenge_status, remaining_tries, .. }) => {
            assert_eq!(status, STATUS_PENDING);
            assert_eq!(challenge_status, Some("go on".to_string()));
            assert_eq!(remaining_tries, Some(2));
        }
        _ => panic!("expected a response"),
    }
    assert_eq!(ca.pending_session(id).unwrap().decryption_iv, Some([7; 12]));
    match ca.conclude(id, "email", ChallengeOutcome::Approved { attestation: None }, None, 1002).unwrap() {
        Conclusion::Issue { cert_request, validity_ms, attestation, .. } => {
            assert_eq!(cert_request.name, "/org/alice/KEY/k1");
            assert_eq!(validity_ms, 86_400_000);
            assert!(attestation.is_none());
        }
        _ => panic!("expected issue"),
    }
    assert!(ca.pending_session(id).is_err());
    assert_eq!(
        ca.conclude(id, "email", ChallengeOutcome::Approved { attestation: None }, None, 1003).err(),
        Some(CertError::RequestNotFound(id.to_string()))
    );
    let issued = client_cert("/org/alice/KEY/k1/CA/v2");
    let resp = ca.record_issued(&issued);
    assert_eq!(resp.status, STATUS_SUCCESS);
    assert_eq!(resp.issued_cert_name, Some("/org/alice/KEY/k1/CA/v2".to_string()));
    assert_eq!(ca.get_served_cert("/org/alice/KEY/k1/CA/v2"), Some(vec![0x06, 0x04, 0xAA, 0x17, 0x01, 0xBB]));
}

#[test]
fn ca_denial_ends_request_and_cleanup_expires() {
    let mut ca = ca();
    let cert = client_cert("/org/bob/KEY/k1/cert-request/v1");
    let r = ca.new_request_at(&cert, 10).unwrap();
    ca.open_request(r, [1; 8], vec![], [0; 12], 10);
    let id = "0101010101010101";
    match ca.conclude(id, "token", ChallengeOutcome::Denied("bad token".to_string()), None, 11).unwrap() {
        Conclusion::Respond(resp) => {
            assert_eq!(resp.status, STATUS_FAILURE);
            assert_eq!(resp.error_code, Some(7));
            assert_eq!(resp.error_info, Some("bad token".to_string()));
        }
        _ => panic!("expected a response"),
    }
    assert!(ca.pending_session(id).is_err());
    let r = ca.new_request_at(&cert, 100).unwrap();
    ca.open_request(r, [2; 8], vec![], [0; 12], 100);
    ca.cleanup_expired_at(60, 160);
    assert!(ca.pending_session("0202020202020202").is_ok());
    ca.cleanup_expired_at(60, 161);
    assert!(ca.pending_session("0202020202020202").is_err());
}

#[test]
fn ca_probe_and_revocation() {
    let mut ca = ca();
    let p = ca.handle_probe("/org/dave");
    assert!(p.allowed && p.reason.is_none());
    let bad = ca.handle_probe("/other/x");
    assert!(!bad.allowed && bad.reason.is_some());
    ca.revoke("/org/eve/KEY/k1".to_string());
    assert!(ca.is_revoked("/org/eve/KEY/k1"));
    let r = CertRequest { name: "/org/eve/KEY/k1".to_string(), public_key: "AQID".to_string(), not_before: 0, not_after: 0 };
    let ca_keys = vec![n("/org/KEY/ca1"), n("/org/KEY/ca2")];
    assert_eq!(
        ca.issuance_check(&r, &ca_keys),
        Err(CertError::PolicyDenied("certificate /org/eve/KEY/k1 has been revoked".to_string()))
    );
    let ok = CertRequest { name: "/org/fay/KEY/k1".to_string(), public_key: "AQID".to_string(), not_before: 0, not_after: 0 };
    let (subject, key, signer) = ca.issuance_check(&ok, &ca_keys).unwrap();
    assert_eq!(subject, n("/org/fay/KEY/k1"));
    assert_eq!(key, vec![1, 2, 3]);
    assert_eq!(signer, n("/org/KEY/ca1"));
    assert_eq!(
        ca.issuance_check(&ok, &Vec::new()),
        Err(CertError::InvalidRequest("CA has no signing key configured".to_string()))
    );
    let bad_key = CertRequest { name: "/org/fay/KEY/k1".to_string(), public_key: "*".to_string(), not_before: 0, not_after: 0 };
    assert_eq!(ca.issuance_check(&bad_key, &ca_keys), Err(CertError::InvalidRequest("invalid public key base64".to_string())));
}

#[test]
fn token_consume_ignores_scope() {
    let mut store = TokenStore::new();
    store.add_scoped("t".to_string(), None, Some(n("/a")));
    assert!(store.consume("t"));
    assert_eq!(store.len(), 0);
    assert!(!store.consume("t"));
}

#[test]
fn token_consume_for_enforces_scope() {
    let mut store = TokenStore::new();
    store.add_scoped("t".to_string(), None, Some(n("/a")));
    assert_eq!(store.consume_for("t", &n("/b/x")), TokenCheck::OutOfScope(Box::new(n("/a"))));
    assert_eq!(store.len(), 1);
    assert_eq!(store.consume_for("t", &n("/a/x")), TokenCheck::Accepted);
    assert_eq!(store.len(), 0);
    assert_eq!(store.consume_for("t", &n("/a/x")), TokenCheck::NotFound);
}

#[test]
fn token_consume_at_reaps_expired() {
    let mut store = TokenStore::new();
    store.add_many(vec!["x".to_string(), "y".to_string()]);
    store.add_scoped_at("e".to_string(), Some(10), None, 100);
    assert_eq!(store.len(), 3);
    assert!(!store.consume_at("e", 111));
    assert_eq!(store.len(), 2);
    assert!(store.consume_at("x", 111));
    assert!(!store.consume_at("x", 111));
    assert_eq!(store.len(), 1);
}

#[test]
fn admit_request_follows_the_namespace_decision() {
    let cert = client_cert("/org/alice/KEY/k1/cert-request/v1");
    let key = n("/org/alice/KEY/k1");
    assert_eq!(
        admit_request(PolicyDecision::Deny("out of zone".to_string()), &key, &cert, 2),
        Err(CertError::PolicyDenied("out of zone".to_string()))
    );
    assert_eq!(
        admit_request(PolicyDecision::Allow, &key, &cert, 0),
        Err(CertError::InvalidRequest("CA has no challenge handlers".to_string()))
    );
    let r = admit_request(PolicyDecision::Allow, &key, &cert, 1).unwrap();
    assert_eq!(r.name, "/org/alice/KEY/k1");
    assert_eq!(r.public_key, "AQID");
    assert_eq!((r.not_before, r.not_after), (5, 9));
}

#[test]
fn new_request_denied_by_the_namespace_gate_carries_the_reason() {
    let mut ca = ca();
    let cert = client_cert("/other/mallory/KEY/k1/cert-request/v1");
    match ca.new_request_at(&cert, 10) {
        Err(CertError::PolicyDenied(m)) => assert!(!m.is_empty()),
        other => panic!("expected a policy denial, got {other:?}"),
    }
    assert!(ca.pending_session("0101010101010101").is_err());
}

#[test]
fn issuance_decision_is_what_an_approved_round_concludes() {
    let mut ca = ca();
    let cert = client_cert("/org/alice/KEY/k1/cert-request/v1");
    let r = ca.new_request_at(&cert, 1000).unwrap();
    ca.open_request(r, [3; 8], vec![], [4; 12], 1000);
    let p = ca.pending_session("0303030303030303").unwrap();
    let set = AttestationSet::single(ChallengeAttestation::of_kind("nop"));
    match answer_issuance(IssuanceDecision::Issue { validity_ms: 42 }, p.clone(), set.clone(), true) {
        Conclusion::Issue { cert_request, validity_ms, attestation, encryption_iv } => {
            assert_eq!(cert_request, p.cert_request);
            assert_eq!(validity_ms, 42);
            assert_eq!(attestation, Some(set.clone()));
            assert_eq!(encryption_iv, [4; 12]);
        }
        _ => panic!("expected issue"),
    }
    match answer_issuance(IssuanceDecision::Deny("registry requires `token`".to_string()), p, set, false) {
        Conclusion::Respond(resp) => {
            assert_eq!(resp.status, STATUS_FAILURE);
            assert_eq!(resp.error_code, Some(7));
            assert_eq!(resp.error_info, Some("registry requires `token`".to_string()));
            assert_eq!(resp.issued_cert_name, None);
        }
        _ => panic!("expected a failure"),
    }
}

#[test]
fn email_round_mails_the_code_and_answers_the_sender() {
    let ch = EmailChallenge::new(RecordingSender { fail: false });
    let st = ch.begin(&req("/a"));
    let params = fields(vec![("email", JsonScalar::Str("a@example.com".to_string()))]);
    assert_eq!(mail_for(&st, &params, "654321"), Some(("a@example.com".to_string(), "654321".to_string())));
    let no_email = fields(vec![]);
    assert_eq!(mail_for(&st, &no_email, "654321"), None);
    assert_eq!(
        ch.answer_sent("a@example.com".to_string(), 3, 10, "654321", Err("relay refused".to_string())),
        Err(CertError::InvalidRequest("email send failed: relay refused".to_string()))
    );
    match ch.answer_sent("a@example.com".to_string(), 3, 10, "654321", Ok(())).unwrap() {
        ChallengeOutcome::Pending { status_message, remaining_tries, remaining_time_secs, next_state } => {
            assert_eq!(status_message, "Code sent to a@example.com");
            assert_eq!(remaining_tries, 3);
            assert_eq!(remaining_time_secs, 300);
            assert_eq!(next_state.data.get_u64("expires_at"), Some(310));
            assert_eq!(next_state.data.get_str("otp_hash"), Some(sha256_hex("654321")));
        }
        other => panic!("expected pending, got {other:?}"),
    }
}

#[test]
fn handle_new_admits_and_records_or_refuses() {
    let mut ca = ca();
    let cert = client_cert("/org/alice/KEY/k1/cert-request/v1");
    let resp = ca.handle_new_at(&cert, 50, [5; 8], vec![1; 16], [2; 12]).unwrap();
    assert_eq!(resp.request_id, [5; 8]);
    assert_eq!(resp.challenges, vec!["token".to_string(), "email".to_string()]);
    let p = ca.pending_session("0505050505050505").unwrap();
    assert_eq!(p.cert_request.name, "/org/alice/KEY/k1");
    assert_eq!(p.created_at, 50);
    assert_eq!(p.encryption_iv, [2; 12]);
    let bad = client_cert("/other/mallory/KEY/k1/cert-request/v1");
    assert!(matches!(ca.handle_new_at(&bad, 51, [6; 8], vec![], [0; 12]), Err(CertError::PolicyDenied(_))));
    assert!(ca.pending_session("0606060606060606").is_err());
}

#[test]
fn evidence_stays_ordered_by_name() {
    let leaf = ChallengeAttestation::of_kind("device-approval")
        .with_evidence("request_id".to_string(), "\"req-3\"".to_string())
        .with_evidence("approver".to_string(), "\"bob\"".to_string())
        .with_evidence("request_id".to_string(), "\"req-4\"".to_string());
    assert_eq!(
        leaf.evidence,
        vec![
            ("approver".to_string(), "\"bob\"".to_string()),
            ("request_id".to_string(), "\"req-4\"".to_string()),
        ]
    );
}

#[test]
fn rotation_chain_checks_every_link() {
    let empty: Vec<KeyState> = Vec::new();
    assert_eq!(resolve_chain(&DidDocumentRotation, &empty), Err(ChainError::Empty));
}

fn did_proof(
    did: &str,
    key: &Ed25519Signer,
    parent: Option<&IdentityProof>,
    seq: u64,
    recovery: Option<RecoveryCommitment>,
    signing: &Ed25519Signer,
) -> IdentityProof {
    let canonical =
        format!("{did}|seq={seq}|parent={:?}|recovery={:?}", parent.map(|p| p.content_hash), recovery).into_bytes();
    IdentityProof {
        did: did.to_string(),
        ed25519_key: Some(key.public_key_bytes()),
        parent_ref: parent.map(|p| p.content_hash),
        seq,
        recovery,
        sig_value: signing.sign_sync(&canonical),
        sig_type: 5,
        content_hash: ndn_security::digest::sha256(&canonical),
        canonical_bytes: canonical,
    }
}

fn did_link(key: &Ed25519Signer, parent: Option<&IdentityProof>, seq: u64, signing: &Ed25519Signer) -> IdentityProof {
    did_proof("did:ndn:alice", key, parent, seq, None, signing)
}

fn key(seed: u8) -> Ed25519Signer {
    Ed25519Signer::from_seed(&[seed; 32], n(&format!("/alice/KEY/k{seed}")))
}

#[test]
fn resolve_chain_verifies_full_history_and_locates_head() {
    let (k0, k1, k2) = (key(0), key(1), key(2));
    let genesis = did_link(&k0, None, 0, &k0);
    let rot1 = did_link(&k1, Some(&genesis), 1, &k0);
    let rot2 = did_link(&k2, Some(&rot1), 2, &k1);
    let chain = vec![KeyState::Did(genesis.clone()), KeyState::Did(rot1.clone()), KeyState::Did(rot2.clone())];
    match resolve_chain(&DidDocumentRotation, &chain).unwrap() {
        KeyState::Did(proof) => assert_eq!(proof.seq, rot2.seq),
        _ => panic!("head should be a did key-state"),
    }
    // A tampered middle link fails at that index.
    let mut r1 = rot1.clone();
    r1.seq = 7;
    let r2 = did_link(&k2, Some(&r1), 2, &k1);
    let broken = vec![KeyState::Did(genesis.clone()), KeyState::Did(r1), KeyState::Did(r2)];
    assert!(matches!(resolve_chain(&DidDocumentRotation, &broken), Err(ChainError::BrokenLink { index: 1, .. })));
    // A forged last link (signed by a stranger) fails at its own index.
    let forged = did_link(&k2, Some(&rot1), 2, &key(9));
    let bad_tail = vec![KeyState::Did(genesis), KeyState::Did(rot1), KeyState::Did(forged)];
    match resolve_chain(&DidDocumentRotation, &bad_tail) {
        Err(ChainError::BrokenLink { index, outcome }) => {
            assert_eq!(index, 2);
            assert!(matches!(outcome, AuthorityOutcome::Refused(_)));
        }
        other => panic!("expected a broken link, got {other:?}"),
    }
}

#[test]
fn begin_stores_initial_counter() {
    let challenge = YubikeyHotpChallenge::new(TEST_SEED.to_vec(), 42);
    let state = challenge.begin(&req("test"));
    assert_eq!(state.data.get_u64("counter"), Some(42));
}

#[test]
fn verify_correct_otp_returns_approved() {
    let seed = TEST_SEED.to_vec();
    let counter = 0u64;
    let otp = hotp(&seed, counter);
    let challenge = YubikeyHotpChallenge::new(seed.clone(), counter);
    let state = challenge.begin(&req("test"));
    let params = fields(vec![("otp", JsonScalar::Str(otp.to_string()))]);
    let outcome = challenge.verify(&state, &params).unwrap();
    assert!(matches!(outcome, ChallengeOutcome::Approved { .. }));
}

#[test]
fn verify_wrong_otp_decrements_tries() {
    let challenge = YubikeyHotpChallenge::new(TEST_SEED.to_vec(), 0).with_max_tries(3);
    let state = challenge.begin(&req("test"));
    let params = fields(vec![("otp", JsonScalar::Str("000000".to_string()))]);
    let outcome = challenge.verify(&state, &params).unwrap();
    assert!(matches!(outcome, ChallengeOutcome::Pending { remaining_tries: 2, .. }));
}

#[test]
fn verify_exhausted_tries_denies() {
    let challenge = YubikeyHotpChallenge::new(TEST_SEED.to_vec(), 0).with_max_tries(1);
    let state = challenge.begin(&req("test"));
    let params = fields(vec![("otp", JsonScalar::Str("000000".to_string()))]);
    let outcome = challenge.verify(&state, &params).unwrap();
    assert!(matches!(outcome, ChallengeOutcome::Denied(_)));
}

/// A certificate for `key` named `name`, issued by `issuer` and signed by
/// `signing` over its own stand-in signed region.
fn rotation_cert(name: &str, issuer: Option<&str>, key: &Ed25519Signer, signing: &Ed25519Signer) -> Certificate {
    let region = format!("{name} signed region").into_bytes();
    Certificate {
        name: n(name),
        issuer: issuer.map(n),
        public_key: key.public_key_bytes().to_vec(),
        valid_from: 0,
        valid_until: u64::MAX,
        sig_value: Some(signing.sign_sync(&region)),
        signed_region: Some(region),
        sig_type: 5,
    }
}

#[test]
fn cert_rotation_authorizes_only_a_prior_key_signed_rotation() {
    let (k1s, k2s, evil, bobs) = (key(1), key(2), key(9), key(3));
    let k1 = rotation_cert("/alice/KEY/k1/self/1", None, &k1s, &k1s);
    let k2 = rotation_cert("/alice/KEY/k2/alice/1", Some("/alice/KEY/k1"), &k2s, &k1s);
    let k2_forged = rotation_cert("/alice/KEY/k2/evil/1", Some("/evil/KEY/x"), &k2s, &evil);
    let bob = rotation_cert("/bob/KEY/k1/alice/1", Some("/alice/KEY/k1"), &bobs, &k1s);
    let rot = CertRotation;
    let intrinsic = TransitionProof::Intrinsic;
    // Genuine rotation: k2 issued by k1.
    assert_eq!(rot.authorizes(&KeyState::Cert(k1.clone()), &KeyState::Cert(k2), &intrinsic), AuthorityOutcome::Authorized);
    // Forged: issued by an attacker, not the prior key.
    assert!(matches!(
        rot.authorizes(&KeyState::Cert(k1.clone()), &KeyState::Cert(k2_forged), &intrinsic),
        AuthorityOutcome::Refused(_)
    ));
    // Cross-identity: bob's key issued by alice's k1 is not alice's rotation.
    assert!(matches!(rot.authorizes(&KeyState::Cert(k1.clone()), &KeyState::Cert(bob), &intrinsic), AuthorityOutcome::Refused(_)));
    // Not a rotation: the same key.
    assert!(matches!(rot.authorizes(&KeyState::Cert(k1.clone()), &KeyState::Cert(k1), &intrinsic), AuthorityOutcome::Refused(_)));
}

#[test]
fn did_rotation_authorizes_chain_and_rejects_tampering() {
    let (k0, k1) = (key(0), key(1));
    let genesis = did_link(&k0, None, 0, &k0);
    let rot1 = did_link(&k1, Some(&genesis), 1, &k0);
    let rot = DidDocumentRotation;
    let intrinsic = TransitionProof::Intrinsic;
    // Genuine rotation.
    assert_eq!(
        rot.authorizes(&KeyState::Did(genesis.clone()), &KeyState::Did(rot1.clone()), &intrinsic),
        AuthorityOutcome::Authorized
    );
    // Forged: signed by an attacker key, not the prior k0.
    let forged = did_link(&k1, Some(&genesis), 1, &key(9));
    assert!(matches!(rot.authorizes(&KeyState::Did(genesis.clone()), &KeyState::Did(forged), &intrinsic), AuthorityOutcome::Refused(_)));
    // Broken back-link: parent_ref points nowhere.
    let mut bad_parent = rot1.clone();
    bad_parent.parent_ref = Some([0u8; 32]);
    assert!(matches!(
        rot.authorizes(&KeyState::Did(genesis.clone()), &KeyState::Did(bad_parent), &intrinsic),
        AuthorityOutcome::Refused(_)
    ));
    // Sequence gap: seq jumps past genesis + 1.
    let gap = did_link(&k1, Some(&genesis), 5, &k0);
    assert!(matches!(rot.authorizes(&KeyState::Did(genesis.clone()), &KeyState::Did(gap), &intrinsic), AuthorityOutcome::Refused(_)));
    // Wrong key-state type: a certificate handed to the did authority.
    let cert = rotation_cert("/alice/KEY/k1/self/1", None, &k0, &k0);
    assert!(matches!(rot.authorizes(&KeyState::Cert(cert.clone()), &KeyState::Cert(cert), &intrinsic), AuthorityOutcome::Refused(_)));
}

/// A recovery link after `prior`: it carries `new_key`, is signed by
/// `new_key` itself, and comes with the recoverers' signatures over its
/// canonical bytes.
fn recovery_next(
    did: &str,
    new_key: &Ed25519Signer,
    prior: &IdentityProof,
    recoverers: &[(usize, &Ed25519Signer)],
) -> (IdentityProof, RecoveryProof) {
    let next = did_proof(did, new_key, Some(prior), prior.seq + 1, None, new_key);
    let signatures = recoverers
        .iter()
        .map(|(idx, s)| RecoverySignature { key_index: *idx, signature: s.sign_sync(&next.canonical_bytes) })
        .collect();
    (next, RecoveryProof { signatures })
}

#[test]
fn key_recovery_accepts_committed_authority_and_rejects_otherwise() {
    let did = "did:ndn:alice";
    let (op, recovery_key, attacker, new_op) = (key(0), key(7), key(9), key(1));
    let commitment = RecoveryCommitment::Key(recovery_key.public_key_bytes());
    let genesis = did_proof(did, &op, None, 0, Some(commitment), &op);
    let rec = KeyRecovery;
    // Genuine recovery by the committed key.
    let (next, proof) = recovery_next(did, &new_op, &genesis, &[(0, &recovery_key)]);
    assert_eq!(
        rec.authorizes(&KeyState::Did(genesis.clone()), &KeyState::Did(next), &TransitionProof::Recovery(proof)),
        AuthorityOutcome::Authorized
    );
    // Wrong signer.
    let (next2, bad) = recovery_next(did, &new_op, &genesis, &[(0, &attacker)]);
    assert!(matches!(
        rec.authorizes(&KeyState::Did(genesis.clone()), &KeyState::Did(next2), &TransitionProof::Recovery(bad)),
        AuthorityOutcome::Refused(_)
    ));
    // The intrinsic proof is not a recovery proof.
    let (next3, _) = recovery_next(did, &new_op, &genesis, &[(0, &recovery_key)]);
    assert!(matches!(
        rec.authorizes(&KeyState::Did(genesis), &KeyState::Did(next3), &TransitionProof::Intrinsic),
        AuthorityOutcome::Refused(_)
    ));
}

#[test]
fn quorum_recovery_requires_threshold_distinct_signers() {
    let did = "did:ndn:bob";
    let (op, new_op) = (key(0), key(1));
    let guardians = [key(10), key(11), key(12)];
    let commitment = RecoveryCommitment::Quorum { keys: guardians.iter().map(|g| g.public_key_bytes()).collect(), threshold: 2 };
    let genesis = did_proof(did, &op, None, 0, Some(commitment), &op);
    let rec = KeyRecovery;
    // Two distinct guardians meet the quorum.
    let (next, proof) = recovery_next(did, &new_op, &genesis, &[(0, &guardians[0]), (1, &guardians[1])]);
    assert_eq!(
        rec.authorizes(&KeyState::Did(genesis.clone()), &KeyState::Did(next), &TransitionProof::Recovery(proof)),
        AuthorityOutcome::Authorized
    );
    // One guardian twice does not.
    let (next2, proof2) = recovery_next(did, &new_op, &genesis, &[(0, &guardians[0]), (0, &guardians[0])]);
    assert!(matches!(
        rec.authorizes(&KeyState::Did(genesis), &KeyState::Did(next2), &TransitionProof::Recovery(proof2)),
        AuthorityOutcome::Refused(_)
    ));
}
