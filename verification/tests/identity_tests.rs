use ndn_security::challenge::JsonScalar;
use ndn_security::context_sync::{bundle_fetch_name, outcome_of, ContextSyncOutcome};
use ndn_security::ca::Certificate;
use ndn_security::delegation::{CapabilitySet, Delegation, DelegationError};
use ndn_security::device::{
    build_challenge, derive_ca_prefix, device_key, plan_provisioning, ChallengeParams, DeviceConfig, FactoryCredential,
    RenewalPolicy,
};
use ndn_security::name::Name;
use ndn_security::renewal::{
    backoff_delay_ns, check_interval_ms, renewal_needed, threshold_pct, RenewalAction, RenewalLoop,
};
use ndn_security::revocation::{RevocationError, RevocationRecord};
use ndn_security::signed_delegation::{DelegatedSigner, IdentityError, SignedDelegation};
use ndn_security::signer::Ed25519Signer;
use ndn_security::trust_schema::NamePattern;

fn n(s: &str) -> Name {
    Name::from_uri(s).unwrap()
}

fn key_signer(identity: &str, seed: u8) -> (Ed25519Signer, Vec<u8>) {
    let signer = Ed25519Signer::from_seed(&[seed; 32], n(&format!("{identity}/KEY/k0")));
    let pk = signer.public_key_bytes().to_vec();
    (signer, pk)
}

#[test]
fn self_revoke_then_verify() {
    let (signer, pubkey) = key_signer("/alice", 1);
    let rec = RevocationRecord::self_revoke(&signer, "compromised".to_string(), 1_700_000_000_000);
    assert!(rec.is_self_revocation());
    assert_eq!(rec.revoked.to_uri(), "/alice/KEY/k0");
    assert_eq!(rec.verify(&pubkey), Ok(()));
}

#[test]
fn wire_round_trips() {
    let (signer, pubkey) = key_signer("/alice", 1);
    let rec = RevocationRecord::self_revoke(&signer, "lost".to_string(), 42);
    let back = RevocationRecord::decode(&rec.encode()).expect("decode");
    assert_eq!(back.revoked, rec.revoked);
    assert_eq!(back.reason, "lost");
    assert_eq!(back.revoked_at_ms, 42);
    assert_eq!(back.verify(&pubkey), Ok(()));
}

#[test]
fn tampered_reason_fails_verification() {
    let (signer, pubkey) = key_signer("/alice", 1);
    let mut rec = RevocationRecord::self_revoke(&signer, "lost".to_string(), 42);
    rec.reason = "not compromised, ignore".to_string();
    assert_eq!(rec.verify(&pubkey), Err(RevocationError::SignatureInvalid));
}

#[test]
fn wrong_key_fails_verification() {
    let (signer, _) = key_signer("/alice", 1);
    let (_other, other_pub) = key_signer("/alice", 2);
    let rec = RevocationRecord::self_revoke(&signer, "x".to_string(), 1);
    assert_eq!(rec.verify(&other_pub), Err(RevocationError::SignatureInvalid));
}

#[test]
fn truncated_wire_is_malformed() {
    let (signer, _) = key_signer("/alice", 1);
    let wire = RevocationRecord::self_revoke(&signer, "x".to_string(), 1).encode();
    assert!(matches!(RevocationRecord::decode(&wire[..wire.len() / 2]), Err(RevocationError::Malformed)));
}

#[test]
fn revocation_wire_layout_is_length_framed() {
    let (signer, _) = key_signer("/a", 3);
    let rec = RevocationRecord::self_revoke(&signer, "r".to_string(), 7);
    let wire = rec.encode();
    // "/a/KEY/k0" is 9 bytes, framed by its 8-byte length.
    assert_eq!(&wire[..8], &[0, 0, 0, 0, 0, 0, 0, 9]);
    assert_eq!(&wire[8..17], b"/a/KEY/k0");
    assert_eq!(&wire[17..25], &[0, 0, 0, 0, 0, 0, 0, 1]);
    assert_eq!(wire[25], b'r');
    assert_eq!(&wire[26..34], &[0, 0, 0, 0, 0, 0, 0, 7]);
    assert_eq!(wire.len(), rec.canonical_bytes().len() + 8 + 64);
    assert!(matches!(RevocationRecord::decode(&[]), Err(RevocationError::Malformed)));
}

fn route_scope() -> CapabilitySet {
    CapabilitySet {
        sign: vec![NamePattern::parse("/alice/device/phone/<**rest>").unwrap()],
        unwrap_for: true,
        enroll: false,
        mgmt: false,
    }
}

#[test]
fn issue_then_verify_returns_scope() {
    let (signer, pubkey) = key_signer("/alice", 10);
    let deleg = SignedDelegation::issue(&n("/alice"), &signer, n("/alice/device/phone"), route_scope()).expect("issue");
    let scope = deleg.verify(&pubkey).expect("verify");
    assert!(scope.unwrap_for);
    assert_eq!(scope.sign.len(), 1);
    assert!(scope.sign[0].matches(&n("/alice/device/phone/data/1"), &mut Vec::new()));
}

#[test]
fn wire_round_trips_through_encode_decode() {
    let (signer, pubkey) = key_signer("/alice", 10);
    let deleg = SignedDelegation::issue(&n("/alice"), &signer, n("/alice/device/phone"), route_scope()).unwrap();
    let wire = deleg.encode();
    let back = SignedDelegation::decode(&wire).expect("decode");
    assert_eq!(back.principal, deleg.principal);
    assert_eq!(back.subordinate, deleg.subordinate);
    assert_eq!(back.key_locator, deleg.key_locator);
    assert_eq!(back.sig_value, deleg.sig_value);
    assert!(back.verify(&pubkey).is_ok());
}

#[test]
fn tampered_scope_fails_verification() {
    let (signer, pubkey) = key_signer("/alice", 10);
    let mut deleg = SignedDelegation::issue(&n("/alice"), &signer, n("/alice/device/phone"), route_scope()).unwrap();
    deleg.scope.mgmt = true;
    assert!(matches!(deleg.verify(&pubkey), Err(DelegationError::SignatureInvalid)));
}

#[test]
fn out_of_namespace_is_refused_at_issue_and_verify() {
    let (signer, pubkey) = key_signer("/alice", 10);
    match SignedDelegation::issue(&n("/alice"), &signer, n("/bob/device/x"), route_scope()) {
        Err(IdentityError::Lifecycle(m)) => {
            assert_eq!(m, "subordinate /bob/device/x is not under principal namespace /alice")
        }
        other => panic!("expected a lifecycle error, got {other:?}"),
    }
    let mut deleg = SignedDelegation::issue(&n("/alice"), &signer, n("/alice/device/x"), route_scope()).unwrap();
    deleg.subordinate = n("/bob/device/x");
    assert!(matches!(deleg.verify(&pubkey), Err(DelegationError::OutOfNamespace)));
}

#[test]
fn wrong_principal_key_fails_verification() {
    let (signer, _pubkey) = key_signer("/alice", 10);
    let (_other, other_pubkey) = key_signer("/alice", 11);
    let deleg = SignedDelegation::issue(&n("/alice"), &signer, n("/alice/device/phone"), route_scope()).unwrap();
    assert!(matches!(deleg.verify(&other_pubkey), Err(DelegationError::SignatureInvalid)));
}

#[test]
fn key_outside_principal_is_not_issued_by_it() {
    let (signer, pubkey) = key_signer("/mallory", 12);
    let deleg = SignedDelegation::issue(&n("/alice"), &signer, n("/alice/device/phone"), route_scope()).unwrap();
    assert!(matches!(deleg.verify(&pubkey), Err(DelegationError::NotIssuedByPrincipal)));
    assert!(matches!(SignedDelegation::decode(b"short"), Err(DelegationError::Malformed)));
}

#[test]
fn delegated_signer_enforces_scope() {
    let (principal, principal_pubkey) = key_signer("/alice", 20);
    let deleg =
        SignedDelegation::issue(&n("/alice"), &principal, n("/alice/device/phone"), route_scope()).unwrap();
    let (device_signer, _) = key_signer("/alice/device/phone", 21);
    let ds = DelegatedSigner::from_delegation(device_signer, &deleg, &principal_pubkey)
        .expect("device accepts a valid delegation");
    let in_scope = n("/alice/device/phone/data/1");
    assert!(ds.may_sign(&in_scope));
    let sig = ds.sign(&in_scope, b"region").expect("in-scope signs");
    assert!(!sig.is_empty());
    let out = n("/alice/other/secret");
    assert!(!ds.may_sign(&out));
    assert!(ds.sign(&out, b"region").is_err());
}

#[test]
fn delegated_signer_rejects_a_tampered_delegation() {
    let (principal, principal_pubkey) = key_signer("/alice", 20);
    let mut deleg =
        SignedDelegation::issue(&n("/alice"), &principal, n("/alice/device/phone"), route_scope()).unwrap();
    deleg.scope.mgmt = true;
    let (device_signer, _) = key_signer("/alice/device/phone", 21);
    assert!(DelegatedSigner::from_delegation(device_signer, &deleg, &principal_pubkey).is_err());
}

#[test]
fn ca_prefix_derivation() {
    assert_eq!(derive_ca_prefix(&n("/org/dept/device-7")).to_uri(), "/org/dept/CA");
    assert_eq!(derive_ca_prefix(&n("/solo")).to_uri(), "/solo/CA");
    assert_eq!(derive_ca_prefix(&Name::root()).to_uri(), "/CA");
}

#[test]
fn device_key_name_carries_version() {
    let k = device_key(&n("/org/dev"), 0x0102);
    assert_eq!(k.to_uri(), "/org/dev/KEY/54=%01%02");
    let k = device_key(&n("/org/dev"), 7);
    assert_eq!(k.to_uri(), "/org/dev/KEY/54=%07");
}

#[test]
fn challenges_follow_the_credential() {
    let key = n("/org/dev/KEY/1");
    match build_challenge(&FactoryCredential::Token("tok".to_string()), &key) {
        ChallengeParams::Token { token } => assert_eq!(token, "tok"),
        other => panic!("unexpected {other:?}"),
    }
    match build_challenge(&FactoryCredential::DidKey("did:key:z6M".to_string()), &key) {
        ChallengeParams::Raw(f) => {
            assert_eq!(f.entries, vec![("did_key".to_string(), JsonScalar::Str("did:key:z6M".to_string()))])
        }
        other => panic!("unexpected {other:?}"),
    }
    let seed = [4u8; 32];
    match build_challenge(&FactoryCredential::Existing { cert_name: "/org/dev/KEY/0".to_string(), key_seed: seed }, &key)
    {
        ChallengeParams::Possession { cert_name, signature } => {
            assert_eq!(cert_name, "/org/dev/KEY/0");
            let expected = Ed25519Signer::from_seed(&seed, key.clone()).sign_sync(b"/org/dev/KEY/0");
            assert_eq!(signature, expected);
        }
        other => panic!("unexpected {other:?}"),
    }
}

#[test]
fn provisioning_plan() {
    let cfg = DeviceConfig {
        namespace: n("/fleet/dev-1"),
        storage: None,
        factory_credential: FactoryCredential::Token("t".to_string()),
        ca_prefix: None,
        renewal: RenewalPolicy::default(),
        delegate: Vec::new(),
    };
    let plan = plan_provisioning(&cfg, 5);
    assert_eq!(plan.ca_prefix.to_uri(), "/fleet/CA");
    assert_eq!(plan.key_name.to_uri(), "/fleet/dev-1/KEY/54=%05");
    assert_eq!(plan.validity_secs, 86400);
    assert_eq!(plan.renewal, Some(RenewalPolicy::WhenPercentRemaining(20)));
    let manual = DeviceConfig { renewal: RenewalPolicy::Manual, ca_prefix: Some(n("/my/CA")), ..cfg };
    let plan = plan_provisioning(&manual, 5);
    assert_eq!(plan.ca_prefix.to_uri(), "/my/CA");
    assert_eq!(plan.renewal, None);
}

#[test]
fn renewal_policy_decisions() {
    assert_eq!(check_interval_ms(RenewalPolicy::WhenPercentRemaining(10)), Some(600_000));
    assert_eq!(check_interval_ms(RenewalPolicy::Every(30)), Some(30));
    assert_eq!(check_interval_ms(RenewalPolicy::Manual), None);
    assert_eq!(threshold_pct(RenewalPolicy::WhenPercentRemaining(10)), 10);
    assert_eq!(threshold_pct(RenewalPolicy::Every(30)), 20);
    // 99% elapsed: 1 of 100 ns remains.
    assert!(renewal_needed(0, 100, 99, 20));
    assert!(!renewal_needed(0, 100, 50, 20));
    assert!(!renewal_needed(5, 5, 0, 20));
    assert!(renewal_needed(0, u64::MAX, u64::MAX - 1, 20));
}

#[test]
fn backoff_is_capped_and_jittered() {
    // base 1 s, first failure: 2 s, half fixed plus jitter below the other half.
    assert_eq!(backoff_delay_ns(1000, 1, 0), 1_000_000_000);
    assert_eq!(backoff_delay_ns(1000, 1, 999_999_999), 1_000_000_000 + 999_999_999);
    // capped at an hour
    assert_eq!(backoff_delay_ns(600_000, 6, 0), 1_800_000_000_000);
    assert_eq!(backoff_delay_ns(0, 3, 5), 0);
}

#[test]
fn renewal_loop_steps() {
    let mut l = RenewalLoop::start(RenewalPolicy::Every(1000), true).unwrap();
    assert!(RenewalLoop::start(RenewalPolicy::Manual, true).is_none());
    assert_eq!(l.on_check(false), RenewalAction::Wait);
    assert_eq!(l.on_check(true), RenewalAction::Renew);
    assert_eq!(l.on_renewed(false, 0), RenewalAction::BackOff(1_000_000_000));
    assert_eq!(l.failures, 1);
    assert_eq!(l.on_renewed(true, 0), RenewalAction::Wait);
    assert_eq!(l.failures, 0);
    let mut none = RenewalLoop::start(RenewalPolicy::Every(1000), false).unwrap();
    assert_eq!(none.on_check(true), RenewalAction::WarnNoRenewer);
}

#[test]
fn context_sync_outcomes() {
    let name = bundle_fetch_name(&n("/home/bob/_sync/v1/devices/device-a"), 5);
    assert_eq!(name.to_uri(), "/home/bob/_sync/v1/devices/device-a/50=%05");
    assert_eq!(outcome_of(5, true, true, true), ContextSyncOutcome::Adopted { version: 5 });
    assert_eq!(outcome_of(3, true, true, false), ContextSyncOutcome::Rejected { version: 3 });
    assert_eq!(outcome_of(1, false, true, true), ContextSyncOutcome::FetchFailed);
    assert_eq!(outcome_of(1, true, false, true), ContextSyncOutcome::DecodeFailed);
}

/// The principal's self-signed certificate and the subordinate's
/// certificate issued (and signed) by `issuer_name`'s key.
fn delegation_certs(principal_name: &str, sub_name: &str, issuer_name: &str) -> (Certificate, Certificate) {
    let principal = Ed25519Signer::from_seed(&[40u8; 32], n(principal_name));
    let sub = Ed25519Signer::from_seed(&[41u8; 32], n(sub_name));
    let issuer_seed = if issuer_name == principal_name { [40u8; 32] } else { [42u8; 32] };
    let issuer = Ed25519Signer::from_seed(&issuer_seed, n(issuer_name));
    let p_region = format!("{principal_name}/self/1 signed region").into_bytes();
    let principal_cert = Certificate {
        name: n(&format!("{principal_name}/self/1")),
        issuer: None,
        public_key: principal.public_key_bytes().to_vec(),
        valid_from: 0,
        valid_until: u64::MAX,
        sig_value: Some(principal.sign_sync(&p_region)),
        signed_region: Some(p_region),
        sig_type: 5,
    };
    let s_region = format!("{sub_name}/issuer/1 signed region").into_bytes();
    let sub_cert = Certificate {
        name: n(&format!("{sub_name}/issuer/1")),
        issuer: Some(n(issuer_name)),
        public_key: sub.public_key_bytes().to_vec(),
        valid_from: 0,
        valid_until: u64::MAX,
        sig_value: Some(issuer.sign_sync(&s_region)),
        signed_region: Some(s_region),
        sig_type: 5,
    };
    (principal_cert, sub_cert)
}

#[test]
fn verify_accepts_in_namespace_grant_and_scopes_to_subordinate() {
    let (principal, sub) = delegation_certs("/alice/KEY/kp", "/alice/device/phone/KEY/kd", "/alice/KEY/kp");
    let d = Delegation::verify(&principal, &sub).expect("verify");
    assert_eq!(d.principal, n("/alice"));
    assert_eq!(d.subordinate, n("/alice/device/phone"));
    // Scoped to the subordinate's own subtree.
    assert!(d.may_sign(&n("/alice/device/phone/data")));
    assert!(!d.may_sign(&n("/alice/other/thing")));
    // The capability flags stay off: the certificate cannot prove them.
    assert!(!d.may_unwrap() && !d.may_enroll() && !d.may_manage());
}

#[test]
fn verify_rejects_out_of_namespace_and_forged_issuer() {
    let (principal, foreign_sub) = delegation_certs("/alice/KEY/kp", "/bob/device/x/KEY/kd", "/alice/KEY/kp");
    assert!(matches!(Delegation::verify(&principal, &foreign_sub), Err(DelegationError::OutOfNamespace)));
    let (principal2, forged_sub) = delegation_certs("/alice/KEY/kp", "/alice/device/phone/KEY/kd", "/evil/KEY/kx");
    assert!(matches!(Delegation::verify(&principal2, &forged_sub), Err(DelegationError::NotIssuedByPrincipal)));
}
