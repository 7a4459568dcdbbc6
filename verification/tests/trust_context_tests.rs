use ndn_security::ca::Certificate;
use ndn_security::custodian::CustodianRef;
use ndn_security::delegation::{CapabilitySet, IdentityLifetime, IdentityRef, KeyId};
use ndn_security::name::{Name, NameComponent};
use ndn_security::signer::{Ed25519Signer, SIGNATURE_TYPE_DIGEST_SHA256, SIGNATURE_TYPE_ED25519};
use ndn_security::trust_context::{pattern_matches, AdoptionProvenance, TrustContext, VerificationOutcome};
use ndn_security::trust_schema::{pattern_under, NamePattern, PatternComponent};

fn n(s: &str) -> Name {
    Name::from_uri(s).unwrap()
}

fn identity(scope: &str) -> IdentityRef {
    IdentityRef {
        name: n(scope),
        key_id: KeyId::placeholder_for(&n(scope)),
        custodian: CustodianRef::InPage,
        lifetime: IdentityLifetime::Persistent,
        derived_from: None,
        capabilities: CapabilitySet { sign: vec![pattern_under(&n(scope))], unwrap_for: false, enroll: false, mgmt: false },
    }
}

fn anchor_of(signer: &Ed25519Signer, key: &str) -> Certificate {
    Certificate {
        name: n(key),
        issuer: None,
        public_key: signer.public_key_bytes().to_vec(),
        valid_from: 0,
        valid_until: u64::MAX,
        signed_region: None,
        sig_value: None,
        sig_type: SIGNATURE_TYPE_ED25519,
    }
}

#[test]
fn legacy_root_uses_root_namespace() {
    let tc = TrustContext::legacy_root(vec![], 0);
    assert_eq!(tc.name, Name::root());
    assert!(tc.identities.is_empty());
}

#[test]
fn can_sign_finds_covered_identity() {
    let mut tc = TrustContext::adopted(n("/home/bob"), 0, "test".to_string());
    tc.identities.push(identity("/home/bob/alice"));
    assert!(tc.can_sign(&n("/home/bob/alice/doc")).is_some());
    assert!(tc.can_sign(&n("/home/bob/charlie/doc")).is_none());
}

#[test]
fn verify_accepts_authenticated_rejects_others() {
    let key = "/ctx/dev/KEY/k1";
    let signer = Ed25519Signer::from_seed(&[3u8; 32], n(key));
    let ctx = TrustContext::legacy_root(vec![anchor_of(&signer, key)], 0);
    let region = b"/ctx/dev/thing hi";
    let data = n("/ctx/dev/thing");

    // Authenticated by the anchor key: verified, at that anchor.
    let sig = signer.sign_sync(region);
    assert_eq!(
        ctx.verify(&data, SIGNATURE_TYPE_ED25519, Some(&n(key)), region, &sig, 10),
        VerificationOutcome::Verified { anchor: n(key) }
    );

    // DigestSha256 (integrity, not identity): rejected.
    let digest = ndn_security::digest::sha256(region).to_vec();
    assert!(matches!(
        ctx.verify(&data, SIGNATURE_TYPE_DIGEST_SHA256, None, region, &digest, 10),
        VerificationOutcome::Rejected(_)
    ));

    // A different, unknown signer: rejected.
    let other = Ed25519Signer::from_seed(&[9u8; 32], n("/evil/KEY/k1"));
    let forged = other.sign_sync(region);
    assert!(matches!(
        ctx.verify(&data, SIGNATURE_TYPE_ED25519, Some(&n("/evil/KEY/k1")), region, &forged, 10),
        VerificationOutcome::Rejected(_)
    ));

    // An adopted-only context (no anchors) fails closed.
    let adopted = TrustContext::adopted(n("/home/bob"), 0, "t".to_string());
    assert!(matches!(
        adopted.verify(&data, SIGNATURE_TYPE_ED25519, Some(&n(key)), region, &sig, 10),
        VerificationOutcome::Rejected(_)
    ));
}

#[test]
fn pattern_literal_matches_exactly() {
    let pat = NamePattern(vec![
        PatternComponent::Literal(NameComponent::generic(b"home".to_vec())),
        PatternComponent::Literal(NameComponent::generic(b"bob".to_vec())),
    ]);
    assert!(pattern_matches(&pat, &n("/home/bob")));
    assert!(!pattern_matches(&pat, &n("/home")));
    assert!(!pattern_matches(&pat, &n("/home/alice")));
}

#[test]
fn verify_rejection_messages() {
    let key = "/ctx/dev/KEY/k1";
    let signer = Ed25519Signer::from_seed(&[3u8; 32], n(key));
    let ctx = TrustContext::legacy_root(vec![anchor_of(&signer, key)], 0);
    let region = b"payload";
    let digest = ndn_security::digest::sha256(region).to_vec();
    assert_eq!(
        ctx.verify(&n("/d"), SIGNATURE_TYPE_DIGEST_SHA256, None, region, &digest, 10),
        VerificationOutcome::Rejected("DigestSha256: integrity, not identity".to_string())
    );
    assert_eq!(
        ctx.verify(&n("/d"), SIGNATURE_TYPE_ED25519, None, region, &digest, 10),
        VerificationOutcome::Rejected("invalid signature".to_string())
    );
    // An unknown key with no certificate to fetch stays unresolved.
    let sig = signer.sign_sync(region);
    assert_eq!(
        ctx.verify(&n("/d"), SIGNATURE_TYPE_ED25519, Some(&n("/other/KEY/k")), region, &sig, 10),
        VerificationOutcome::Rejected("certificate chain not resolved".to_string())
    );
    // A tampered region under the anchor key.
    assert_eq!(
        ctx.verify(&n("/d"), SIGNATURE_TYPE_ED25519, Some(&n(key)), b"tampered", &sig, 10),
        VerificationOutcome::Rejected("invalid signature".to_string())
    );
}

#[test]
fn derive_sub_scopes_to_the_new_namespace() {
    let tc = TrustContext::adopted(n("/home/bob"), 0, "test".to_string());
    let parent = identity("/home/bob");
    let sub = tc.derive_sub(n("/home/bob/phone"), IdentityLifetime::Persistent, &parent, CustodianRef::OsKeyring);
    assert_eq!(sub.name, n("/home/bob/phone"));
    assert_eq!(sub.key_id, KeyId(n("/home/bob/phone/KEY/pending")));
    assert_eq!(sub.derived_from, Some(parent.key_id.clone()));
    assert_eq!(sub.capabilities.sign.len(), 1);
    assert!(pattern_matches(&sub.capabilities.sign[0], &n("/home/bob/phone/doc")));
    assert!(!pattern_matches(&sub.capabilities.sign[0], &n("/home/bob/laptop")));
    assert!(!sub.capabilities.enroll && !sub.capabilities.mgmt && !sub.capabilities.unwrap_for);
}

#[test]
fn enrolled_context_records_its_provenance() {
    let key = "/ctx/dev/KEY/k1";
    let signer = Ed25519Signer::from_seed(&[3u8; 32], n(key));
    let cert = anchor_of(&signer, key);
    let tc = TrustContext::enrolled(n("/ctx"), vec![cert.clone()], vec![identity("/ctx/dev")], n("/ctx/CA"), cert.clone(), 77);
    assert_eq!(tc.provenance, AdoptionProvenance::Enrolled { issued_by: n("/ctx/CA"), cert, at: 77 });
    assert!(tc.can_sign(&n("/ctx/dev/x")).is_some());
    assert!(tc.can_sign(&n("/ctx/other")).is_none());
}

#[test]
fn fingerprint_and_sync_export() {
    let adopted = TrustContext::adopted(n("/home/bob"), 0, "t".to_string());
    assert_eq!(adopted.anchor_fingerprint(), [0u8; 32]);
    let key = "/ctx/dev/KEY/k1";
    let signer = Ed25519Signer::from_seed(&[3u8; 32], n(key));
    let mut anchor = anchor_of(&signer, key);
    anchor.signed_region = Some(b"region".to_vec());
    let mut ctx = TrustContext::legacy_root(vec![anchor.clone()], 0);
    assert_eq!(ctx.anchor_fingerprint(), ndn_security::digest::sha256(b"region"));
    ctx.ca_endpoints.push(n("/ctx/CA"));
    let bundle = ctx.export_for_sync();
    assert_eq!(bundle.context_name, Name::root());
    assert_eq!(bundle.anchors, vec![anchor]);
    assert_eq!(bundle.ca_endpoints, vec![n("/ctx/CA")]);
    assert_eq!(bundle.schema.rules.len(), 1);
}
