use base64::engine::general_purpose::URL_SAFE_NO_PAD as B64;
use base64::Engine as _;
use ndn_security::envelope::{CapDirection, Capability, TrustEnvelope, TrustKind};

fn round_trip(e: &TrustEnvelope) {
    let bytes = e.encode();
    assert_eq!(&TrustEnvelope::decode(&bytes).unwrap(), e, "TLV round-trip");
    let uri = e.to_uri();
    assert!(uri.starts_with("ndn-trust://"));
    assert_eq!(&TrustEnvelope::from_uri(&uri).unwrap(), e, "URI round-trip");
}

#[test]
fn anchor_round_trips_and_matches_kind() {
    let e = TrustEnvelope::Anchor { version: 7, context_content: b"\x07\x14ctx-wire-bytes".to_vec() };
    assert_eq!(e.kind(), TrustKind::Anchor);
    round_trip(&e);
}

#[test]
fn invite_round_trips_with_and_without_ttl() {
    round_trip(&TrustEnvelope::Invite {
        ca_prefix: "/ndn".to_string(),
        identity_namespace: "/ndn/mobile".to_string(),
        token: "a1b2c3d4e5f6".to_string(),
        ttl_secs: Some(3600),
    });
    round_trip(&TrustEnvelope::Invite {
        ca_prefix: "/ndn".to_string(),
        identity_namespace: "/ndn/mobile".to_string(),
        token: "tok".to_string(),
        ttl_secs: None,
    });
}

#[test]
fn delegation_recovery_bag_round_trip() {
    round_trip(&TrustEnvelope::Delegation {
        signed_delegation: b"signed-delegation-wire".to_vec(),
        principal_pubkey: vec![1, 2, 3, 4],
    });
    round_trip(&TrustEnvelope::Recovery { bundle: b"recovery-bundle-history".to_vec() });
    round_trip(&TrustEnvelope::Bag {
        key_name: "/ndn/mobile/alice/KEY/18b5e7d515966f90".to_string(),
        safebag: b"\x80\x10encrypted-safebag".to_vec(),
    });
}

#[test]
fn capability_request_and_grant_round_trip() {
    round_trip(&TrustEnvelope::Capability(Capability {
        direction: CapDirection::Request,
        namespace: "/work/acme/dashboard".to_string(),
        scope_patterns: vec!["/work/acme/<**rest>".to_string()],
        ttl_secs: 300,
        nonce: vec![9, 9, 9, 9],
        grant: None,
    }));
    round_trip(&TrustEnvelope::Capability(Capability {
        direction: CapDirection::Grant,
        namespace: "/work/acme/dashboard".to_string(),
        scope_patterns: vec![],
        ttl_secs: 300,
        nonce: Vec::new(),
        grant: Some(b"signed-capability-wire".to_vec()),
    }));
}

#[test]
fn legacy_ndn_ctx_parses_as_anchor() {
    let content = b"\x07\x10legacy-context!!";
    let b64 = B64.encode(content);
    let s = format!("ndn-ctx:1:42:{b64}");
    let e = TrustEnvelope::from_uri(&s).unwrap();
    assert_eq!(e, TrustEnvelope::Anchor { version: 42, context_content: content.to_vec() });
}
