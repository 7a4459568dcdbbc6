use ndn_security::abe::{
    AbeCiphertext, AbeSchemeId, KgcRef, PolicyBlockPayload, CIPHERTEXT_SCHEMA_VERSION, POLICY_BLOCK_SCHEMA_VERSION,
};
use ndn_security::name::Name;

fn n(s: &str) -> Name {
    Name::from_uri(s).unwrap()
}

fn sample_ct(scheme: AbeSchemeId) -> AbeCiphertext {
    AbeCiphertext {
        schema_version: CIPHERTEXT_SCHEMA_VERSION,
        scheme,
        policy_source: "role:doctor AND dept:cardiology".to_string(),
        attributes: vec![],
        kgc_refs: vec![KgcRef { kgc_did: n("/hospital/kgc"), master_params_hash: ndn_security::digest::Hash::of(b"params") }],
        rabe_ciphertext_bytes: b"fake_rabe_bytes".to_vec(),
    }
}

fn round_trip(ct: AbeCiphertext) -> AbeCiphertext {
    let encoded = ct.encode_to_bytes();
    AbeCiphertext::decode_from_bytes(&encoded).unwrap()
}

#[test]
fn ciphertext_tlv_round_trip_bsw() {
    let ct = sample_ct(AbeSchemeId::BSW);
    assert_eq!(ct, round_trip(ct.clone()));
}

#[test]
fn ciphertext_tlv_round_trip_lewko_waters() {
    let ct = sample_ct(AbeSchemeId::LewkoWaters);
    assert_eq!(ct, round_trip(ct.clone()));
}

#[test]
fn ciphertext_tlv_round_trip_no_kgc_refs() {
    let ct = AbeCiphertext {
        schema_version: CIPHERTEXT_SCHEMA_VERSION,
        scheme: AbeSchemeId::BSW,
        policy_source: "x:y".to_string(),
        attributes: vec![],
        kgc_refs: vec![],
        rabe_ciphertext_bytes: b"blob".to_vec(),
    };
    assert_eq!(ct, round_trip(ct.clone()));
}

#[test]
fn ciphertext_tlv_round_trip_kp_abe_with_attributes() {
    let ct = AbeCiphertext {
        schema_version: CIPHERTEXT_SCHEMA_VERSION,
        scheme: AbeSchemeId::KpAbe,
        policy_source: String::new(),
        attributes: vec!["service:mavlink".to_string(), "perm:execute".to_string()],
        kgc_refs: vec![KgcRef { kgc_did: n("/muas/controller"), master_params_hash: ndn_security::digest::Hash::of(b"kp-params") }],
        rabe_ciphertext_bytes: b"kp_blob".to_vec(),
    };
    assert_eq!(ct, round_trip(ct.clone()));
}

#[test]
fn ciphertext_unknown_schema_version_returns_error() {
    let mut ct = sample_ct(AbeSchemeId::BSW);
    ct.schema_version = 999;
    let encoded = ct.encode_to_bytes();
    assert!(AbeCiphertext::decode_from_bytes(&encoded).is_err());
}

fn block_round_trip(p: PolicyBlockPayload) -> PolicyBlockPayload {
    let bytes = p.encode_to_bytes();
    PolicyBlockPayload::decode_from_bytes(&bytes).unwrap()
}

#[test]
fn policy_block_payload_round_trips_bsw() {
    let payload = PolicyBlockPayload {
        schema_version: POLICY_BLOCK_SCHEMA_VERSION,
        scheme: AbeSchemeId::BSW,
        policy_source: "role:doctor".to_string(),
        kgc_refs: vec![KgcRef { kgc_did: n("/hospital/kgc"), master_params_hash: ndn_security::digest::Hash::of(b"params-hash") }],
    };
    assert_eq!(payload, block_round_trip(payload.clone()));
}

#[test]
fn policy_block_payload_round_trips_aw11_no_refs() {
    let payload = PolicyBlockPayload {
        schema_version: POLICY_BLOCK_SCHEMA_VERSION,
        scheme: AbeSchemeId::LewkoWaters,
        policy_source: "role:doctor AND dept:cardiology".to_string(),
        kgc_refs: vec![],
    };
    assert_eq!(payload, block_round_trip(payload.clone()));
}

#[test]
fn policy_block_payload_round_trips_multi_kgc_refs() {
    let payload = PolicyBlockPayload {
        schema_version: POLICY_BLOCK_SCHEMA_VERSION,
        scheme: AbeSchemeId::LewkoWaters,
        policy_source: "ROLE:DOCTOR and DEPT:CARDIOLOGY".to_string(),
        kgc_refs: vec![
            KgcRef { kgc_did: n("/hospital/kgc-1"), master_params_hash: ndn_security::digest::Hash::of(b"kgc1") },
            KgcRef { kgc_did: n("/licensing/kgc-2"), master_params_hash: ndn_security::digest::Hash::of(b"kgc2") },
        ],
    };
    assert_eq!(payload, block_round_trip(payload.clone()));
}

#[test]
fn policy_block_of_another_schema_version_is_refused() {
    let payload = PolicyBlockPayload {
        schema_version: 2,
        scheme: AbeSchemeId::BSW,
        policy_source: "role:doctor".to_string(),
        kgc_refs: vec![],
    };
    assert!(PolicyBlockPayload::decode(&payload.encode()).is_err());
}
