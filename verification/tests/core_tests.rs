use ndn_security::acme::{cert_status, days_between, needs_renewal, path_join};
use ndn_security::challenge::{hex_decode, hex_encode};
use ndn_security::iso8601::{format_iso_basic, parse_iso_basic};
use ndn_security::ndncert::ValidityMode;
use ndn_security::pib::FilePib;
use ndn_security::signer::{SIGNATURE_TYPE_DIGEST_BLAKE3_KEYED, SIGNATURE_TYPE_DIGEST_BLAKE3_PLAIN};
use ndn_security::spki::{is_ed25519_spki, unwrap_ed25519, wrap_ed25519, ED25519_SPKI_LEN, ED25519_SPKI_PREFIX};

#[test]
fn cert_status_none_for_garbage() {
    assert!(cert_status(b"not a pem").is_none());
    assert!(needs_renewal(b"not a pem").unwrap());
}

#[test]
fn hex_roundtrip() {
    let bytes = b"hello yubikey";
    assert_eq!(hex_decode(&hex_encode(bytes)).unwrap(), bytes);
}

#[test]
fn validity_mode_clockless_disables_ttl() {
    assert_eq!(ValidityMode::detect(true), ValidityMode::WallClock);
    assert_eq!(ValidityMode::detect(false), ValidityMode::Clockless);
    assert!(ValidityMode::WallClock.ttl_enforceable());
    assert!(!ValidityMode::Clockless.ttl_enforceable());
}

#[test]
fn epoch_roundtrip() {
    let s = format_iso_basic(0);
    assert_eq!(&s, b"19700101T000000");
    assert_eq!(parse_iso_basic(&s), Some(0));
}

#[test]
fn year_2000_known_date() {
    let ns = 946_684_800u64 * 1_000_000_000;
    let s = format_iso_basic(ns);
    assert_eq!(&s, b"20000101T000000");
    assert_eq!(parse_iso_basic(&s), Some(ns));
}

#[test]
fn modern_date_roundtrip() {
    let original = b"20260501T123456";
    let ns = parse_iso_basic(original).expect("must parse");
    assert_eq!(&format_iso_basic(ns), original);
}

#[test]
fn parse_then_format_roundtrip_far_future() {
    let original = b"20990228T235959";
    let ns = parse_iso_basic(original).expect("must parse");
    assert_eq!(&format_iso_basic(ns), original);
}

#[test]
fn parse_rejects_wrong_length() {
    assert!(parse_iso_basic(b"19700101T00000").is_none());
    assert!(parse_iso_basic(b"19700101T0000000").is_none());
}

#[test]
fn parse_rejects_missing_t_separator() {
    assert!(parse_iso_basic(b"19700101_000000").is_none());
}

#[test]
fn parse_rejects_non_digits() {
    assert!(parse_iso_basic(b"abcd0101T000000").is_none());
}

#[test]
fn open_nonexistent_pib_errors() {
    let r = FilePib::open("/tmp/ndn_pib_nonexistent_xyz_abc");
    assert!(r.is_err());
}

#[test]
fn blake3_sig_type_code_values_are_pinned() {
    assert_eq!(SIGNATURE_TYPE_DIGEST_BLAKE3_PLAIN, 6);
    assert_eq!(SIGNATURE_TYPE_DIGEST_BLAKE3_KEYED, 7);
}

#[test]
fn unwrap_rejects_wrong_prefix() {
    let mut bad = [0u8; ED25519_SPKI_LEN];
    bad[..12].copy_from_slice(&[0xFF; 12]);
    assert!(unwrap_ed25519(&bad).is_none());
}

#[test]
fn unwrap_rejects_wrong_length() {
    assert!(unwrap_ed25519(&[0u8; 32]).is_none());
    assert!(unwrap_ed25519(&[0u8; 64]).is_none());
}

#[test]
fn prefix_matches_rfc8410() {
    assert_eq!(
        ED25519_SPKI_PREFIX,
        [0x30, 0x2A, 0x30, 0x05, 0x06, 0x03, 0x2B, 0x65, 0x70, 0x03, 0x21, 0x00]
    );
}

#[test]
fn roundtrip_known_key() {
    let key = [0x42u8; 32];
    let spki = wrap_ed25519(&key);
    assert_eq!(spki.len(), ED25519_SPKI_LEN);
    assert!(is_ed25519_spki(&spki));
    let back = unwrap_ed25519(&spki).expect("must unwrap");
    assert_eq!(back, key);
}

#[test]
fn days_remaining_round_down_and_go_negative_once_expired() {
    assert_eq!(days_between(1_000_000, 1_000_100), -1);
    assert_eq!(days_between(1_000_000, 1_000_000 + 86_400), -1);
    assert_eq!(days_between(1_000_000, 1_000_000 + 86_401), -2);
    assert_eq!(days_between(1_000_000, 1_000_000), 0);
    assert_eq!(days_between(1_000_000 + 86_399, 1_000_000), 0);
    assert_eq!(days_between(1_000_000 + 2 * 86_400, 1_000_000), 2);
}

#[test]
fn paths_join_with_one_separator() {
    assert_eq!(path_join("/var/cache", "a.pem"), "/var/cache/a.pem");
    assert_eq!(path_join("/var/cache/", "a.pem"), "/var/cache/a.pem");
    assert_eq!(path_join("", "a.pem"), "a.pem");
    assert_eq!(path_join("/var/cache", "/etc/a.pem"), "/etc/a.pem");
}

#[test]
fn pib_opens_exactly_when_its_keys_directory_exists() {
    let r = FilePib::open_with("/tmp/pib", true).unwrap();
    assert_eq!(r.root(), "/tmp/pib");
    match FilePib::open_with("/tmp/pib", false) {
        Err(ndn_security::pib::PibError::Io(kind, m)) => {
            assert_eq!(kind, ndn_security::pib::IoKind::NotFound);
            assert_eq!(m, "PIB not found at /tmp/pib (run `ndn-sec keygen` to create one)");
        }
        other => panic!("expected a not-found error, got {:?}", other.err()),
    }
}
