use ndn_security::ca::Certificate;
use ndn_security::name::Name;
use ndn_security::trace::{trace, ChainTraceStep, TraceFailure};
use ndn_security::trust_schema::SchemaRule;

fn n(s: &str) -> Name {
    Name::from_uri(s).unwrap()
}

fn cert(name: &str, issuer: Option<&str>) -> Certificate {
    Certificate {
        name: n(name),
        issuer: issuer.map(n),
        public_key: vec![1, 2, 3],
        valid_from: 0,
        valid_until: u64::MAX,
        signed_region: None,
        sig_value: None,
        sig_type: 5,
    }
}

fn step(name: &str, signed_by: &str, is_anchor: bool) -> ChainTraceStep {
    ChainTraceStep { name: n(name), signed_by: n(signed_by), is_anchor }
}

#[test]
fn trace_of_an_anchor_is_one_step() {
    let anchors = vec![cert("/root/KEY/r", None)];
    let t = trace(&anchors, &Vec::new(), &Vec::new(), &n("/root/KEY/r"), 4);
    assert_eq!(t.target, n("/root/KEY/r"));
    assert_eq!(t.steps, vec![step("/root/KEY/r", "/root/KEY/r", true)]);
    assert!(t.rules_applied.is_empty());
    assert_eq!(t.failure, None);
}

#[test]
fn trace_walks_to_the_anchor_and_applies_the_rules() {
    let anchors = vec![cert("/root/KEY/r", None)];
    let cache = vec![cert("/root/alice/KEY/a", Some("/root/KEY/r"))];
    let rules = vec![SchemaRule::parse("/root/<**rest> => /root/KEY/<id>").unwrap()];
    let t = trace(&anchors, &cache, &rules, &n("/root/alice/KEY/a"), 4);
    assert_eq!(
        t.steps,
        vec![step("/root/alice/KEY/a", "/root/KEY/r", false), step("/root/KEY/r", "/root/KEY/r", true)]
    );
    assert_eq!(t.rules_applied.len(), 1);
    assert_eq!(t.rules_applied[0].data_pattern, "/root/<**rest>");
    assert_eq!(t.rules_applied[0].key_pattern, "/root/KEY/<id>");
    assert!(t.rules_applied[0].matches);
    assert_eq!(t.failure, None);
}

#[test]
fn trace_reports_each_way_of_stopping() {
    let anchors = vec![cert("/root/KEY/r", None)];
    // Not in the cache.
    let t = trace(&anchors, &Vec::new(), &Vec::new(), &n("/x/KEY/k"), 4);
    assert_eq!(t.failure, Some(TraceFailure::CertNotFound { name: n("/x/KEY/k") }));
    assert!(t.steps.is_empty());
    // No key locator.
    let t = trace(&anchors, &vec![cert("/x/KEY/k", None)], &Vec::new(), &n("/x/KEY/k"), 4);
    assert_eq!(t.failure, Some(TraceFailure::NoKeyLocator { name: n("/x/KEY/k") }));
    assert_eq!(t.steps, vec![step("/x/KEY/k", "/x/KEY/k", false)]);
    // Self-signed, not an anchor.
    let t = trace(&anchors, &vec![cert("/x/KEY/k", Some("/x/KEY/k"))], &Vec::new(), &n("/x/KEY/k"), 4);
    assert_eq!(t.failure, Some(TraceFailure::AnchorNotTrusted { name: n("/x/KEY/k") }));
    // The issuer's certificate is missing.
    let t = trace(&anchors, &vec![cert("/x/KEY/k", Some("/y/KEY/j"))], &Vec::new(), &n("/x/KEY/k"), 4);
    assert_eq!(t.failure, Some(TraceFailure::CertNotFound { name: n("/y/KEY/j") }));
    // Too long a chain: a -> b -> c -> ... with a limit of one extra hop.
    let cache = vec![cert("/a/KEY/1", Some("/b/KEY/1")), cert("/b/KEY/1", Some("/c/KEY/1")), cert("/c/KEY/1", Some("/d/KEY/1"))];
    let t = trace(&anchors, &cache, &Vec::new(), &n("/a/KEY/1"), 1);
    assert_eq!(t.failure, Some(TraceFailure::ChainTooDeep { limit: 1 }));
    assert_eq!(t.steps, vec![step("/a/KEY/1", "/b/KEY/1", false), step("/b/KEY/1", "/c/KEY/1", false)]);
}

#[test]
fn trace_anchor_returns_single_step_no_failure() {
    let key_name = n("/anchor-key");
    let anchors = vec![cert("/anchor-key", None)];
    let t = trace(&anchors, &Vec::new(), &Vec::new(), &key_name, 4);
    assert!(t.failure.is_none(), "anchor trace must succeed");
    assert_eq!(t.steps.len(), 1);
    assert!(t.steps[0].is_anchor);
    assert_eq!(t.steps[0].name, key_name);
}

#[test]
fn trace_unknown_name_returns_cert_not_found() {
    let target = n("/unknown");
    let t = trace(&Vec::new(), &Vec::new(), &Vec::new(), &target, 4);
    match t.failure {
        Some(TraceFailure::CertNotFound { name }) => assert_eq!(name, target),
        other => panic!("expected CertNotFound, got {other:?}"),
    }
}
