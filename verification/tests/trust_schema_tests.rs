use ndn_security::lvs_compile::{compile, compile_to_binary, emit, LvsCompileError, LvsNode};
use ndn_security::name::{Name, NameComponent};
use ndn_security::trust_schema::{
    pattern_under, NamePattern, PatternComponent, PatternParseError, SchemaRule, TrustSchema,
};

fn comp(s: &str) -> NameComponent {
    NameComponent::generic(s.as_bytes().to_vec())
}

fn name(components: &[&str]) -> Name {
    Name::from_components(components.iter().map(|s| comp(s)).collect())
}

#[test]
fn literal_matches_exact() {
    let pat = NamePattern(vec![PatternComponent::Literal(comp("sensor"))]);
    assert!(pat.matches(&name(&["sensor"]), &mut Vec::new()));
}

#[test]
fn literal_rejects_wrong_component() {
    let pat = NamePattern(vec![PatternComponent::Literal(comp("sensor"))]);
    assert!(!pat.matches(&name(&["actuator"]), &mut Vec::new()));
}

#[test]
fn literal_rejects_extra_components() {
    let pat = NamePattern(vec![PatternComponent::Literal(comp("a"))]);
    assert!(!pat.matches(&name(&["a", "b"]), &mut Vec::new()));
}

#[test]
fn capture_binds_variable() {
    let pat = NamePattern(vec![
        PatternComponent::Literal(comp("sensor")),
        PatternComponent::Capture("node".to_string()),
    ]);
    let mut bindings = Vec::new();
    assert!(pat.matches(&name(&["sensor", "node1"]), &mut bindings));
    let bound = bindings.iter().find(|(k, _)| k == "node").map(|(_, v)| v.clone());
    assert_eq!(bound, Some(comp("node1")));
}

#[test]
fn capture_enforces_consistency() {
    let data_pat = NamePattern(vec![PatternComponent::Capture("node".to_string())]);
    let key_pat = NamePattern(vec![PatternComponent::Capture("node".to_string())]);
    let mut bindings = Vec::new();
    assert!(data_pat.matches(&name(&["n1"]), &mut bindings));
    assert!(key_pat.matches(&name(&["n1"]), &mut bindings.clone()));
    assert!(!key_pat.matches(&name(&["n2"]), &mut bindings));
}

#[test]
fn multi_capture_consumes_remaining() {
    let pat = NamePattern(vec![
        PatternComponent::Literal(comp("prefix")),
        PatternComponent::MultiCapture("rest".to_string()),
    ]);
    assert!(pat.matches(&name(&["prefix", "a", "b", "c"]), &mut Vec::new()));
}

#[test]
fn schema_rule_allows_matching_pair() {
    let rule = SchemaRule {
        data_pattern: NamePattern(vec![PatternComponent::Literal(comp("data"))]),
        key_pattern: NamePattern(vec![PatternComponent::Literal(comp("key"))]),
    };
    assert!(rule.check(&name(&["data"]), &name(&["key"])));
    assert!(!rule.check(&name(&["data"]), &name(&["wrong"])));
}

#[test]
fn trust_schema_allows_via_any_rule() {
    let mut schema = TrustSchema::new();
    schema.add_rule(SchemaRule {
        data_pattern: NamePattern(vec![PatternComponent::Literal(comp("data"))]),
        key_pattern: NamePattern(vec![PatternComponent::Literal(comp("key"))]),
    });
    assert!(schema.allows(&name(&["data"]), &name(&["key"])));
    assert!(!schema.allows(&name(&["data"]), &name(&["wrong"])));
}

#[test]
fn empty_schema_rejects_everything() {
    let schema = TrustSchema::new();
    assert!(!schema.allows(&name(&["a"]), &name(&["b"])));
}

#[test]
fn accept_all_allows_any_pair() {
    let schema = TrustSchema::accept_all();
    assert!(schema.allows(&name(&["a", "b"]), &name(&["x", "y", "z"])));
    assert!(schema.allows(&name(&["data"]), &name(&["key"])));
}

#[test]
fn pattern_parse_literal() {
    let p = NamePattern::parse("/sensor/temp").unwrap();
    assert_eq!(p.0.len(), 2);
    assert!(matches!(&p.0[0], PatternComponent::Literal(nc) if nc.value == b"sensor".to_vec()));
    assert!(matches!(&p.0[1], PatternComponent::Literal(nc) if nc.value == b"temp".to_vec()));
}

#[test]
fn pattern_parse_captures() {
    let p = NamePattern::parse("/sensor/<node>/KEY/<id>").unwrap();
    assert_eq!(p.0.len(), 4);
    assert!(matches!(&p.0[0], PatternComponent::Literal(_)));
    assert!(matches!(&p.0[1], PatternComponent::Capture(v) if v == "node"));
    assert!(matches!(&p.0[2], PatternComponent::Literal(_)));
    assert!(matches!(&p.0[3], PatternComponent::Capture(v) if v == "id"));
}

#[test]
fn pattern_parse_multi_capture_at_end() {
    let p = NamePattern::parse("/org/<**rest>").unwrap();
    assert_eq!(p.0.len(), 2);
    assert!(matches!(&p.0[1], PatternComponent::MultiCapture(v) if v == "rest"));
}

#[test]
fn pattern_parse_multi_capture_not_last_errors() {
    assert!(matches!(
        NamePattern::parse("/org/<**rest>/extra"),
        Err(PatternParseError::MultiCaptureNotLast)
    ));
}

#[test]
fn pattern_parse_unclosed_capture_errors() {
    assert!(matches!(
        NamePattern::parse("/sensor/<node"),
        Err(PatternParseError::UnclosedCapture)
    ));
}

#[test]
fn pattern_roundtrip_text() {
    let s = "/sensor/<node>/KEY/<id>";
    let p = NamePattern::parse(s).unwrap();
    assert_eq!(p.to_text(), s);
}

#[test]
fn pattern_roundtrip_multi() {
    let s = "/org/<**rest>";
    let p = NamePattern::parse(s).unwrap();
    assert_eq!(p.to_text(), s);
}

#[test]
fn rule_parse_roundtrip() {
    let s = "/sensor/<node>/<type> => /sensor/<node>/KEY/<id>";
    let r = SchemaRule::parse(s).unwrap();
    assert_eq!(r.to_text(), s);
}

#[test]
fn rule_parse_bad_separator_errors() {
    assert!(matches!(
        SchemaRule::parse("/a /b"),
        Err(PatternParseError::BadRuleSeparator)
    ));
}

#[test]
fn schema_remove_rule() {
    let mut schema = TrustSchema::new();
    schema.add_rule(SchemaRule {
        data_pattern: NamePattern(vec![PatternComponent::Literal(comp("data"))]),
        key_pattern: NamePattern(vec![PatternComponent::Literal(comp("key"))]),
    });
    assert!(schema.allows(&name(&["data"]), &name(&["key"])));
    schema.remove_rule(0);
    assert!(!schema.allows(&name(&["data"]), &name(&["key"])));
}

#[test]
fn schema_rules_returns_slice() {
    let mut schema = TrustSchema::new();
    schema.add_rule(SchemaRule {
        data_pattern: NamePattern(vec![PatternComponent::Literal(comp("d"))]),
        key_pattern: NamePattern(vec![PatternComponent::Literal(comp("k"))]),
    });
    assert_eq!(schema.rules().len(), 1);
}

#[test]
fn hierarchical_requires_matching_first_component() {
    let schema = TrustSchema::hierarchical();
    assert!(schema.allows(&name(&["org", "data"]), &name(&["org", "KEY", "k1"])));
    assert!(!schema.allows(&name(&["orgA", "data"]), &name(&["orgB", "KEY", "k1"])));
    assert!(schema.allows(
        &name(&["org", "dept", "sensor", "temp"]),
        &name(&["org", "dept", "KEY", "k1"])
    ));
}

#[test]
fn pattern_parse_empty_and_root() {
    assert!(matches!(NamePattern::parse("   "), Err(PatternParseError::Empty)));
    assert_eq!(NamePattern::parse("/").unwrap().0.len(), 0);
    assert_eq!(NamePattern::parse(" a/b ").unwrap().0.len(), 2);
    assert_eq!(NamePattern::parse("/").unwrap().to_text(), "/");
}

#[test]
fn pattern_under_matches_subtree_only() {
    let p = pattern_under(&name(&["alice", "device"]));
    assert!(p.matches(&name(&["alice", "device", "phone", "data"]), &mut Vec::new()));
    assert!(p.matches(&name(&["alice", "device"]), &mut Vec::new()));
    assert!(!p.matches(&name(&["alice", "other"]), &mut Vec::new()));
}

#[test]
fn rule_check_carries_bindings_from_data_to_key() {
    let r = SchemaRule::parse("/sensor/<node>/<type> => /sensor/<node>/KEY/<id>").unwrap();
    assert!(r.check(&name(&["sensor", "n1", "temp"]), &name(&["sensor", "n1", "KEY", "k"])));
    assert!(!r.check(&name(&["sensor", "n1", "temp"]), &name(&["sensor", "n2", "KEY", "k"])));
    assert_eq!(PatternParseError::BadRuleSeparator.message(), "rule must have exactly one '=>' separator");
}

#[test]
fn lvs_compile_lowers_rules_to_a_node_graph() {
    // `#a: /"x"/_` is a value edge to node 1, then an anonymous pattern edge
    // (tag 0) to node 2.
    let g = compile(r#"#a: /"x"/_"#).ok().expect("compiles");
    assert_eq!(
        g.nodes,
        vec![
            LvsNode { value_edges: vec![(b"x".to_vec(), 1)], pattern_edges: vec![], key_nodes: vec![] },
            LvsNode { value_edges: vec![], pattern_edges: vec![(2, 0)], key_nodes: vec![] },
            LvsNode { value_edges: vec![], pattern_edges: vec![], key_nodes: vec![] },
        ]
    );
    assert_eq!(g.named_pattern_num, 1);
    assert!(g.tag_symbols.is_empty());
    // A signing relation becomes a key-node constraint on the data rule's
    // terminal node; a named variable becomes a tag symbol.
    let g = compile("#root: /\"k\"/_id\n#doc: /\"d\" <= #root").ok().expect("compiles");
    assert_eq!(g.tag_symbols, vec![(0, "id".to_string())]);
    assert_eq!(g.nodes[3].key_nodes, vec![2]);
}

#[test]
fn lvs_compile_to_binary_is_the_emitted_graph() {
    let src = "// a comment\n#root: /\"site\"/\"KEY\"/_keyid\n#doc: /\"site\"/_user/\"doc\" <= #root";
    let g = compile(src).ok().expect("compiles");
    let bin = compile_to_binary(src).expect("compiles");
    assert_eq!(bin, emit(&g));
    assert!(!bin.is_empty());
}

#[test]
fn lvs_compile_reports_each_error() {
    match compile(r#"#a: /"x" <= #ghost"#) {
        Err(LvsCompileError::UnknownSigner { rule, signer }) => {
            assert_eq!(rule, "a");
            assert_eq!(signer, "ghost");
        }
        _ => panic!("expected an unknown signer"),
    }
    assert!(matches!(compile("#a: /\"x\"\n#a: /\"y\""), Err(LvsCompileError::DuplicateRule(id)) if id == "a"));
    match compile("a: /\"x\"") {
        Err(LvsCompileError::Syntax { line, msg }) => {
            assert_eq!(line, 1);
            assert_eq!(msg, "rule must start with '#'");
        }
        _ => panic!("expected a syntax error"),
    }
    // A bareword component is an error, not a literal.
    match compile_to_binary("\n#a: /KEY/_") {
        Err(LvsCompileError::Syntax { line, msg }) => {
            assert_eq!(line, 2);
            assert_eq!(msg, "malformed component");
        }
        _ => panic!("expected a syntax error"),
    }
    assert!(matches!(compile("#a /\"x\""), Err(LvsCompileError::Syntax { msg, .. }) if msg == "expected ':' after rule id"));
    assert!(matches!(compile("#: /\"x\""), Err(LvsCompileError::Syntax { msg, .. }) if msg == "empty rule id"));
    assert!(matches!(compile("#a: <= #b"), Err(LvsCompileError::Syntax { msg, .. }) if msg == "rule has no name components"));
    assert_eq!(
        LvsCompileError::DuplicateRule("a".to_string()).message(),
        "duplicate rule 'a'"
    );
}
