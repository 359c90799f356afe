use pull_all_tui::groups::{
    extract_members, resolved_fresh, wildcard_match, ExtractKind, ExtractSpec, GroupDef,
    GroupSource, GroupsConfig, DEFAULT_CACHE_TTL_MINUTES, DEFAULT_COLLAPSE_THRESHOLD,
};

#[test]
fn wildcard_matches_literals_exactly() {
    assert!(wildcard_match("pull-all", "pull-all"));
    assert!(!wildcard_match("pull-all", "pull-all-extra"));
    assert!(!wildcard_match("pull-all-extra", "pull-all"));
}

#[test]
fn wildcard_matches_prefix_suffix_and_infix() {
    assert!(wildcard_match("mfe-*", "mfe-calendar"));
    assert!(!wildcard_match("mfe-*", "core-mfe"));
    assert!(wildcard_match("*-service", "auth-service"));
    assert!(!wildcard_match("*-service", "service-auth"));
    assert!(wildcard_match("a*b*c", "axxbyyc"));
    assert!(wildcard_match("a*b*c", "abc"));
    assert!(!wildcard_match("a*b*c", "acb"));
}

#[test]
fn wildcard_backtracks_across_multiple_stars() {
    assert!(wildcard_match("*ab*ab*", "xxabxabxabyy"));
    assert!(!wildcard_match("*ab*ab*", "xxabyy"));
}

#[test]
fn wildcard_is_case_insensitive() {
    assert!(wildcard_match("MFE-*", "mfe-calendar"));
    assert!(wildcard_match("mfe-*", "MFE-Calendar"));
}

#[test]
fn wildcard_handles_bare_star_and_empties() {
    assert!(wildcard_match("*", "anything"));
    assert!(wildcard_match("*", ""));
    assert!(wildcard_match("", ""));
    assert!(!wildcard_match("", "x"));
}

#[test]
fn wildcard_does_not_refuse_its_own_letters() {
    // A capital sigma at the end of a word has a lower-case form of its own.
    assert!(wildcard_match("\u{391}\u{3a3}*", "\u{391}\u{3a3}\u{391}"));
    assert!(wildcard_match("*\u{391}\u{3a3}", "\u{3b1}\u{391}\u{3a3}"));
    assert!(wildcard_match("\u{c9}T\u{c9}*", "\u{e9}t\u{e9}-repo"));
    assert!(wildcard_match("\u{130}*", "\u{130}stanbul"));
    assert!(!wildcard_match("\u{391}\u{3a3}", "\u{391}\u{3a3}\u{391}"));
    // Both small sigmas are forms of the capital.
    assert!(wildcard_match("\u{3b1}\u{3c2}", "\u{391}\u{3a3}"));
    assert!(wildcard_match("\u{391}\u{3a3}", "\u{3b1}\u{3c2}"));
    assert!(wildcard_match("\u{3b1}\u{3c3}*", "\u{391}\u{3a3}-repo"));
    assert!(!wildcard_match("\u{3b1}\u{3c2}", "\u{3b1}\u{3c4}"));
}

#[test]
fn any_lifetime_can_be_asked_about() {
    assert!(resolved_fresh(0, 0, 1u64 << 62));
    assert!(resolved_fresh(0, u64::MAX, u64::MAX));
    assert!(!resolved_fresh(0, u64::MAX, 1));
    assert!(!resolved_fresh(5, 5, 0));
}

#[test]
fn group_def_requires_exactly_one_source() {
    let none = GroupDef { name: "g".to_string(), ..GroupDef::default() };
    assert!(none.source().unwrap_err().contains("g"));

    let two = GroupDef {
        name: "g".to_string(),
        pattern: Some("a*".to_string()),
        command: Some("true".to_string()),
        ..GroupDef::default()
    };
    assert!(two.source().unwrap_err().contains("exactly one"));

    let one = GroupDef {
        name: "g".to_string(),
        pattern: Some("a*".to_string()),
        ..GroupDef::default()
    };
    assert_eq!(one.source().unwrap(), GroupSource::Pattern("a*".to_string()));

    let unnamed = GroupDef { pattern: Some("a*".to_string()), ..GroupDef::default() };
    assert!(unnamed.source().is_err());
}

#[test]
fn extract_keys_at_root_by_default() {
    let json: serde_json::Value =
        serde_json::from_str(r#"{"repo-a": {"x": 1}, "repo-b": {}}"#).unwrap();
    let members = extract_members(&json, &ExtractSpec::default()).unwrap();
    assert_eq!(members, vec!["repo-a", "repo-b"]);
}

#[test]
fn extract_keys_at_nested_pointer() {
    let json: serde_json::Value =
        serde_json::from_str(r#"{"entries": {"repo-a": 1, "repo-b": 2}}"#).unwrap();
    let spec = ExtractSpec { pointer: "/entries".to_string(), kind: ExtractKind::Keys };
    assert_eq!(extract_members(&json, &spec).unwrap(), vec!["repo-a", "repo-b"]);
}

#[test]
fn extract_values_from_array_skips_non_strings() {
    let json: serde_json::Value =
        serde_json::from_str(r#"{"list": ["repo-a", 42, "repo-b", null]}"#).unwrap();
    let spec = ExtractSpec { pointer: "/list".to_string(), kind: ExtractKind::Values };
    assert_eq!(extract_members(&json, &spec).unwrap(), vec!["repo-a", "repo-b"]);
}

#[test]
fn extract_values_from_object_takes_string_values() {
    let json: serde_json::Value =
        serde_json::from_str(r#"{"a": "repo-a", "b": "repo-b", "c": 3}"#).unwrap();
    let spec = ExtractSpec { pointer: String::new(), kind: ExtractKind::Values };
    assert_eq!(extract_members(&json, &spec).unwrap(), vec!["repo-a", "repo-b"]);
}

#[test]
fn extract_errors_on_bad_pointer_or_wrong_shape() {
    let json: serde_json::Value = serde_json::from_str(r#"{"a": [1]}"#).unwrap();
    let missing = ExtractSpec { pointer: "/nope".to_string(), kind: ExtractKind::Keys };
    assert!(extract_members(&json, &missing).is_err());
    let not_object = ExtractSpec { pointer: "/a".to_string(), kind: ExtractKind::Keys };
    assert!(extract_members(&json, &not_object).is_err());
}

#[test]
fn resolved_fresh_respects_ttl_boundary() {
    // ttl 1 minute = 60s window: fresh strictly inside, stale at the boundary.
    assert!(resolved_fresh(1_000, 1_059, 1));
    assert!(!resolved_fresh(1_000, 1_060, 1));
    // Clock skew (resolved in the "future") never underflows.
    assert!(resolved_fresh(1_000, 500, 1));
}

#[test]
fn config_defaults_kick_in_for_zero_values() {
    let config = GroupsConfig::default();
    assert_eq!(config.collapse_threshold(), DEFAULT_COLLAPSE_THRESHOLD);
    assert_eq!(config.cache_ttl_minutes(), DEFAULT_CACHE_TTL_MINUTES);
    let custom = GroupsConfig { collapse_threshold: 9, cache_ttl_minutes: 5, groups: vec![] };
    assert_eq!(custom.collapse_threshold(), 9);
    assert_eq!(custom.cache_ttl_minutes(), 5);
}
