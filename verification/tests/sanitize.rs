use cerberus_flex_gateway::hash::hash_pii;
use cerberus_flex_gateway::json::Json;
use cerberus_flex_gateway::pii_rules::{CompiledPiiRules, PiiPatternConfig};
use cerberus_flex_gateway::sanitize::{
    is_sensitive_header_lower, sanitize_value, sanitize_value_with,
};

fn j(s: &str) -> Json {
    Json::parse(s.as_bytes()).expect("valid JSON")
}

#[test]
fn sensitive_key_lookup_case_insensitive() {
    let input = j(r##"{"Password": "x", "API_KEY": "y", "username": "z"}"##);
    let expected =
        j(r##"{"Password": "[REDACTED]", "API_KEY": "[REDACTED]", "username": "z"}"##);
    assert_eq!(sanitize_value(input), expected);
}

#[test]
fn sensitive_header_lookup_lowercase_only() {
    assert!(is_sensitive_header_lower("authorization"));
    assert!(is_sensitive_header_lower("cookie"));
    assert!(!is_sensitive_header_lower("user-agent"));
}

#[test]
fn sensitive_header_wrong_casing_not_matched() {
    assert!(!is_sensitive_header_lower("Authorization"));
    assert!(!is_sensitive_header_lower("AUTHORIZATION"));
    assert!(!is_sensitive_header_lower("Cookie"));
    assert!(!is_sensitive_header_lower("Set-Cookie"));
}

#[test]
fn redacts_top_level_sensitive_value() {
    let input = j(r##"{"username": "alice", "password": "hunter2"}"##);
    let expected = j(r##"{"username": "alice", "password": "[REDACTED]"}"##);
    assert_eq!(sanitize_value(input), expected);
}

#[test]
fn redacts_entire_subtree_when_key_is_sensitive() {
    let input = j(r##"{"credentials": {"token": "abc", "role": "admin"}}"##);
    let expected = j(r##"{"credentials": "[REDACTED]"}"##);
    assert_eq!(sanitize_value(input), expected);
}

#[test]
fn list_of_dicts_each_sanitized() {
    let input = j(r##"[ {"username": "alice", "password": "x"}, {"username": "bob", "password": "y"} ]"##);
    let expected = j(r##"[ {"username": "alice", "password": "[REDACTED]"}, {"username": "bob", "password": "[REDACTED]"} ]"##);
    assert_eq!(sanitize_value(input), expected);
}

#[test]
fn deep_nesting_caps_at_max_depth() {
    let mut v = j(r##"{"value": "leaf"}"##);
    for _ in 0..25 {
        v = Json::Object(vec![("level".to_string(), v)]);
    }
    let result = sanitize_value(v);
    let mut node = &result;
    for _ in 0..21 {
        node = node.get("level").expect("nested level");
    }
    assert_eq!(node, &Json::Text("[REDACTED]".to_string()));
}

fn rules(extra_keys: &[&str], patterns: &[(&str, &str, &str)]) -> CompiledPiiRules {
    let keys: Vec<String> = extra_keys.iter().map(|s| s.to_string()).collect();
    let pats: Vec<PiiPatternConfig> = patterns
        .iter()
        .map(|(pattern, action, scope)| PiiPatternConfig {
            pattern: pattern.to_string(),
            label: None,
            action: Some(action.to_string()),
            scope: Some(scope.to_string()),
        })
        .collect();
    CompiledPiiRules::compile(&keys, &pats).expect("test rules compile").0
}

#[test]
fn custom_key_redacts_like_builtin() {
    let r = rules(&["member_number"], &[]);
    let input = j(r##"{"Member_Number": "M-123", "name": "alice"}"##);
    let expected = j(r##"{"Member_Number": "[REDACTED]", "name": "alice"}"##);
    assert_eq!(sanitize_value_with(input, &r, None), expected);
}

#[test]
fn builtin_keys_still_redact_with_custom_rules_present() {
    let r = rules(&["member_number"], &[]);
    let input = j(r##"{"password": "hunter2"}"##);
    let expected = j(r##"{"password": "[REDACTED]"}"##);
    assert_eq!(sanitize_value_with(input, &r, None), expected);
}

#[test]
fn value_pattern_redacts_substring_in_free_text() {
    let r = rules(&[], &[(r"\b\d{3}-\d{2}-\d{4}\b", "redact", "values")]);
    let input = j(r##"{"note": "ssn is 123-45-6789, call me"}"##);
    let expected = j(r##"{"note": "ssn is [REDACTED], call me"}"##);
    assert_eq!(sanitize_value_with(input, &r, None), expected);
}

#[test]
fn value_pattern_reaches_nested_arrays() {
    let r = rules(&[], &[(r"\b\d{3}-\d{2}-\d{4}\b", "redact", "values")]);
    let input = j(r##"{"messages": [{"content": "my ssn: 123-45-6789"}, "078-05-1120"]}"##);
    let expected =
        j(r##"{"messages": [{"content": "my ssn: [REDACTED]"}, "[REDACTED]"]}"##);
    assert_eq!(sanitize_value_with(input, &r, None), expected);
}

#[test]
fn value_pattern_hash_replaces_each_match_with_digest() {
    let r = rules(&[], &[(r"\b\d{3}-\d{2}-\d{4}\b", "hash", "values")]);
    let input = j(r##"{"note": "id 123-45-6789 end"}"##);
    let out = sanitize_value_with(input, &r, Some("s3cret"));
    let expected_digest = hash_pii("123-45-6789", "s3cret");
    assert_eq!(out.get("note"), Some(&Json::Text(format!("id {expected_digest} end"))));
}

#[test]
fn hash_without_secret_falls_back_to_redact() {
    let r = rules(&[], &[(r"\d{3}-\d{2}-\d{4}", "hash", "values")]);
    let input = j(r##"{"note": "123-45-6789"}"##);
    let expected = j(r##"{"note": "[REDACTED]"}"##);
    assert_eq!(sanitize_value_with(input, &r, None), expected);
}

#[test]
fn key_scope_replaces_whole_value_not_substrings() {
    let r = rules(&[], &[("internal_id", "redact", "keys")]);
    let input = j(r##"{"x_internal_id": "abc-123", "note": "internal_id mentioned"}"##);
    let expected =
        j(r##"{"x_internal_id": "[REDACTED]", "note": "internal_id mentioned"}"##);
    assert_eq!(sanitize_value_with(input, &r, None), expected);
}

#[test]
fn key_scope_hash_hashes_string_value_redacts_subtree() {
    let r = rules(&[], &[("^account_ref$", "hash", "keys")]);
    let input = j(r##"{"account_ref": "AR-9", "nested": {"account_ref": {"a": 1}}}"##);
    let out = sanitize_value_with(input, &r, Some("s3cret"));
    assert_eq!(out.get("account_ref"), Some(&Json::Text(hash_pii("AR-9", "s3cret"))));
    assert_eq!(
        out.get("nested").and_then(|n| n.get("account_ref")),
        Some(&Json::Text("[REDACTED]".to_string()))
    );
}

#[test]
fn both_scope_matches_keys_and_values() {
    let r = rules(&[], &[("secretish", "redact", "both")]);
    let input = j(r##"{"secretish_field": "v", "note": "very secretish text"}"##);
    let expected = j(r##"{"secretish_field": "[REDACTED]", "note": "very [REDACTED] text"}"##);
    assert_eq!(sanitize_value_with(input, &r, None), expected);
}

#[test]
fn non_string_leaves_never_pattern_matched() {
    let r = rules(&[], &[(r"\d+", "redact", "values")]);
    let input = j(r##"{"count": 123456789, "flag": true, "nil": null}"##);
    assert_eq!(sanitize_value_with(input.clone(), &r, None), input);
}

#[test]
fn builtin_key_redaction_wins_over_pattern_rules() {
    let r = rules(&[], &[(r"hunter\d", "hash", "values")]);
    let input = j(r##"{"password": "hunter2"}"##);
    let expected = j(r##"{"password": "[REDACTED]"}"##);
    assert_eq!(sanitize_value_with(input, &r, Some("s3cret")), expected);
}

#[test]
fn rules_apply_to_query_param_shaped_maps() {
    let r = rules(&["customer_ref"], &[(r"\b\d{3}-\d{2}-\d{4}\b", "redact", "values")]);
    let input = j(r##"{"customer_ref": "c-1", "q": "ssn:123-45-6789", "multi": ["078-05-1120", "ok"]}"##);
    let expected = j(r##"{"customer_ref": "[REDACTED]", "q": "ssn:[REDACTED]", "multi": ["[REDACTED]", "ok"]}"##);
    assert_eq!(sanitize_value_with(input, &r, None), expected);
}
