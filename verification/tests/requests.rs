use cerberus_flex_gateway::hash::hash_pii;
use cerberus_flex_gateway::headers::{
    accept_lists_json_and_sse, content_type_is_json, title_case_header,
};
use cerberus_flex_gateway::json::Json;
use cerberus_flex_gateway::query::{legacy_mcp_session_query, parse_query_string};
use cerberus_flex_gateway::sampling::nonempty;
use cerberus_flex_gateway::sanitize::{
    pseudonymize_or_passthrough, pseudonymize_or_redact, REDACTED,
};
use cerberus_flex_gateway::timestamp::format_epoch;

#[test]
fn title_case_header_basic() {
    assert_eq!(title_case_header("user-agent"), "User-Agent");
    assert_eq!(title_case_header("x-api-key"), "X-Api-Key");
    assert_eq!(title_case_header("authorization"), "Authorization");
}

#[test]
fn content_type_substring_match_positive() {
    assert!(content_type_is_json(Some("application/json")));
    assert!(content_type_is_json(Some("application/json; charset=utf-8")));
    assert!(content_type_is_json(Some("Application/JSON")));
}

#[test]
fn content_type_substring_match_negative() {
    assert!(!content_type_is_json(Some("application/vnd.api+json")));
    assert!(!content_type_is_json(Some("text/plain")));
    assert!(!content_type_is_json(None));
    assert!(!content_type_is_json(Some("")));
}

#[test]
fn format_epoch_known_values() {
    assert_eq!(format_epoch(0, 0), "1970-01-01T00:00:00.000000+00:00");
    assert_eq!(
        format_epoch(1_709_164_800 + 12 * 3600 + 34 * 60 + 56, 789_012),
        "2024-02-29T12:34:56.789012+00:00"
    );
    assert_eq!(
        format_epoch(946_684_800, 0),
        "2000-01-01T00:00:00.000000+00:00"
    );
}

#[test]
fn hash_or_redact_redacts_when_no_secret() {
    assert_eq!(pseudonymize_or_redact(None, "Bearer sk-live-abc"), REDACTED);
}

#[test]
fn hash_or_redact_hashes_when_secret_present() {
    let out = pseudonymize_or_redact(Some("topsecret"), "Bearer sk-live-abc");
    assert_ne!(out, "Bearer sk-live-abc");
    assert_ne!(out, REDACTED);
    assert_eq!(out, hash_pii("Bearer sk-live-abc", "topsecret"));
}

#[test]
fn maybe_hash_passes_through_when_no_secret() {
    assert_eq!(pseudonymize_or_passthrough(None, "1.2.3.4"), "1.2.3.4");
    assert_eq!(
        pseudonymize_or_passthrough(Some("topsecret"), "1.2.3.4"),
        hash_pii("1.2.3.4", "topsecret")
    );
}

#[test]
fn legacy_mcp_session_query_both_sdk_conventions() {
    assert_eq!(
        legacy_mcp_session_query(Some("sessionId=abc")),
        Some("abc".to_string())
    );
    assert_eq!(
        legacy_mcp_session_query(Some("a=1&session_id=xyz")),
        Some("xyz".to_string())
    );
    assert_eq!(legacy_mcp_session_query(Some("session=nope")), None);
    assert_eq!(legacy_mcp_session_query(Some("sessionId=")), None);
    assert_eq!(legacy_mcp_session_query(Some("sessionId=%20%20")), None);
    assert_eq!(legacy_mcp_session_query(None), None);
}

#[test]
fn accept_gate_requires_both_media_types() {
    assert!(accept_lists_json_and_sse(Some(
        "application/json, text/event-stream"
    )));
    assert!(accept_lists_json_and_sse(Some(
        "Text/Event-Stream;q=0.9, Application/JSON"
    )));
    assert!(!accept_lists_json_and_sse(Some("application/json")));
    assert!(!accept_lists_json_and_sse(Some("text/event-stream")));
    assert!(!accept_lists_json_and_sse(Some("*/*")));
    assert!(!accept_lists_json_and_sse(None));
}

#[test]
fn nonempty_trims_and_rejects_blank() {
    assert_eq!(nonempty(Some("  x  ".into())), Some("x".to_string()));
    assert_eq!(nonempty(Some("   ".into())), None);
    assert_eq!(nonempty(None), None);
}

#[test]
fn parse_query_string_sanitizes_via_caller() {
    let map = parse_query_string("a=1&b=2&a=3").unwrap();
    assert_eq!(map.get("b"), Some(&Json::Text("2".to_string())));
    let a_values = match map.get("a") {
        Some(Json::Array(arr)) => arr.clone(),
        other => panic!("expected array, got {:?}", other),
    };
    assert_eq!(a_values.len(), 2);
}
