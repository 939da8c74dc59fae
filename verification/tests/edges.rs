use cerberus_flex_gateway::ai_content;
use cerberus_flex_gateway::config;
use cerberus_flex_gateway::delivery;
use cerberus_flex_gateway::delivery::SecretSource;
use cerberus_flex_gateway::event::CerberusEvent;
use cerberus_flex_gateway::hash::{hash_pii, normalize_ip};
use cerberus_flex_gateway::headers;
use cerberus_flex_gateway::ip;
use cerberus_flex_gateway::json::Json;
use cerberus_flex_gateway::path_filter::PathFilter;
use cerberus_flex_gateway::pii_rules::{CompiledPiiRules, PiiPatternConfig, PiiRuleError};
use cerberus_flex_gateway::query;
use cerberus_flex_gateway::queue::EventQueue;
use cerberus_flex_gateway::response;
use cerberus_flex_gateway::response_capture;
use cerberus_flex_gateway::response_capture::{AccumulatedBody, HeadTailAccumulator, TailRing};
use cerberus_flex_gateway::sample_rate::SampleRate;
use cerberus_flex_gateway::sampler;
use cerberus_flex_gateway::sanitize;
use cerberus_flex_gateway::source_ip;
use cerberus_flex_gateway::text;
use cerberus_flex_gateway::timestamp;

fn j(s: &str) -> Json {
    Json::parse(s.as_bytes()).expect("valid JSON")
}

fn rate(r: f64) -> SampleRate {
    SampleRate { bits: r.to_bits() }
}

fn rules(keys: &[&str], patterns: &[(&str, &str, &str)]) -> CompiledPiiRules {
    let keys: Vec<String> = keys.iter().map(|k| k.to_string()).collect();
    let patterns: Vec<PiiPatternConfig> = patterns
        .iter()
        .map(|(p, action, scope)| PiiPatternConfig {
            pattern: p.to_string(),
            label: None,
            action: Some(action.to_string()),
            scope: Some(scope.to_string()),
        })
        .collect();
    match CompiledPiiRules::compile(&keys, &patterns) {
        Ok((r, _)) => r,
        Err(e) => panic!("{}", e.full_message()),
    }
}

fn event(endpoint: &str) -> CerberusEvent {
    CerberusEvent {
        remote_addr: None,
        endpoint: endpoint.to_string(),
        scheme: true,
        method: "GET".to_string(),
        timestamp: "2026-01-01T00:00:00.000000+00:00".to_string(),
        headers: None,
        query_params: None,
        body: None,
        user_agent: None,
        user_id: None,
        status_code: None,
        latency_ms: None,
        response_headers: None,
        response_body: None,
        session_id: None,
        sample_rate: None,
        sample_key: None,
    }
}

fn pair(name: &str, value: &str) -> (String, String) {
    (name.to_string(), value.to_string())
}

// ---------------------------------------------------------------------------
// JSON
// ---------------------------------------------------------------------------

#[test]
fn json_is_read_and_printed_in_key_order() {
    let v = j(r#" {"b": 1, "a": [null, true, 1.5, "x\n"], "b": -2} "#);
    assert_eq!(v.to_text(), r#"{"a":[null,true,1.5,"x\n"],"b":-2}"#);
    assert_eq!(Json::parse(b"{\"a\":"), None);
    assert_eq!(Json::parse(b""), None);
}

#[test]
fn json_values_go_through_serde_json_unchanged() {
    let value: serde_json::Value =
        serde_json::from_str(r#"{"k":[1,{"z":false}],"n":18446744073709551615}"#).unwrap();
    let own = Json::from_value(value.clone());
    assert_eq!(own.clone(), own);
    assert_eq!(own.to_value(), value);
}

#[test]
fn json_lookup_and_kinds() {
    let v = j(r#"{"k":"x","o":{}}"#);
    assert_eq!(v.get("k").and_then(|t| t.as_text()), Some(&"x".to_string()));
    assert!(v.has_key("o") && !v.has_key("q"));
    assert!(v.is_container() && j("[]").is_container() && !j("\"s\"").is_container());
    assert_eq!(j("1").get("k"), None);
}

// ---------------------------------------------------------------------------
// Pseudonyms and addresses
// ---------------------------------------------------------------------------

#[test]
fn hash_matches_the_published_hmac_sha256_vector() {
    assert_eq!(
        hash_pii("what do ya want for nothing?", "Jefe"),
        "5bdcc146bf60754e6a042426089575c75a003f089d2739839dec58b964ec3843"
    );
}

#[test]
fn law_same_address_same_pseudonym_on_values() {
    let forms = ["2001:db8:0:0:0:0:0:1", "2001:DB8::1", "2001:db8::1%eth0", "2001:0db8::0001"];
    for f in forms {
        assert_eq!(normalize_ip(f), "2001:db8::1", "{f}");
        assert_eq!(hash_pii(&normalize_ip(f), "k"), hash_pii("2001:db8::1", "k"));
    }
    assert_eq!(normalize_ip("203.0.113.7"), "203.0.113.7");
    assert_eq!(normalize_ip("01.2.3.4"), "01.2.3.4");
}

#[test]
fn zero_runs_compress_once_and_leftmost() {
    assert_eq!(ip::format_ipv6(&[0, 0, 1, 0, 0, 0, 0, 2]), "0:0:1::2");
    assert_eq!(ip::format_ipv6(&[1, 0, 0, 2, 0, 0, 3, 4]), "1::2:0:0:3:4");
    assert_eq!(ip::format_ipv6(&[1, 0, 2, 3, 4, 5, 6, 7]), "1:0:2:3:4:5:6:7");
    assert_eq!(ip::format_ipv6(&[0; 8]), "::");
    assert_eq!(ip::find_longest_zero_run(&[0, 0, 1, 0, 0, 0, 0, 2]), (3, 4));
    assert_eq!(ip::format_ipv4(&[10, 0, 255, 1]), "10.0.255.1");
}

#[test]
fn source_addresses_are_decoded_and_stripped() {
    assert_eq!(
        source_ip::resolve(None, Some(b"[::1]:54321".to_vec())),
        Some("::1".to_string())
    );
    assert_eq!(
        source_ip::resolve(Some(" 1.2.3.4:80 , 5.6.7.8".to_string()), None),
        Some("1.2.3.4".to_string())
    );
    assert_eq!(
        source_ip::resolve(Some(" , 5.6.7.8".to_string()), Some(b"9.9.9.9:1".to_vec())),
        Some("9.9.9.9".to_string())
    );
    assert_eq!(source_ip::resolve(None, Some(vec![0xff, 0x31])), None);
    assert_eq!(source_ip::resolve(None, None), None);
}

#[test]
fn blank_source_addresses_yield_none() {
    assert_eq!(source_ip::resolve(None, Some(Vec::new())), None);
    assert_eq!(source_ip::resolve(None, Some(b"   ".to_vec())), None);
    assert_eq!(source_ip::resolve(Some("  ".to_string()), Some(b"\t ".to_vec())), None);
    assert_eq!(
        source_ip::resolve(Some("".to_string()), Some(b" 9.9.9.9:1 ".to_vec())),
        Some("9.9.9.9".to_string())
    );
}

#[test]
fn law_ipv6_text_reads_back_on_values() {
    for g in [
        [0u16; 8],
        [0, 0, 0, 0, 0, 0, 0, 1],
        [1, 0, 0, 0, 0, 0, 0, 0],
        [0, 0, 0, 0, 0, 0xffff, 0x7f00, 1],
        [0x2001, 0xdb8, 0, 1, 0, 0, 0, 0xa],
        [1, 2, 3, 4, 5, 6, 7, 8],
    ] {
        let written: Vec<char> = ip::format_ipv6(&g).chars().collect();
        assert_eq!(ip::read_ip(&written), Some(ip::IpAddress::V6(g)));
    }
}

#[test]
fn law_ipv6_text_is_canonical_on_values() {
    assert_eq!(ip::format_ipv6(&[0, 0, 0, 0, 0, 0xffff, 0xc000, 0x201]), "::ffff:c000:201");
    assert_eq!(ip::format_ipv6(&[0x00a0, 0, 0xb, 0, 0xc, 0, 0xd, 0]), "a0:0:b:0:c:0:d:0");
    assert_eq!(ip::format_ipv6(&[0, 0, 1, 0, 0, 1, 0, 0]), "::1:0:0:1:0:0");
}

#[test]
fn law_ip_text_reads_back_on_values() {
    for o in [[0u8, 0, 0, 0], [10, 0, 255, 1], [192, 168, 1, 100]] {
        let written: Vec<char> = ip::format_ipv4(&o).chars().collect();
        assert_eq!(ip::read_ip(&written), Some(ip::IpAddress::V4(o)));
    }
}

#[test]
fn law_canonical_form_is_a_fixed_point_on_values() {
    for s in [" 2001:DB8::1%eth0", "::ffff:1.2.3.4", "10.0.0.1 ", "nonsense %x", "", "1.2.3"] {
        let once = normalize_ip(s);
        assert_eq!(normalize_ip(&once), once, "{s}");
    }
    assert_eq!(normalize_ip(" nonsense%x "), " nonsense%x ");
}

// ---------------------------------------------------------------------------
// Sanitizing
// ---------------------------------------------------------------------------

#[test]
fn law_builtin_keys_always_redact_on_values() {
    let r = rules(&["x"], &[("passw.*", "hash", "keys")]);
    let out = sanitize::sanitize_value_with(j(r#"{"PassWord":{"a":1}}"#), &r, Some("k"));
    assert_eq!(out, j(r#"{"PassWord":"[REDACTED]"}"#));
}

#[test]
fn law_custom_keys_only_add_on_values() {
    let fewer = rules(&["a"], &[]);
    let more = rules(&["a", "b"], &[]);
    let v = r#"{"a":1,"b":2,"token":3}"#;
    assert_eq!(
        sanitize::sanitize_value_with(j(v), &fewer, None),
        j(r#"{"a":"[REDACTED]","b":2,"token":"[REDACTED]"}"#)
    );
    assert_eq!(
        sanitize::sanitize_value_with(j(v), &more, None),
        j(r#"{"a":"[REDACTED]","b":"[REDACTED]","token":"[REDACTED]"}"#)
    );
}

#[test]
fn custom_keys_are_lowercased_beyond_ascii() {
    let r = rules(&[" \u{c9}TAT "], &[]);
    assert_eq!(r.extra_keys, vec!["\u{e9}tat".to_string()]);
    let out = sanitize::sanitize_value_with(j("{\"\u{c9}tat\":1}"), &r, None);
    assert_eq!(out, j("{\"\u{c9}tat\":\"[REDACTED]\"}"));
}

#[test]
fn law_shape_is_kept_on_values() {
    let r = rules(&["gone"], &[("x", "redact", "values")]);
    let out = sanitize::sanitize_value_with(j(r#"{"b":["x","y"],"gone":[1],"n":null}"#), &r, None);
    assert_eq!(out, j(r#"{"b":["[REDACTED]","y"],"gone":"[REDACTED]","n":null}"#));
}

#[test]
fn law_only_text_is_scrubbed_on_values() {
    let r = rules(&[], &[("1|true|null", "redact", "values")]);
    let v = r#"[1,true,null,11.5]"#;
    assert_eq!(sanitize::sanitize_value_with(j(v), &r, None), j(v));
}

#[test]
fn law_depth_is_capped_on_values() {
    let depth = sanitize::MAX_DEPTH as usize;
    let nest = |n: usize| format!("{}{}", "[".repeat(n), "]".repeat(n));
    // The outermost value stands at depth 0.
    assert_eq!(sanitize::sanitize_value(j(&nest(depth + 1))), j(&nest(depth + 1)));
    assert_eq!(
        sanitize::sanitize_value(j(&nest(depth + 2))),
        j(&format!("{}\"[REDACTED]\"{}", "[".repeat(depth + 1), "]".repeat(depth + 1)))
    );
}

#[test]
fn law_hash_without_secret_redacts_on_values() {
    let r = rules(&[], &[("ACC-\\d+", "hash", "both")]);
    let v = r#"{"ACC-1":"x","n":"see ACC-22."}"#;
    assert_eq!(
        sanitize::sanitize_value_with(j(v), &r, None),
        j(r#"{"ACC-1":"[REDACTED]","n":"see [REDACTED]."}"#)
    );
    let digest = hash_pii("ACC-22", "k");
    let out = sanitize::sanitize_value_with(j(v), &r, Some("k"));
    assert_eq!(out.get("n"), Some(&Json::Text(format!("see {digest}."))));
}

#[test]
fn law_builtin_sanitizing_is_idempotent_on_values() {
    let once = sanitize::sanitize_value(j(r#"{"a":[{"secret":1,"x":"y"}],"api_key":{}}"#));
    assert_eq!(sanitize::sanitize_value(once.clone()), once);
    assert_eq!(once, j(r#"{"a":[{"secret":"[REDACTED]","x":"y"}],"api_key":"[REDACTED]"}"#));
}

#[test]
fn rules_apply_in_their_order() {
    let r = rules(&[], &[("a+", "redact", "values"), ("RED", "redact", "values")]);
    assert_eq!(
        sanitize::scrub_text("xaay".to_string(), &r, None),
        "x[[REDACTED]ACTED]y"
    );
}

#[test]
fn rule_errors_name_the_rule() {
    let refused = |p: &str, action: Option<&str>, scope: Option<&str>| {
        CompiledPiiRules::compile(
            &[],
            &[PiiPatternConfig {
                pattern: p.to_string(),
                label: Some("mine".to_string()),
                action: action.map(|s| s.to_string()),
                scope: scope.map(|s| s.to_string()),
            }],
        )
        .err()
        .expect("refused")
    };
    assert!(matches!(refused(" ", None, None), PiiRuleError::EmptyPattern { .. }));
    assert!(matches!(refused("(", None, None), PiiRuleError::InvalidPattern { .. }));
    let e = refused("x", Some("Drop"), None);
    assert!(matches!(e, PiiRuleError::UnknownAction { .. }));
    assert!(e.message().contains("mine") && e.message().contains("\"Drop\""), "{}", e.message());
    let e = refused("x", None, Some("all"));
    assert!(matches!(e, PiiRuleError::UnknownScope { .. }));
    assert_eq!(e.message(), e.full_message());
}

// ---------------------------------------------------------------------------
// Headers, query strings and paths
// ---------------------------------------------------------------------------

#[test]
fn law_sensitive_headers_never_ship_raw_on_values() {
    let pairs = vec![pair("Authorization", "Bearer a"), pair("COOKIE", "sid=1"), pair("x", "y")];
    let out = headers::collect_headers(pairs.clone(), None, Some("k")).expect("headers");
    assert_eq!(
        out,
        vec![
            ("Authorization".to_string(), hash_pii("Bearer a", "k")),
            pair("Cookie", "[REDACTED]"),
            pair("X", "y"),
        ]
    );
    let out = headers::collect_headers(pairs, None, None).expect("headers");
    assert_eq!(out[0], pair("Authorization", "[REDACTED]"));
}

#[test]
fn law_only_listed_headers_are_captured_on_values() {
    let allow = vec!["x-a".to_string()];
    let pairs = vec![pair("X-A", "1"), pair("X-B", "2"), pair(":path", "/")];
    assert_eq!(
        headers::collect_headers(pairs, Some(&allow), None),
        Some(vec![pair("X-A", "1")])
    );
    assert_eq!(headers::collect_headers(vec![pair("X-B", "2")], Some(&allow), None), None);
    assert_eq!(headers::collect_headers(Vec::new(), None, None), None);
}

#[test]
fn law_repeated_headers_are_joined_on_values() {
    let pairs = vec![pair("b", "1"), pair("a", "2"), pair("B", "3"), pair("b", "4")];
    assert_eq!(
        headers::collect_headers(pairs, None, None),
        Some(vec![pair("A", "2"), pair("B", "1, 3, 4")])
    );
}

#[test]
fn query_strings_are_form_decoded() {
    assert_eq!(
        query::parse_query_string("b=%41+b&a=1&a=2&c"),
        Some(j(r#"{"a":["1","2"],"b":"A b","c":""}"#))
    );
    assert_eq!(query::parse_query_string(""), None);
    assert_eq!(query::parse_query_string("&&"), None);
    assert_eq!(
        query::legacy_mcp_session_query(Some("sessionId=%20&session_id=+s%31+")),
        Some("s1".to_string())
    );
}

#[test]
fn law_grouping_is_exact_on_values() {
    let pairs = vec![pair("k", "1"), pair("j", "2"), pair("k", "3")];
    assert_eq!(query::collect_parameters(pairs), Some(j(r#"{"j":"2","k":["1","3"]}"#)));
    assert_eq!(query::collect_parameters(Vec::new()), None);
}

#[test]
fn law_exclusion_wins_on_values() {
    let f = PathFilter::compile(&["/api/**".to_string()], &["/api/private/*".to_string()])
        .expect("globs");
    assert!(f.should_capture("/api/orders/1"));
    assert!(!f.should_capture("/api/private/x"));
    // A star stays within one segment.
    assert!(f.should_capture("/api/private/x/y"));
    assert!(!f.should_capture("/other"));
}

#[test]
fn law_empty_lists_filter_nothing_on_values() {
    let f = PathFilter::compile(&[], &[]).expect("globs");
    assert!(f.should_capture("/") && f.should_capture(""));
}

#[test]
fn bad_globs_are_refused() {
    let e = PathFilter::compile(&["/a{b".to_string()], &[]).err().expect("refused");
    assert!(e.message.contains("/a{b"), "{}", e.message);
}

// ---------------------------------------------------------------------------
// Rates
// ---------------------------------------------------------------------------

#[test]
fn law_threshold_grows_with_rate_on_values() {
    let rates = [0.0, 5e-324, 1e-300, 0.1, 0.25, 0.3, 0.5, 0.999_999, 1.0];
    for w in rates.windows(2) {
        let (a, b) = (rate(w[0]).to_threshold(), rate(w[1]).to_threshold());
        assert!(a <= b, "{w:?}");
    }
}

#[test]
fn law_threshold_is_exact_on_values() {
    for r in [0.1, 0.3, 0.7, 1e-9, 0.999_999_999] {
        let scaled = r * 18_446_744_073_709_551_616.0;
        assert_eq!(sampler::threshold_for_rate(rate(r)), scaled as u64, "{r}");
    }
}

#[test]
fn law_clamp_gives_a_fraction_on_values() {
    for (r, expected) in [
        (7.5, 1.0),
        (-3.0, 0.0),
        (f64::INFINITY, 1.0),
        (f64::NEG_INFINITY, 0.0),
        (0.25, 0.25),
        (1.0, 1.0),
        (0.0, 0.0),
        (f64::NAN, 1.0),
    ] {
        assert_eq!(rate(r).clamped(), rate(expected), "{r}");
    }
}

#[test]
fn draws_compare_as_fractions() {
    let unit = 1u64 << 53;
    assert!(rate(0.5).is_above_draw(unit / 2 - 1));
    assert!(!rate(0.5).is_above_draw(unit / 2));
    assert!(rate(5e-324).is_above_draw(0));
    assert!(!rate(5e-324).is_above_draw(1));
}

#[test]
fn splitmix_matches_its_published_sequence() {
    let mut state: u64 = 1_234_567;
    assert_eq!(sampler::splitmix64(&mut state), 6_457_827_717_110_365_317);
    assert_eq!(sampler::splitmix64(&mut state), 3_203_168_211_198_807_973);
}

#[test]
fn law_sampled_sets_nest_on_values() {
    for i in 0..200 {
        let key = format!("k-{i}");
        let low = sampler::keyed_decision("m", "session", &key, None, rate(0.2)).1;
        let high = sampler::keyed_decision("m", "session", &key, None, rate(0.6)).1;
        assert!(!low || high);
    }
}

#[test]
fn law_rate_bounds_decide_on_values() {
    assert!(sampler::keyed_decision("m", "session", "k", None, rate(1.0)).1);
    assert!(!sampler::keyed_decision("m", "session", "k", None, rate(0.0)).1);
    let mut never = sampler::Coin::new(rate(0.0), 1);
    let mut always = sampler::Coin::new(rate(1.0), 1);
    for _ in 0..100 {
        assert!(!never.flip() && always.flip());
    }
}

#[test]
fn law_decisions_are_separate_on_values() {
    let h = |d: &str, k: &str, e: Option<u64>| sampler::keyed_decision("m", d, k, e, rate(0.5)).0;
    let all = [
        h("session", "a", None),
        h("user", "a", None),
        h("session", "b", None),
        h("session", "a", Some(1)),
        h("session", "a", Some(11)),
        h("session", "a1", Some(1)),
    ];
    for (i, x) in all.iter().enumerate() {
        for y in &all[i + 1..] {
            assert_ne!(x, y);
        }
    }
}

// ---------------------------------------------------------------------------
// Response bodies
// ---------------------------------------------------------------------------

#[test]
fn law_chunking_is_immaterial_on_values() {
    let body: Vec<u8> = (0u8..100).collect();
    let run = |size: usize| {
        let mut a = HeadTailAccumulator::new(10, 7);
        for chunk in body.chunks(size) {
            a.push(chunk);
            a.push(&[]);
        }
        match a.finalize() {
            AccumulatedBody::Truncated { total, head, tail } => (total, head, tail),
            _ => panic!("expected a truncated body"),
        }
    };
    for size in [1, 3, 9, 10, 11, 100] {
        let (total, head, tail) = run(size);
        assert_eq!(total, 100);
        assert_eq!(head, (0u8..10).collect::<Vec<u8>>());
        assert_eq!(tail, (93u8..100).collect::<Vec<u8>>());
    }
}

#[test]
fn law_truncation_is_exact_on_values() {
    let mut a = HeadTailAccumulator::new(2, 2);
    a.push(b"abcd");
    match a.finalize() {
        AccumulatedBody::Complete(bytes) => assert_eq!(bytes, b"abcd"),
        _ => panic!("expected a complete body"),
    }
    let mut a = HeadTailAccumulator::new(2, 2);
    a.push(b"abcde");
    match a.finalize() {
        AccumulatedBody::Truncated { total, head, tail } => {
            assert_eq!((total, head, tail), (5, b"ab".to_vec(), b"de".to_vec()));
        }
        _ => panic!("expected a truncated body"),
    }
}

#[test]
fn law_memory_is_bounded_on_values() {
    let mut a = HeadTailAccumulator::new(8, 8);
    for _ in 0..1000 {
        a.push(b"0123456789");
    }
    match a.finalize() {
        AccumulatedBody::Truncated { total, head, tail } => {
            assert_eq!((total, head.len(), tail.len()), (10_000, 8, 8));
        }
        _ => panic!("expected a truncated body"),
    }
}

#[test]
fn law_ring_is_bounded_on_values() {
    let mut ring = TailRing::new(3);
    for bytes in [&b"ab"[..], b"", b"cd", b"", b"efghi", b"j"] {
        ring.push(bytes);
    }
    assert_eq!(ring.into_vec(), b"hij");
    let mut none = TailRing::new(0);
    none.push(b"abc");
    assert!(none.into_vec().is_empty());
}

#[test]
fn encoding_marker_names_the_encoding() {
    assert_eq!(
        response_capture::skipped_encoding_marker("br"),
        j(r#"{"body_skipped_encoding":"br"}"#)
    );
}

#[test]
fn sse_terminators_survive_sanitizing() {
    let r = rules(&[], &[("\\s+", "redact", "values")]);
    let s = "data: {\"a\": 1}\r\n: note\n\ndata: {\"token\":\"x\"}\r\nlast";
    let out = response_capture::sanitize_sse_text(s, &r, None);
    let ends = |t: &str| t.chars().filter(|c| *c == '\n').count();
    assert_eq!(ends(&out), ends(s));
    assert!(!out.contains("\"x\""), "{out}");
}

// ---------------------------------------------------------------------------
// AI content
// ---------------------------------------------------------------------------

#[test]
fn law_jsonrpc_body_is_never_ai_on_values() {
    let body = j(
        r#"{"jsonrpc":"2.0","model":"m","messages":[{"role":"user","content":"x"}],"choices":[]}"#,
    );
    assert!(!ai_content::should_suppress_body("/v1/chat/completions", &body));
    assert!(!ai_content::should_suppress_response("/v1/chat/completions", &body));
}

#[test]
fn law_response_check_covers_prompts_on_values() {
    let body = j(r#"{"model":"m","messages":[{"role":"user","content":"x"}]}"#);
    assert!(ai_content::should_suppress_body("/x", &body));
    assert!(ai_content::should_suppress_response("/x", &body));
}

#[test]
fn law_jsonrpc_text_is_never_ai_on_values() {
    let s = "data: {\"jsonrpc\":\"2.0\",\"result\":{\"choices\":[{\"delta\":{}}]}}\n\n";
    assert!(!ai_content::looks_like_ai_response_text(s));
    assert!(!ai_content::should_suppress_response_text("/mcp", s));
}

#[test]
fn law_windows_are_bounded_on_values() {
    let s = "\u{20ac}".repeat(ai_content::AI_SNIFF_WINDOW as usize);
    let head: String = ai_content::head_window(&s).iter().collect();
    let tail: String = ai_content::tail_window(&s).iter().collect();
    assert!(s.starts_with(&head) && s.ends_with(&tail));
    assert!(head.len() < ai_content::AI_SNIFF_WINDOW as usize + 4);
    assert!(tail.len() <= ai_content::AI_SNIFF_WINDOW as usize);
}

// ---------------------------------------------------------------------------
// Time, queue, configuration and delivery
// ---------------------------------------------------------------------------

#[test]
fn timestamps_out_of_range_read_as_the_epoch() {
    assert_eq!(timestamp::format_epoch(i64::MAX, 0), "1970-01-01T00:00:00.000000+00:00");
    assert_eq!(timestamp::format_epoch(-1, 500_000), "1969-12-31T23:59:59.500000+00:00");
    assert_eq!(
        timestamp::format_epoch_micros(1_709_210_096_000_001),
        "2024-02-29T12:34:56.000001+00:00"
    );
}

#[test]
fn elapsed_time_saturates() {
    assert_eq!(timestamp::elapsed_ms(5_000, 1_999_999), 1_994);
    assert_eq!(timestamp::elapsed_ms(2, 1), 0);
    assert_eq!(timestamp::sampler_seed(0), 0x9E37_79B9_7F4A_7C15);
}

#[test]
fn law_queue_is_bounded_on_values() {
    let mut q = EventQueue::new(2);
    assert_eq!(q.push(event("/1")), Ok(()));
    assert_eq!(q.push(event("/2")), Ok(()));
    assert_eq!(q.push(event("/3")), Err(()));
    assert_eq!(q.dropped_count(), 1);
    let batch = response::take_batch(&mut q, 1).expect("a batch");
    assert_eq!(batch.dropped, 1);
    assert_eq!(batch.events.len(), 1);
    assert_eq!(batch.events[0].endpoint, "/1");
    let batch = response::take_batch(&mut q, 10).expect("a batch");
    assert_eq!((batch.dropped, batch.events[0].endpoint.as_str()), (0, "/2"));
    assert!(response::take_batch(&mut q, 10).is_none());
}

#[test]
fn drops_alone_make_a_batch() {
    let mut q = EventQueue::new(0);
    assert_eq!(q.push(event("/1")), Err(()));
    let batch = response::take_batch(&mut q, 10).expect("a batch");
    assert_eq!((batch.dropped, batch.events.len()), (1, 0));
}

#[test]
fn law_values_do_not_survive_on_values() {
    let values = vec!["tok".to_string(), "ok".to_string()];
    let out = config::redact_values("tok ok \"tok\" tokok", &values);
    assert_eq!(out, "[REDACTED] [REDACTED] [REDACTED] [REDACTED][REDACTED]");
}

#[test]
fn law_parse_error_hides_secrets_on_values() {
    let bytes = br#"{"secretKey":["s",1],"token":""}"#;
    assert_eq!(config::sensitive_config_values(bytes), vec![r#"["s",1]"#.to_string()]);
    let err = serde_json::from_str::<bool>(r#""x""#).unwrap_err();
    let json = br#"{"token":"x"}"#;
    let message = config::redact_parse_error(json, &err);
    assert!(!message.contains('x') || message.contains("expected"), "{message}");
    assert!(message.contains("string [REDACTED]"), "{message}");
}

#[test]
fn secret_sources_in_their_order() {
    let some = |s: &str| Some(s.to_string());
    match delivery::secret_source(&some("k"), &some("https://b")) {
        SecretSource::Configured(k) => assert_eq!(k, "k"),
        other => panic!("unexpected source {other:?}"),
    }
    match delivery::secret_source(&some(""), &some("http://b")) {
        SecretSource::Backend { url, insecure } => assert!(url == "http://b" && insecure),
        other => panic!("unexpected source {other:?}"),
    }
    match delivery::secret_source(&None, &some("https://b")) {
        SecretSource::Backend { insecure, .. } => assert!(!insecure),
        other => panic!("unexpected source {other:?}"),
    }
    assert!(matches!(delivery::secret_source(&None, &some("")), SecretSource::Absent));
    assert_eq!(delivery::fetched_secret(200, Some(some("s"))), some("s"));
    assert_eq!(delivery::fetched_secret(200, Some(None)), None);
    assert_eq!(delivery::fetched_secret(200, None), None);
    assert_eq!(delivery::fetched_secret(201, Some(some("s"))), None);
}

#[test]
fn tokens_are_trimmed() {
    assert_eq!(delivery::normalize_token(" t\u{a0}\n"), ("t".to_string(), true));
    assert_eq!(delivery::normalize_token("t t"), ("t t".to_string(), false));
}

#[test]
fn refusals_quote_status_and_body() {
    assert_eq!(delivery::batch_refusal(200, b"x"), None);
    assert_eq!(delivery::batch_refusal(299, b""), None);
    assert_eq!(
        delivery::batch_refusal(503, &[0xff, b'a']),
        Some("ingestService returned status 503: \u{fffd}a".to_string())
    );
}

#[test]
fn text_helpers_on_edge_inputs() {
    assert_eq!(text::replace_all("ab", "", "-"), "-a-b-");
    assert_eq!(text::replace_all("aaa", "aa", "b"), "ba");
    assert_eq!(text::trimmed("\u{3000} x\u{85}"), "x");
    assert_eq!(text::decimal_text(0), "0");
    assert_eq!(text::decimal_text(u64::MAX), "18446744073709551615");
    assert_eq!(text::lowered("\u{c9}A"), "\u{c9}a");
    assert!(text::is_before("a", "ab") && text::is_before("Z", "a") && !text::is_before("b", "b"));
    // Order is by code point, as the order of UTF-8 bytes is.
    assert!(text::is_before("\u{ffff}", "\u{10000}"));
}
