use cerberus_flex_gateway::config;
use cerberus_flex_gateway::config::Config;
use cerberus_flex_gateway::event::{CerberusEvent, SampleKey};
use cerberus_flex_gateway::pii_rules::PiiPatternConfig;
use cerberus_flex_gateway::policy::{LoadedPolicy, Notice, PolicyContext, SampleMode};
use cerberus_flex_gateway::request;
use cerberus_flex_gateway::request::{RequestArrival, RequestFacts, RequestSlot};
use cerberus_flex_gateway::response;
use cerberus_flex_gateway::sample_rate::SampleRate;
use cerberus_flex_gateway::sampler;
use cerberus_flex_gateway::sampling;
use cerberus_flex_gateway::sampling::{SampleDecision, SamplingKeys};

const NOW: u64 = 1_700_000_000_000_000;

fn rate(r: f64) -> SampleRate {
    SampleRate { bits: r.to_bits() }
}

fn base_config(r: f64) -> Config {
    Config {
        token: "tok".to_string(),
        secret_key: None,
        backend_url: None,
        client_ip_header: config::default_client_ip_header(),
        user_id_header: None,
        capture_headers: None,
        custom_sensitive_keys: None,
        custom_pii_patterns: None,
        capture_paths: None,
        exclude_paths: None,
        sample_rate: rate(r),
        sample_by: config::default_sample_by(),
        session_key_header: None,
        capture_request_body: config::default_capture_request_body(),
        capture_ai_content: config::default_capture_ai_content(),
        capture_response_body: false,
        capture_response_headers: config::default_capture_response_headers(),
        response_head_bytes: config::default_response_head_bytes(),
        response_tail_bytes: config::default_response_tail_bytes(),
        batch_size: config::default_batch_size(),
        flush_interval_ms: config::default_flush_interval_ms(),
        queue_capacity: config::default_queue_capacity(),
        log_level: config::default_log_level(),
    }
}

fn load(c: Config, seed: u64) -> LoadedPolicy {
    match PolicyContext::new(c, None, seed) {
        Ok(p) => p,
        Err(e) => panic!("{}", e.message()),
    }
}

fn no_keys() -> SamplingKeys {
    SamplingKeys {
        mcp_session_id: None,
        session_key_values: Vec::new(),
        principal: None,
        client_id: None,
        user_id: None,
        authorization: None,
        content_type: None,
        accept: None,
        mcp_protocol_version: None,
    }
}

fn session(id: &str) -> SamplingKeys {
    let mut k = no_keys();
    k.mcp_session_id = Some(id.to_string());
    k
}

fn arrival(path: &str, method: &str, keys: SamplingKeys) -> RequestArrival {
    RequestArrival {
        path: path.to_string(),
        method: method.to_string(),
        keys,
        now_epoch_micros: NOW,
    }
}

fn facts() -> RequestFacts {
    RequestFacts {
        scheme: "HTTPS".to_string(),
        headers: Vec::new(),
        user_agent: None,
        client_ip: None,
        source_address: None,
    }
}

fn decide(p: &mut LoadedPolicy, keys: &SamplingKeys, query: Option<&str>, now: u64) -> SampleDecision {
    sampling::sampling_decision(&p.context, &mut p.state.coin, keys, "/api", "GET", query, now)
}

// Whether the key is kept at rate one half, by the pure decision.
fn kept(domain: &str, key: &str, epoch: Option<u64>) -> bool {
    sampler::keyed_decision("tok", domain, key, epoch, rate(0.5)).1
}

fn expect_key(decision: SampleDecision, keep: bool, expected: SampleKey) {
    match decision {
        SampleDecision::Keep { kind, .. } => {
            assert!(keep);
            assert_eq!(kind, expected);
        }
        SampleDecision::Drop => assert!(!keep),
        other => panic!("unexpected decision {other:?}"),
    }
}

#[test]
fn header_session_id_decides_and_ships() {
    let mut p = load(base_config(0.5), 1);
    for i in 0..50 {
        let id = format!("s-{i}");
        let keep = kept("session", &id, None);
        match decide(&mut p, &session(&format!("  {id} ")), None, NOW) {
            SampleDecision::Keep { kind, session_id } => {
                assert!(keep);
                assert_eq!(kind, SampleKey::SessionRequest);
                assert_eq!(session_id, Some(id));
            }
            SampleDecision::Drop => assert!(!keep),
            other => panic!("unexpected decision {other:?}"),
        }
    }
}

#[test]
fn query_session_id_shares_the_session_domain() {
    let mut p = load(base_config(0.5), 1);
    for i in 0..50 {
        let id = format!("s-{i}");
        let by_header = decide(&mut p, &session(&id), None, NOW);
        let by_query = decide(&mut p, &no_keys(), Some(&format!("a=b&sessionId={id}")), NOW);
        assert_eq!(
            matches!(by_header, SampleDecision::Keep { .. }),
            matches!(by_query, SampleDecision::Keep { .. })
        );
    }
}

#[test]
fn first_named_header_with_a_value_decides() {
    let mut c = base_config(0.5);
    c.session_key_header =
        Some(vec![" Traceparent ".to_string(), "".to_string(), "X-Conv".to_string()]);
    let mut p = load(c, 1);
    assert_eq!(p.context.session_key_headers, vec!["traceparent", "x-conv"]);
    assert!(p.notices.iter().any(|n| matches!(n, Notice::SessionKeyHeaderBlank)));
    for i in 0..50 {
        let value = format!("c-{i}");
        let mut k = no_keys();
        k.session_key_values = vec![Some("   ".to_string()), Some(value.clone())];
        let keep = kept("header:x-conv", &value, None);
        match decide(&mut p, &k, None, NOW) {
            SampleDecision::Keep { kind, session_id } => {
                assert!(keep);
                assert_eq!(kind, SampleKey::SessionHeader);
                assert_eq!(session_id, None);
            }
            SampleDecision::Drop => assert!(!keep),
            other => panic!("unexpected decision {other:?}"),
        }
    }
}

#[test]
fn identity_ladder_prefers_principal_then_user_then_authorization() {
    let mut p = load(base_config(0.5), 1);
    let epoch = Some(NOW / 1_000_000 / sampler::EPOCH_SECONDS);
    for i in 0..30 {
        let id = format!("u-{i}");
        let mut k = no_keys();
        k.authorization = Some(id.clone());
        expect_key(
            decide(&mut p, &k, None, NOW),
            kept("authorization", &id, None),
            SampleKey::Authorization,
        );
        k.user_id = Some(id.clone());
        expect_key(decide(&mut p, &k, None, NOW), kept("user", &id, epoch), SampleKey::UserId);
        k.client_id = Some(id.clone());
        expect_key(
            decide(&mut p, &k, None, NOW),
            kept("principal", &id, epoch),
            SampleKey::Principal,
        );
        // A blank principal hides the client id.
        k.principal = Some(" ".to_string());
        expect_key(decide(&mut p, &k, None, NOW), kept("user", &id, epoch), SampleKey::UserId);
    }
}

#[test]
fn law_decisions_last_a_week_on_values() {
    let mut p = load(base_config(0.5), 1);
    let week = sampler::EPOCH_SECONDS * 1_000_000;
    let start = NOW / week * week;
    let mut changed = 0;
    for i in 0..200 {
        let mut k = no_keys();
        k.principal = Some(format!("p-{i}"));
        let first = matches!(decide(&mut p, &k, None, start), SampleDecision::Keep { .. });
        let last = matches!(decide(&mut p, &k, None, start + week - 1), SampleDecision::Keep { .. });
        assert_eq!(first, last);
        let next = matches!(decide(&mut p, &k, None, start + week), SampleDecision::Keep { .. });
        if next != first {
            changed += 1;
        }
    }
    assert!(changed > 0, "a new week must reshuffle some principals");
}

#[test]
fn law_workers_agree_on_values() {
    let mut a = load(base_config(0.3), 1);
    let mut b = load(base_config(0.3), 0xdead_beef);
    for i in 0..200 {
        let id = format!("s-{i}");
        let x = matches!(decide(&mut a, &session(&id), None, NOW), SampleDecision::Keep { .. });
        let y = matches!(decide(&mut b, &session(&id), None, NOW), SampleDecision::Keep { .. });
        assert_eq!(x, y);
    }
}

#[test]
fn law_a_session_is_kept_whole_on_values() {
    let mut p = load(base_config(0.5), 9);
    for i in 0..50 {
        let id = format!("s-{i}");
        let mut other = session(&id);
        other.authorization = Some("Bearer x".to_string());
        let x = matches!(decide(&mut p, &session(&id), None, NOW), SampleDecision::Keep { .. });
        let y = matches!(
            sampling::sampling_decision(
                &p.context,
                &mut p.state.coin,
                &other,
                "/v1/chat/completions",
                "POST",
                Some("q=1"),
                NOW + 86_400_000_000 * 30,
            ),
            SampleDecision::Keep { .. }
        );
        assert_eq!(x, y);
    }
}

#[test]
fn law_keyed_verdicts_ignore_the_coin_on_values() {
    let mut p = load(base_config(0.5), 9);
    let before = format!("{:?}", matches!(decide(&mut p, &session("a"), None, NOW), SampleDecision::Keep { .. }));
    // Keyed decisions leave the coin where it is: a fresh coin of the same seed
    // gives the same flips afterwards.
    let mut fresh = load(base_config(0.5), 9);
    for _ in 0..50 {
        let x = matches!(decide(&mut p, &no_keys(), None, NOW), SampleDecision::Keep { .. });
        let y = matches!(decide(&mut fresh, &no_keys(), None, NOW), SampleDecision::Keep { .. });
        assert_eq!(x, y);
    }
    let after = format!("{:?}", matches!(decide(&mut p, &session("a"), None, NOW), SampleDecision::Keep { .. }));
    assert_eq!(before, after);
}

#[test]
fn law_only_session_ids_ship_on_values() {
    let mut c = base_config(0.5);
    c.session_key_header = Some(vec!["x-conv".to_string()]);
    let mut p = load(c, 3);
    for i in 0..50 {
        let mut k = no_keys();
        k.session_key_values = vec![Some(format!("secret-{i}"))];
        k.authorization = Some("Bearer y".to_string());
        if let SampleDecision::Keep { session_id, .. } = decide(&mut p, &k, None, NOW) {
            assert_eq!(session_id, None);
        }
    }
}

#[test]
fn request_mode_flips_the_coin_for_every_request() {
    let mut c = base_config(0.5);
    c.sample_by = " Request ".to_string();
    let mut p = load(c, 11);
    assert_eq!(p.context.sample_mode, SampleMode::Request);
    let mut coin = sampler::Coin::new(rate(0.5), 11);
    for _ in 0..50 {
        let expected = coin.flip();
        expect_key(decide(&mut p, &session("same"), None, NOW), expected, SampleKey::Request);
    }
}

#[test]
fn llm_paths_are_sampled_by_request_unless_a_session_key_is_present() {
    let mut p = load(base_config(0.5), 11);
    let mut coin = sampler::Coin::new(rate(0.5), 11);
    let mut k = no_keys();
    k.principal = Some("p".to_string());
    for _ in 0..50 {
        let expected = coin.flip();
        let d = sampling::sampling_decision(
            &p.context,
            &mut p.state.coin,
            &k,
            "/v1/chat/completions",
            "POST",
            None,
            NOW,
        );
        expect_key(d, expected, SampleKey::Request);
    }
}

fn handshake_keys() -> SamplingKeys {
    let mut k = no_keys();
    k.content_type = Some("application/json".to_string());
    k.accept = Some("application/json, text/event-stream".to_string());
    k.principal = Some("p".to_string());
    k
}

#[test]
fn handshake_shape_defers_the_decision() {
    let mut p = load(base_config(0.5), 1);
    let keys = handshake_keys();
    let epoch = Some(NOW / 1_000_000 / sampler::EPOCH_SECONDS);
    let d = sampling::sampling_decision(&p.context, &mut p.state.coin, &keys, "/mcp", "POST", None, NOW);
    match d {
        SampleDecision::PendingHandshake { fallback_keep, fallback_kind } => {
            assert_eq!(fallback_keep, kept("principal", "p", epoch));
            assert_eq!(fallback_kind, SampleKey::Principal);
        }
        other => panic!("unexpected decision {other:?}"),
    }
    // A GET, a missing media type or a protocol version is no handshake.
    let d = sampling::sampling_decision(&p.context, &mut p.state.coin, &keys, "/mcp", "GET", None, NOW);
    assert!(!matches!(d, SampleDecision::PendingHandshake { .. }));
    let mut versioned = handshake_keys();
    versioned.mcp_protocol_version = Some("2025-11-25".to_string());
    let d = sampling::sampling_decision(&p.context, &mut p.state.coin, &versioned, "/mcp", "POST", None, NOW);
    assert!(!matches!(d, SampleDecision::PendingHandshake { .. }));
    let mut plain = handshake_keys();
    plain.accept = Some("application/json".to_string());
    let d = sampling::sampling_decision(&p.context, &mut p.state.coin, &plain, "/mcp", "POST", None, NOW);
    assert!(!matches!(d, SampleDecision::PendingHandshake { .. }));
}

fn handshake_event(p: &mut LoadedPolicy, minted: Option<&str>) -> Option<CerberusEvent> {
    let f = arrival("/mcp", "POST", handshake_keys());
    let a = request::admit_request(&p.context, &mut p.state.coin, &f).expect("speculative capture");
    let slot = request::build_request_slot(&p.context, a, f, facts(), None);
    assert!(matches!(slot, RequestSlot::PendingHandshake { .. }));
    response::resolve_slot(&p.context, slot, minted.map(|s| s.to_string())).map(|h| h.event)
}

#[test]
fn law_handshake_agrees_with_its_session_on_values() {
    let mut p = load(base_config(0.5), 1);
    for i in 0..50 {
        let id = format!("s-{i}");
        let later = matches!(decide(&mut p, &session(&id), None, NOW), SampleDecision::Keep { .. });
        match handshake_event(&mut p, Some(&format!(" {id}"))) {
            Some(e) => {
                assert!(later);
                assert_eq!(e.session_id, Some(id));
                assert_eq!(e.sample_key, Some(SampleKey::SessionResponse));
                assert_eq!(e.sample_rate, Some(rate(0.5)));
            }
            None => assert!(!later),
        }
    }
}

#[test]
fn law_handshake_falls_back_on_values() {
    let mut p = load(base_config(0.5), 1);
    let epoch = Some(NOW / 1_000_000 / sampler::EPOCH_SECONDS);
    let keep = kept("principal", "p", epoch);
    for minted in [None, Some("   ")] {
        match handshake_event(&mut p, minted) {
            Some(e) => {
                assert!(keep);
                assert_eq!(e.session_id, None);
                assert_eq!(e.sample_key, Some(SampleKey::Principal));
            }
            None => assert!(!keep),
        }
    }
}

#[test]
fn law_rate_bounds_on_values() {
    let mut all = load(base_config(1.0), 1);
    assert!(matches!(decide(&mut all, &session("s"), None, NOW), SampleDecision::CaptureAll));
    for zero in [0.0, -0.0] {
        let mut none = load(base_config(zero), 1);
        assert!(matches!(decide(&mut none, &session("s"), None, NOW), SampleDecision::Drop));
        assert!(none.notices.iter().all(|n| !matches!(n, Notice::SampleRateClamped { .. })));
    }
}

#[test]
fn law_sampling_bounds_admission_on_values() {
    let mut p = load(base_config(1.0), 1);
    let f = arrival("/api?x=1", "post", session("s"));
    let a = request::admit_request(&p.context, &mut p.state.coin, &f).expect("captured");
    assert_eq!(a.endpoint, "/api");
    assert_eq!(a.query_string, Some("x=1".to_string()));
    assert_eq!(a.method, "POST");
    match request::build_request_slot(&p.context, a, f, facts(), None) {
        RequestSlot::Capture { event, start_epoch_micros, ai_content_withheld } => {
            assert!(event.sample_rate.is_none());
            assert!(event.sample_key.is_none());
            assert!(event.session_id.is_none());
            assert!(event.scheme);
            assert_eq!(start_epoch_micros, NOW);
            assert!(!ai_content_withheld);
        }
        other => panic!("unexpected slot {other:?}"),
    }
    let mut none = load(base_config(0.0), 1);
    let f = arrival("/api", "GET", no_keys());
    assert!(request::admit_request(&none.context, &mut none.state.coin, &f).is_none());
}

#[test]
fn law_health_checks_are_skipped_on_values() {
    let mut c = base_config(1.0);
    c.exclude_paths = Some(vec!["/internal/**".to_string()]);
    let mut p = load(c, 1);
    for path in ["/health", "/health_check", "/ready", "/ready?x=1", "/internal/a"] {
        let f = arrival(path, "GET", no_keys());
        assert!(request::admit_request(&p.context, &mut p.state.coin, &f).is_none(), "{path}");
    }
    for path in ["/healthz", "/Health", "/health/", "/"] {
        let f = arrival(path, "GET", no_keys());
        assert!(request::admit_request(&p.context, &mut p.state.coin, &f).is_some(), "{path}");
    }
}

#[test]
fn law_capture_settings_do_not_decide_on_values() {
    let mut c = base_config(0.5);
    c.capture_headers = Some(vec!["x-none".to_string()]);
    c.capture_response_headers = Vec::new();
    c.capture_request_body = false;
    let mut narrow = load(c, 5);
    let mut wide = load(base_config(0.5), 5);
    for i in 0..50 {
        let f = arrival("/api", "GET", session(&format!("s-{i}")));
        let x = request::admit_request(&narrow.context, &mut narrow.state.coin, &f).is_some();
        let y = request::admit_request(&wide.context, &mut wide.state.coin, &f).is_some();
        assert_eq!(x, y);
        let f = arrival("/api", "GET", no_keys());
        let x = request::admit_request(&narrow.context, &mut narrow.state.coin, &f).is_some();
        let y = request::admit_request(&wide.context, &mut wide.state.coin, &f).is_some();
        assert_eq!(x, y);
    }
}

#[test]
fn methods_are_uppercased_beyond_ascii() {
    let mut p = load(base_config(1.0), 1);
    let f = arrival("/api", "stra\u{df}e", no_keys());
    let a = request::admit_request(&p.context, &mut p.state.coin, &f).expect("captured");
    assert_eq!(a.method, "STRASSE");
}

#[test]
fn sampling_key_material_is_the_secret_where_there_is_one() {
    let p = match PolicyContext::new(base_config(0.5), Some("s3cret".to_string()), 1) {
        Ok(p) => p,
        Err(e) => panic!("{}", e.message()),
    };
    for i in 0..50 {
        let id = format!("s-{i}");
        assert_eq!(
            p.context.keyed.keep("session", &id, None),
            sampler::keyed_decision("s3cret", "session", &id, None, rate(0.5)).1
        );
    }
}

#[test]
fn every_notice_has_its_cause() {
    let quiet = load(base_config(1.0), 1);
    assert!(quiet.notices.is_empty(), "{:?}", quiet.notices);

    let mut c = base_config(f64::NAN);
    c.response_head_bytes = 49_153;
    c.response_tail_bytes = 50_000;
    c.capture_headers = Some(vec![" ".to_string()]);
    c.custom_sensitive_keys = Some(vec!["member".to_string(), "  ".to_string()]);
    c.custom_pii_patterns = Some(vec![PiiPatternConfig {
        pattern: "x".to_string(),
        label: None,
        action: Some("hash".to_string()),
        scope: None,
    }]);
    let p = load(c, 1);
    assert_eq!(p.context.config.sample_rate, rate(1.0));
    assert_eq!(p.context.config.response_head_bytes, 49_152);
    assert_eq!(p.context.config.response_tail_bytes, 49_152);
    assert_eq!(p.notices.len(), 7, "{:?}", p.notices);
    match &p.notices[0] {
        Notice::SampleRateClamped { configured, effective } => {
            assert!(f64::from_bits(configured.bits).is_nan());
            assert_eq!(*effective, rate(1.0));
        }
        other => panic!("unexpected notice {other:?}"),
    }
    assert!(matches!(p.notices[1], Notice::HeadBytesClamped { configured: 49_153 }));
    assert!(matches!(p.notices[2], Notice::TailBytesClamped { configured: 50_000 }));
    assert!(matches!(p.notices[3], Notice::HeaderAllowlistBlank));
    assert!(matches!(p.notices[4], Notice::PiiWarning { .. }));
    assert!(matches!(p.notices[5], Notice::PiiActive { keys: 1, patterns: 1 }));
    assert!(matches!(p.notices[6], Notice::HashWithoutSecret));

    let mut c = base_config(0.5);
    c.sample_by = "USER".to_string();
    c.session_key_header = Some(vec!["".to_string()]);
    c.capture_response_headers = Vec::new();
    let p = load(c, 1);
    assert_eq!(p.notices.len(), 3, "{:?}", p.notices);
    match &p.notices[0] {
        Notice::UnknownSampleBy { value } => assert_eq!(value, "user"),
        other => panic!("unexpected notice {other:?}"),
    }
    assert!(matches!(p.notices[1], Notice::SessionKeyHeaderBlank));
    assert!(matches!(p.notices[2], Notice::SessionHeaderNotCaptured));
    assert_eq!(p.context.sample_mode, SampleMode::Session);
}

#[test]
fn load_errors_name_their_cause() {
    let mut c = base_config(1.0);
    c.capture_paths = Some(vec!["/ok".to_string()]);
    c.exclude_paths = Some(vec!["/a[".to_string()]);
    match PolicyContext::new(c, None, 1) {
        Ok(_) => panic!("a bad glob must be refused"),
        Err(e) => assert!(e.message().contains("/a["), "{}", e.message()),
    }
    let mut c = base_config(1.0);
    c.custom_pii_patterns = Some(vec![PiiPatternConfig {
        pattern: "([unclosed".to_string(),
        label: Some("ssn".to_string()),
        action: None,
        scope: None,
    }]);
    match PolicyContext::new(c, None, 1) {
        Ok(_) => panic!("a bad pattern must be refused"),
        Err(e) => {
            let m = e.message();
            assert!(
                m.starts_with("invalid custom PII scrubbing config: customPiiPatterns rule"),
                "{m}"
            );
            assert!(m.contains("ssn") && m.contains(": invalid pattern: "), "{m}");
        }
    }
}

#[test]
fn sample_keys_have_their_wire_names() {
    let names: Vec<&str> = [
        SampleKey::SessionRequest,
        SampleKey::SessionResponse,
        SampleKey::SessionHeader,
        SampleKey::Principal,
        SampleKey::UserId,
        SampleKey::Authorization,
        SampleKey::Request,
    ]
    .iter()
    .map(|k| k.as_str())
    .collect();
    assert_eq!(
        names,
        vec![
            "session_request",
            "session_response",
            "session_header",
            "principal",
            "user_id",
            "authorization",
            "request",
        ]
    );
}
