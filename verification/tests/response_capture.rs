use cerberus_flex_gateway::json::Json;
use cerberus_flex_gateway::pii_rules::{CompiledPiiRules, PiiPatternConfig};
use cerberus_flex_gateway::response_capture::{
    classify_content_type, finalize_response_body, sanitize_sse_text, AccumulatedBody,
    HeadTailAccumulator, ResponseContentKind,
};

fn j(s: &str) -> Json {
    Json::parse(s.as_bytes()).expect("valid JSON")
}

fn text_at<'a>(value: &'a Json, key: &str) -> &'a str {
    match value.get(key) {
        Some(Json::Text(s)) => s,
        other => panic!("expected text under {key}, got {other:?}"),
    }
}

fn no_rules() -> CompiledPiiRules {
    CompiledPiiRules::default()
}

fn accumulate(head_cap: usize, tail_cap: usize, chunks: &[&[u8]]) -> AccumulatedBody {
    let mut acc = HeadTailAccumulator::new(head_cap, tail_cap);
    for c in chunks {
        acc.push(c);
    }
    acc.finalize()
}

fn expect_truncated(outcome: AccumulatedBody) -> (u64, Vec<u8>, Vec<u8>) {
    match outcome {
        AccumulatedBody::Truncated { total, head, tail } => (total, head, tail),
        AccumulatedBody::Complete(_) => panic!("expected Truncated, got Complete"),
        AccumulatedBody::Empty => panic!("expected Truncated, got Empty"),
    }
}

#[test]
fn empty_input_finalizes_empty() {
    assert!(matches!(accumulate(4, 4, &[]), AccumulatedBody::Empty));
    assert!(matches!(
        accumulate(4, 4, &[b"", b"", b""]),
        AccumulatedBody::Empty
    ));
}

#[test]
fn exact_fit_boundary_is_complete() {
    let out = accumulate(4, 4, &[b"abcd", b"efgh"]);
    match out {
        AccumulatedBody::Complete(bytes) => assert_eq!(bytes, b"abcdefgh"),
        _ => panic!("expected Complete at the exact-fit boundary"),
    }
}

#[test]
fn one_over_budget_truncates_with_one_dropped() {
    let (total, head, tail) = expect_truncated(accumulate(4, 4, &[b"abcdefghi"]));
    assert_eq!(total, 9);
    assert_eq!(head, b"abcd");
    assert_eq!(tail, b"fghi");
    assert_eq!(total - (head.len() + tail.len()) as u64, 1);
}

#[test]
fn tail_ring_wraparound_many_small_pushes() {
    let data = b"0123456789abcdefghij";
    let mut acc = HeadTailAccumulator::new(3, 5);
    let mut i = 0;
    let mut step = 1;
    while i < data.len() {
        let end = (i + step).min(data.len());
        acc.push(&data[i..end]);
        i = end;
        step = step % 3 + 1;
    }
    let (total, head, tail) = expect_truncated(acc.finalize());
    assert_eq!(total, 20);
    assert_eq!(head, b"012");
    assert_eq!(tail, b"fghij");
}

#[test]
fn single_chunk_larger_than_both_caps() {
    let (total, head, tail) =
        expect_truncated(accumulate(2, 3, &[b"the quick brown fox"]));
    assert_eq!(total, 19);
    assert_eq!(head, b"th");
    assert_eq!(tail, b"fox");
}

#[test]
fn complete_reconstruction_across_chunk_sizes() {
    let data = b"abcdefghijklmno";
    for chunk_size in 1..=15 {
        let chunks: Vec<&[u8]> = data.chunks(chunk_size).collect();
        match accumulate(8, 8, &chunks) {
            AccumulatedBody::Complete(bytes) => assert_eq!(bytes, data),
            _ => panic!("chunk_size {chunk_size}: expected Complete"),
        }
    }
}

#[test]
fn zero_budgets_yield_empty_slices_marker() {
    let (total, head, tail) = expect_truncated(accumulate(0, 0, &[b"hello"]));
    assert_eq!(total, 5);
    assert!(head.is_empty());
    assert!(tail.is_empty());
}

#[test]
fn zero_tail_budget_keeps_head_only() {
    let (total, head, tail) = expect_truncated(accumulate(4, 0, &[b"abcdef"]));
    assert_eq!(total, 6);
    assert_eq!(head, b"abcd");
    assert!(tail.is_empty());
}

#[test]
fn zero_head_budget_keeps_tail_only() {
    let (total, head, tail) = expect_truncated(accumulate(0, 4, &[b"abcdef"]));
    assert_eq!(total, 6);
    assert!(head.is_empty());
    assert_eq!(tail, b"cdef");
}

#[test]
fn byte_counts_track_totals_not_retention() {
    let mut acc = HeadTailAccumulator::new(1, 1);
    for _ in 0..1000 {
        acc.push(b"xy");
    }
    let (total, head, tail) = expect_truncated(acc.finalize());
    assert_eq!(total, 2000);
    assert_eq!(head, b"x");
    assert_eq!(tail, b"y");
}

#[test]
fn classify_json_and_sse() {
    assert_eq!(
        classify_content_type(Some("application/json")),
        Some(ResponseContentKind::Json)
    );
    assert_eq!(
        classify_content_type(Some("Application/JSON; charset=utf-8")),
        Some(ResponseContentKind::Json)
    );
    assert_eq!(
        classify_content_type(Some("text/event-stream")),
        Some(ResponseContentKind::Sse)
    );
    assert_eq!(
        classify_content_type(Some("Text/Event-Stream; charset=utf-8")),
        Some(ResponseContentKind::Sse)
    );
    assert_eq!(classify_content_type(Some("application/vnd.api+json")), None);
    assert_eq!(classify_content_type(Some("text/html")), None);
    assert_eq!(classify_content_type(None), None);
    assert_eq!(classify_content_type(Some("")), None);
}

fn finalize_complete(
    bytes: &[u8],
    kind: ResponseContentKind,
    capture_ai: bool,
) -> Option<Json> {
    finalize_response_body(
        AccumulatedBody::Complete(bytes.to_vec()),
        kind,
        "/api/data",
        capture_ai,
        &no_rules(),
        None,
    )
}

#[test]
fn whole_json_object_sanitized() {
    let out = finalize_complete(
        br#"{"password":"hunter2","item":"widget"}"#,
        ResponseContentKind::Json,
        true,
    )
    .expect("captured");
    assert_eq!(out, j(r##"{"password":"[REDACTED]","item":"widget"}"##));
}

#[test]
fn whole_json_parse_failure_discarded() {
    assert!(finalize_complete(b"not json at all", ResponseContentKind::Json, true).is_none());
    assert!(finalize_complete(b"\"just a string\"", ResponseContentKind::Json, true).is_none());
    assert!(finalize_complete(b"42", ResponseContentKind::Json, true).is_none());
}

#[test]
fn whole_sse_ships_as_string() {
    let sse = b"event: message\ndata: {\"ok\":true}\n\n";
    let out = finalize_complete(sse, ResponseContentKind::Sse, true).expect("captured");
    assert_eq!(out, Json::Text(String::from_utf8_lossy(sse).into_owned()));
}

#[test]
fn ai_shaped_response_suppressed_when_ai_capture_off() {
    let bodies: [&[u8]; 4] = [
        br#"{"id":"chatcmpl-1","object":"chat.completion","choices":[{"message":{"role":"assistant","content":"hi"},"finish_reason":"stop"}]}"#,
        br#"{"type":"message","role":"assistant","content":[{"type":"text","text":"hi"}],"stop_reason":"end_turn"}"#,
        br#"{"candidates":[{"content":{"parts":[{"text":"hi"}]},"finishReason":"STOP"}]}"#,
        br#"{"model":"gpt-4o","messages":[{"role":"assistant","content":"hi"}]}"#,
    ];
    for body in bodies {
        assert!(
            finalize_complete(body, ResponseContentKind::Json, false).is_none(),
            "must be withheld: {}",
            String::from_utf8_lossy(body)
        );
        assert!(finalize_complete(body, ResponseContentKind::Json, true).is_some());
    }
    assert!(
        finalize_complete(br#"{"ok":true}"#, ResponseContentKind::Json, false).is_some()
    );
    assert!(finalize_complete(
        br#"{"jsonrpc":"2.0","id":1,"result":{"content":[{"type":"text","text":"hi"}]}}"#,
        ResponseContentKind::Json,
        false
    )
    .is_some());
}

#[test]
fn truncation_marker_fields_and_math() {
    let out = finalize_response_body(
        AccumulatedBody::Truncated {
            total: 100,
            head: b"HEAD".to_vec(),
            tail: b"TAIL!".to_vec(),
        },
        ResponseContentKind::Sse,
        "/api/data",
        true,
        &no_rules(),
        None,
    )
    .expect("marker");
    assert_eq!(
        out,
        j(r##"{ "body_truncated": true, "body_bytes_total": 100, "body_bytes_dropped": 91, "head": "HEAD", "tail": "TAIL!" }"##)
    );
}

#[test]
fn truncated_completion_withheld_when_ai_capture_off() {
    let head = br#"{"id":"chatcmpl-1","object":"chat.completion","choices":[{"message":{"role":"assistant","content":"Once upon a time"#.to_vec();
    let tail = br#" the end."},"finish_reason":"stop"}],"usage":{"total_tokens":9000}}"#.to_vec();
    let truncated = |capture_ai| {
        finalize_response_body(
            AccumulatedBody::Truncated { total: 60_000, head: head.clone(), tail: tail.clone() },
            ResponseContentKind::Json,
            "/internal/assistant/answer",
            capture_ai,
            &no_rules(),
            None,
        )
    };
    assert!(truncated(false).is_none(), "truncated completion must be withheld");
    assert!(truncated(true).is_some(), "ships when AI capture is on");

    let sse_head = b"data: {\"choices\":[{\"delta\":{\"content\":\"hi\"}}]}\n\n".to_vec();
    let out = finalize_response_body(
        AccumulatedBody::Truncated { total: 60_000, head: sse_head, tail: b"data: [DONE]\n\n".to_vec() },
        ResponseContentKind::Sse,
        "/internal/assistant/stream",
        false,
        &no_rules(),
        None,
    );
    assert!(out.is_none());

    let mcp_head = b"data: {\"jsonrpc\":\"2.0\",\"id\":1,\"result\":{\"content\":[{\"type\":\"text\",\"text\":\"".to_vec();
    let out = finalize_response_body(
        AccumulatedBody::Truncated { total: 60_000, head: mcp_head, tail: b"\"}]}}\n\n".to_vec() },
        ResponseContentKind::Sse,
        "/mcp",
        false,
        &no_rules(),
        None,
    );
    assert!(out.is_some());
    let out = finalize_response_body(
        AccumulatedBody::Truncated {
            total: 60_000,
            head: br#"{"orders":[{"id":1,"item":"widget"},"#.to_vec(),
            tail: br#"{"id":999,"item":"gadget"}]}"#.to_vec(),
        },
        ResponseContentKind::Json,
        "/api/orders",
        false,
        &no_rules(),
        None,
    );
    assert!(out.is_some());
}

#[test]
fn whole_sse_completion_withheld_when_ai_capture_off() {
    let sse = b"data: {\"choices\":[{\"delta\":{\"content\":\"hi\"}}]}\n\ndata: [DONE]\n\n";
    assert!(finalize_complete(sse, ResponseContentKind::Sse, false).is_none());
    assert!(finalize_complete(sse, ResponseContentKind::Sse, true).is_some());
    let ticks = b"data: {\"tick\":1}\n\ndata: {\"tick\":2}\n\n";
    assert!(finalize_complete(ticks, ResponseContentKind::Sse, false).is_some());
}

#[test]
fn ai_suppression_is_consistent_across_arms() {
    let completions: [&str; 5] = [
        r#"{"id":"chatcmpl-1","object":"chat.completion","model":"gpt-4o","choices":[{"index":0,"message":{"role":"assistant","content":"Once upon a time there was a very long story indeed."},"finish_reason":"stop"}],"usage":{"prompt_tokens":9,"completion_tokens":12}}"#,
        r#"{"id":"msg_1","type":"message","role":"assistant","model":"llama-3-70b","content":[{"type":"text","text":"Once upon a time there was a very long story indeed."}],"stop_reason":"end_turn","usage":{"input_tokens":9,"output_tokens":12}}"#,
        r#"{"candidates":[{"content":{"parts":[{"text":"Once upon a time there was a very long story indeed."}]},"finishReason":"STOP"}],"usageMetadata":{"promptTokenCount":9}}"#,
        r#"{"object":"list","data":[{"object":"embedding","index":0,"embedding":[0.1,0.2,0.3,0.4,0.5,0.6,0.7,0.8]}],"model":"text-embedding-3-small","usage":{"prompt_tokens":3}}"#,
        r#"[{"generated_text":"Once upon a time there was a very long story indeed."}]"#,
    ];
    let non_ai: [&str; 3] = [
        r#"{"orders":[{"id":1,"item":"widget","qty":2},{"id":2,"item":"gadget","qty":1}],"total":2}"#,
        r#"{"jsonrpc":"2.0","id":1,"result":{"content":[{"type":"text","text":"{\"choices\":[{\"message\":{\"content\":\"model text inside a tool result\"}}]}"}]}}"#,
        r#"[{"id":1,"name":"widget"},{"id":2,"name":"gadget"}]"#,
    ];
    let arms = |body: &str| -> [bool; 4] {
        let bytes = body.as_bytes().to_vec();
        let mid = bytes.len() / 2;
        let sse = format!("event: message\ndata: {body}\n\n").into_bytes();
        let sse_mid = sse.len() / 2;
        let run = |outcome, kind| {
            finalize_response_body(outcome, kind, "/internal/api", false, &no_rules(), None)
                .is_none()
        };
        [
            run(AccumulatedBody::Complete(bytes.clone()), ResponseContentKind::Json),
            run(
                AccumulatedBody::Truncated {
                    total: bytes.len() as u64 + 1,
                    head: bytes[..mid].to_vec(),
                    tail: bytes[mid..].to_vec(),
                },
                ResponseContentKind::Json,
            ),
            run(AccumulatedBody::Complete(sse.clone()), ResponseContentKind::Sse),
            run(
                AccumulatedBody::Truncated {
                    total: sse.len() as u64 + 1,
                    head: sse[..sse_mid].to_vec(),
                    tail: sse[sse_mid..].to_vec(),
                },
                ResponseContentKind::Sse,
            ),
        ]
    };
    for body in completions {
        assert_eq!(arms(body), [true; 4], "all arms must withhold: {body}");
    }
    for body in non_ai {
        assert_eq!(arms(body), [false; 4], "no arm may withhold: {body}");
    }
}

#[test]
fn empty_outcome_is_none() {
    assert!(finalize_response_body(
        AccumulatedBody::Empty,
        ResponseContentKind::Json,
        "/api/data",
        true,
        &no_rules(),
        None,
    )
    .is_none());
}

#[test]
fn sse_data_frame_key_sanitized_framing_preserved() {
    let sse = "event: message\r\ndata: {\"result\":{\"api_key\":\"sk-1\",\"name\":\"x\"}}\r\n\r\n";
    let out = sanitize_sse_text(sse, &no_rules(), None);
    assert_eq!(
        out,
        "event: message\r\ndata: {\"result\":{\"api_key\":\"[REDACTED]\",\"name\":\"x\"}}\r\n\r\n"
    );
}

#[test]
fn sse_partial_frame_at_cut_falls_back_to_value_rules() {
    let cut = "data: {\"note\":\"ssn 123-45-6789\",\"pass";
    let out = sanitize_sse_text(cut, &ssn_rule(), None);
    assert_eq!(out, "data: {\"note\":\"ssn [REDACTED]\",\"pass");
}

#[test]
fn sse_non_json_lines_untouched() {
    let sse = ": keep-alive\nid: 7\nretry: 3000\ndata: [DONE]\ndata: 42\n\n";
    assert_eq!(sanitize_sse_text(sse, &no_rules(), None), sse);
}

#[test]
fn sse_multi_frame_nested_secret_redacted() {
    let sse = "event: message\ndata: {\"jsonrpc\":\"2.0\",\"id\":1,\"result\":{\"structuredContent\":{\"user\":\"alice\",\"password\":\"hunter2\"}}}\n\nevent: message\ndata: {\"jsonrpc\":\"2.0\",\"id\":2,\"result\":{\"ok\":true}}\n\n";
    let out = sanitize_sse_text(sse, &no_rules(), None);
    assert!(!out.contains("hunter2"), "secret must not survive: {out}");
    assert!(out.contains("\"password\":\"[REDACTED]\""), "{out}");
    assert!(out.contains("\"user\":\"alice\""), "{out}");
    assert!(out.contains("\"ok\":true"), "{out}");
    assert_eq!(out.matches("event: message\n").count(), 2, "framing intact: {out}");
}

#[test]
fn sse_value_rules_still_apply_inside_frames_and_comments() {
    let sse = ": trace 078-05-1120\ndata: {\"text\":\"call 123-45-6789\"}\n\n";
    let out = sanitize_sse_text(sse, &ssn_rule(), None);
    assert_eq!(
        out,
        ": trace [REDACTED]\ndata: {\"text\":\"call [REDACTED]\"}\n\n"
    );
}

#[test]
fn truncated_sse_slices_sanitized_per_frame_json_slices_not() {
    let head = b"data: {\"token\":\"t-1\",\"a\":1}\n\ndata: {\"secret\":\"cut-he".to_vec();
    let tail = b"re\"}\n\ndata: {\"api_key\":\"k-9\"}\n\n".to_vec();
    let out = finalize_response_body(
        AccumulatedBody::Truncated { total: 500, head: head.clone(), tail: tail.clone() },
        ResponseContentKind::Sse,
        "/mcp",
        true,
        &no_rules(),
        None,
    )
    .expect("marker");
    let h = text_at(&out, "head");
    let t = text_at(&out, "tail");
    assert!(h.starts_with("data: {\"a\":1,\"token\":\"[REDACTED]\"}\n\n"), "{h}");
    assert!(h.ends_with("data: {\"secret\":\"cut-he"), "{h}");
    assert!(t.starts_with("re\"}\n\n"), "{t}");
    assert!(t.ends_with("data: {\"api_key\":\"[REDACTED]\"}\n\n"), "{t}");
    assert_eq!(out.get("body_bytes_total"), Some(&j("500")));
    let dropped = 500 - (head.len() + tail.len()) as u64;
    assert_eq!(out.get("body_bytes_dropped"), Some(&j(&dropped.to_string())));

    let out = finalize_response_body(
        AccumulatedBody::Truncated {
            total: 100,
            head: b"data: {\"token\":\"t-1\"}".to_vec(),
            tail: b"}".to_vec(),
        },
        ResponseContentKind::Json,
        "/api",
        true,
        &no_rules(),
        None,
    )
    .expect("marker");
    assert_eq!(text_at(&out, "head"), "data: {\"token\":\"t-1\"}");
}

#[test]
fn multibyte_utf8_split_at_head_and_tail_cuts() {
    let (_, head, tail) = expect_truncated(accumulate(
        3,
        3,
        &[b"ab\xC3", b"\xA9cdef\xC3", b"\xA9gh"],
    ));
    let head_str = String::from_utf8_lossy(&head).into_owned();
    let tail_str = String::from_utf8_lossy(&tail).into_owned();
    assert_eq!(head_str, "ab\u{FFFD}");
    assert_eq!(tail_str, "\u{FFFD}gh");
}

fn ssn_rule() -> CompiledPiiRules {
    CompiledPiiRules::compile(
        &[],
        &[PiiPatternConfig {
            pattern: r"\b\d{3}-\d{2}-\d{4}\b".to_string(),
            label: Some("ssn".to_string()),
            action: None,
            scope: None,
        }],
    )
    .expect("rule compiles")
    .0
}

#[test]
fn value_rules_scrub_raw_sse_text() {
    let sse = b"data: {\"note\":\"ssn 123-45-6789\"}\n\n";
    let out = finalize_response_body(
        AccumulatedBody::Complete(sse.to_vec()),
        ResponseContentKind::Sse,
        "/api/data",
        true,
        &ssn_rule(),
        None,
    )
    .expect("captured");
    assert_eq!(
        out,
        Json::Text("data: {\"note\":\"ssn [REDACTED]\"}\n\n".to_string())
    );
}

#[test]
fn value_rules_scrub_truncated_slices() {
    let out = finalize_response_body(
        AccumulatedBody::Truncated {
            total: 64,
            head: b"head 123-45-6789 text".to_vec(),
            tail: b"tail 078-05-1120 text".to_vec(),
        },
        ResponseContentKind::Sse,
        "/api/data",
        true,
        &ssn_rule(),
        None,
    )
    .expect("marker");
    assert_eq!(text_at(&out, "head"), "head [REDACTED] text");
    assert_eq!(text_at(&out, "tail"), "tail [REDACTED] text");
}
