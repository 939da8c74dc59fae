use cerberus_flex_gateway::config;
use cerberus_flex_gateway::config::Config;
use cerberus_flex_gateway::event::CerberusEvent;
use cerberus_flex_gateway::json::Json;
use cerberus_flex_gateway::pii_rules::PiiPatternConfig;
use cerberus_flex_gateway::policy::{LoadedPolicy, PolicyContext};
use cerberus_flex_gateway::request;
use cerberus_flex_gateway::request::{RequestArrival, RequestFacts};
use cerberus_flex_gateway::response;
use cerberus_flex_gateway::response::{BodyPlan, ResponseFacts};
use cerberus_flex_gateway::sample_rate::SampleRate;
use cerberus_flex_gateway::sampling::SamplingKeys;
use serde_json::Value;

const INGEST_AUTHORITY: &str = "ingest.cerberus.test";

// Arrival of the request and end of the response, in microseconds.
const ARRIVAL: u64 = 1_700_000_000_250_000;
const END: u64 = 1_700_000_000_291_500;

// Bodies reach the policy in chunks of this many bytes.
const CHUNK: usize = 3;

fn config() -> String {
    format!(r#"{{"ingestService":"http://{INGEST_AUTHORITY}","token":"test-api-key"}}"#)
}

struct TestRequest {
    path: String,
    method: String,
    headers: Vec<(String, String)>,
    source: Option<Vec<u8>>,
    body: Option<Vec<u8>>,
}

impl TestRequest {
    fn new(method: &str) -> TestRequest {
        TestRequest {
            path: "/".to_string(),
            method: method.to_string(),
            headers: Vec::new(),
            source: None,
            body: None,
        }
    }

    fn get() -> TestRequest {
        TestRequest::new("GET")
    }

    fn post() -> TestRequest {
        TestRequest::new("POST")
    }

    fn with_header(mut self, name: &str, value: &str) -> TestRequest {
        self.headers.push((name.to_string(), value.to_string()));
        self
    }

    fn with_path(mut self, path: &str) -> TestRequest {
        self.path = path.to_string();
        self
    }

    fn with_source(mut self, source: &str) -> TestRequest {
        self.source = Some(source.as_bytes().to_vec());
        self
    }

    fn with_body(mut self, body: &str) -> TestRequest {
        self.body = Some(body.as_bytes().to_vec());
        self
    }
}

#[derive(Clone)]
struct TestResponse {
    status: u32,
    headers: Vec<(String, String)>,
    body: Vec<u8>,
}

impl TestResponse {
    fn new(status: u32) -> TestResponse {
        TestResponse { status, headers: Vec::new(), body: Vec::new() }
    }

    fn with_header(mut self, name: &str, value: &str) -> TestResponse {
        self.headers.push((name.to_string(), value.to_string()));
        self
    }

    fn with_body<B: Into<Vec<u8>>>(mut self, body: B) -> TestResponse {
        self.body = body.into();
        self
    }

    fn status_code(&self) -> u32 {
        self.status
    }

    fn body(&self) -> &[u8] {
        &self.body
    }
}

fn find(headers: &[(String, String)], name: &str) -> Option<String> {
    headers.iter().find(|(n, _)| n.eq_ignore_ascii_case(name)).map(|(_, v)| v.clone())
}

fn strings(value: &Value) -> Option<Vec<String>> {
    value.as_array().map(|a| a.iter().map(|v| v.as_str().expect("string").to_string()).collect())
}

fn text(value: &Value) -> Option<String> {
    value.as_str().map(|s| s.to_string())
}

fn number(value: &Value, default: u32) -> u32 {
    value.as_u64().map(|n| n as u32).unwrap_or(default)
}

fn read_config(json: &str) -> Config {
    let v: Value = serde_json::from_str(json).expect("configuration is JSON");
    Config {
        token: text(&v["token"]).expect("token"),
        secret_key: text(&v["secretKey"]),
        backend_url: text(&v["backendUrl"]),
        client_ip_header: text(&v["clientIpHeader"])
            .unwrap_or_else(config::default_client_ip_header),
        user_id_header: text(&v["userIdHeader"]),
        capture_headers: strings(&v["captureHeaders"]),
        custom_sensitive_keys: strings(&v["customSensitiveKeys"]),
        custom_pii_patterns: v["customPiiPatterns"].as_array().map(|rules| {
            rules
                .iter()
                .map(|r| PiiPatternConfig {
                    pattern: text(&r["pattern"]).expect("pattern"),
                    label: text(&r["label"]),
                    action: text(&r["action"]),
                    scope: text(&r["scope"]),
                })
                .collect()
        }),
        capture_paths: strings(&v["capturePaths"]),
        exclude_paths: strings(&v["excludePaths"]),
        sample_rate: v["sampleRate"]
            .as_f64()
            .map(|r| SampleRate { bits: r.to_bits() })
            .unwrap_or_else(config::default_sample_rate),
        sample_by: text(&v["sampleBy"]).unwrap_or_else(config::default_sample_by),
        session_key_header: strings(&v["sessionKeyHeader"]),
        capture_request_body: v["captureRequestBody"]
            .as_bool()
            .unwrap_or_else(config::default_capture_request_body),
        capture_ai_content: v["captureAiContent"]
            .as_bool()
            .unwrap_or_else(config::default_capture_ai_content),
        capture_response_body: v["captureResponseBody"].as_bool().unwrap_or(false),
        capture_response_headers: strings(&v["captureResponseHeaders"])
            .unwrap_or_else(config::default_capture_response_headers),
        response_head_bytes: number(
            &v["responseHeadBytes"],
            config::default_response_head_bytes(),
        ),
        response_tail_bytes: number(
            &v["responseTailBytes"],
            config::default_response_tail_bytes(),
        ),
        batch_size: number(&v["batchSize"], config::default_batch_size()),
        flush_interval_ms: number(&v["flushIntervalMs"], config::default_flush_interval_ms()),
        queue_capacity: number(&v["queueCapacity"], config::default_queue_capacity()),
        log_level: text(&v["logLevel"]).unwrap_or_else(config::default_log_level),
    }
}

fn request_arrival(ctx: &PolicyContext, req: &TestRequest) -> RequestArrival {
    let h = &req.headers;
    RequestArrival {
        path: req.path.clone(),
        method: req.method.clone(),
        keys: SamplingKeys {
            mcp_session_id: find(h, "mcp-session-id"),
            session_key_values: ctx.session_key_headers.iter().map(|n| find(h, n)).collect(),
            principal: None,
            client_id: None,
            user_id: ctx.config.user_id_header.as_ref().and_then(|n| find(h, n)),
            authorization: find(h, "authorization"),
            content_type: find(h, "content-type"),
            accept: find(h, "accept"),
            mcp_protocol_version: find(h, "mcp-protocol-version"),
        },
        now_epoch_micros: ARRIVAL,
    }
}

fn request_facts(ctx: &PolicyContext, req: &TestRequest) -> RequestFacts {
    let mut headers = vec![
        (":path".to_string(), req.path.clone()),
        (":method".to_string(), req.method.clone()),
    ];
    headers.extend(req.headers.iter().cloned());
    let h = &req.headers;
    RequestFacts {
        scheme: find(h, ":scheme").unwrap_or_default(),
        user_agent: find(h, "user-agent"),
        client_ip: find(h, &ctx.config.client_ip_header),
        source_address: req.source.clone(),
        headers,
    }
}

fn response_facts(res: &TestResponse) -> ResponseFacts {
    ResponseFacts {
        status: res.status,
        mcp_session_id: find(&res.headers, "mcp-session-id"),
        content_type: find(&res.headers, "content-type"),
        content_encoding: find(&res.headers, "content-encoding"),
        contains_body: !res.body.is_empty(),
        headers: res.headers.clone(),
    }
}

fn put(out: &mut serde_json::Map<String, Value>, key: &str, value: Option<Value>) {
    if let Some(v) = value {
        out.insert(key.to_string(), v);
    }
}

fn pairs_value(pairs: Vec<(String, String)>) -> Value {
    Value::Object(pairs.into_iter().map(|(k, v)| (k, Value::String(v))).collect())
}

fn json_value(value: Json) -> Value {
    value.to_value()
}

fn event_value(event: CerberusEvent) -> Value {
    let mut out = serde_json::Map::new();
    put(&mut out, "remote_addr", event.remote_addr.map(Value::String));
    put(&mut out, "endpoint", Some(Value::String(event.endpoint)));
    put(&mut out, "scheme", Some(Value::Bool(event.scheme)));
    put(&mut out, "method", Some(Value::String(event.method)));
    put(&mut out, "timestamp", Some(Value::String(event.timestamp)));
    put(&mut out, "headers", event.headers.map(pairs_value));
    put(&mut out, "query_params", event.query_params.map(json_value));
    put(&mut out, "body", event.body.map(json_value));
    put(&mut out, "user_agent", event.user_agent.map(Value::String));
    put(&mut out, "user_id", event.user_id.map(Value::String));
    put(&mut out, "status_code", event.status_code.map(Value::from));
    put(&mut out, "latency_ms", event.latency_ms.map(Value::from));
    put(&mut out, "response_headers", event.response_headers.map(pairs_value));
    put(&mut out, "response_body", event.response_body.map(json_value));
    put(&mut out, "session_id", event.session_id.map(Value::String));
    put(
        &mut out,
        "sample_rate",
        event.sample_rate.map(|r| Value::from(f64::from_bits(r.bits))),
    );
    put(
        &mut out,
        "sample_key",
        event.sample_key.map(|k| Value::String(k.as_str().to_string())),
    );
    Value::Object(out)
}

fn load(config: &str) -> Option<LoadedPolicy> {
    let parsed = read_config(config);
    let secret = parsed.secret_key.clone();
    PolicyContext::new(parsed, secret, 7).ok()
}

fn capture_events(req: TestRequest) -> Option<Vec<Value>> {
    capture_events_with_config(req, config())
}

fn capture_events_with_config(req: TestRequest, config: String) -> Option<Vec<Value>> {
    run_pipeline(req, config, TestResponse::new(200)).0
}

// Sends `req` through the policy with `upstream` as the response, chunk by
// chunk, then takes a batch. Returns the events of the batch and the response
// as the client sees it.
fn run_pipeline(
    req: TestRequest,
    config: String,
    upstream: TestResponse,
) -> (Option<Vec<Value>>, TestResponse) {
    let mut policy = match load(&config) {
        Some(p) => p,
        None => return (None, upstream),
    };
    let ctx = &policy.context;
    assert_eq!(ctx.config.token, "test-api-key", "batches carry the API key");

    let arrival = request_arrival(ctx, &req);
    let admission = match request::admit_request(ctx, &mut policy.state.coin, &arrival) {
        Some(a) => a,
        None => return (None, upstream),
    };
    let body = if request::wants_request_body(ctx, &admission, &arrival) {
        req.body.clone()
    } else {
        None
    };
    let facts = request_facts(ctx, &req);
    let slot = request::build_request_slot(ctx, admission, arrival, facts, body);

    let facts = response_facts(&upstream);
    let held = match response::resolve_slot(ctx, slot, facts.mcp_session_id.clone()) {
        Some(h) => h,
        None => return (None, upstream),
    };
    let endpoint = held.event.endpoint.clone();
    let mut client = TestResponse::new(upstream.status);
    client.headers = upstream.headers.clone();
    let captured =
        match response::plan_response_body(ctx, &facts, &endpoint, held.ai_content_withheld) {
            BodyPlan::Nothing => {
                client.body = upstream.body.clone();
                None
            }
            BodyPlan::Marker(marker) => {
                client.body = upstream.body.clone();
                Some(marker)
            }
            BodyPlan::Observe(kind) => {
                let mut accumulator = response::new_accumulator(ctx);
                for chunk in upstream.body.chunks(CHUNK) {
                    accumulator.push(chunk);
                    client.body.extend_from_slice(chunk);
                }
                response::capture_response_body(ctx, accumulator, kind, &endpoint)
            }
        };
    let event = response::complete_event(ctx, held, facts, captured, END);
    policy.state.queue.push(event).expect("the queue has room");
    let batch = response::take_batch(&mut policy.state.queue, ctx.config.batch_size);
    let events = batch.map(|b| b.events.into_iter().map(event_value).collect());
    (events, client)
}

#[test]
fn post_request_produces_sanitized_event() {
    let req = TestRequest::post()
        .with_header(":scheme", "https")
        .with_path("/api/orders?token=secret123&page=2")
        .with_header("authorization", "Bearer abc")
        .with_header("cookie", "sid=1")
        .with_header("user-agent", "testagent")
        .with_header("x-custom", "keep")
        .with_header("x-multi", "a")
        .with_header("x-multi", "b")
        .with_header("content-type", "application/json")
        .with_body(r#"{"password":"hunter2","name":"alice"}"#);

    let events = capture_events(req).expect("expected a flushed batch");
    assert_eq!(events.len(), 1, "one request gives one event");
    let e = &events[0];

    assert_eq!(e["method"], "POST");
    assert_eq!(e["scheme"], true, "scheme maps to https == true");
    assert_eq!(e["endpoint"], "/api/orders", "query stripped from endpoint");

    assert_eq!(e["query_params"]["token"], "[REDACTED]");
    assert_eq!(e["query_params"]["page"], "2");

    let headers = e["headers"].as_object().expect("headers object");
    assert_eq!(headers["Authorization"], "[REDACTED]", "no secret gives redact");
    assert_eq!(headers["Cookie"], "[REDACTED]");
    assert_eq!(headers["X-Custom"], "keep");
    assert_eq!(headers["X-Multi"], "a, b", "multi-value collapse");
    assert_eq!(headers["User-Agent"], "testagent");
    assert_eq!(headers["Content-Type"], "application/json");
    assert!(
        headers.keys().all(|k| !k.contains(':')),
        "no pseudo-headers should leak into the event: {:?}",
        headers.keys().collect::<Vec<_>>()
    );
    assert!(headers.get("Scheme").is_none() && headers.get("Path").is_none());

    assert_eq!(e["body"]["password"], "[REDACTED]");
    assert_eq!(e["body"]["name"], "alice");

    assert_eq!(e["user_agent"], "testagent");

    let ts = e["timestamp"].as_str().expect("timestamp string");
    assert!(ts.ends_with("+00:00"), "expected UTC offset suffix: {ts}");
}

fn allowlist_config() -> String {
    format!(
        r#"{{"ingestService":"http://{INGEST_AUTHORITY}","token":"test-api-key","captureHeaders":["content-type","X-CUSTOM","Authorization","cookie"]}}"#
    )
}

#[test]
fn header_allowlist_filters_headers_map() {
    let req = TestRequest::post()
        .with_header(":scheme", "https")
        .with_path("/api/orders")
        .with_header("authorization", "Bearer abc")
        .with_header("cookie", "sid=1")
        .with_header("proxy-authorization", "Basic xyz")
        .with_header("user-agent", "testagent")
        .with_header("x-custom", "keep")
        .with_header("x-other", "drop")
        .with_header("content-type", "application/json")
        .with_body(r#"{"name":"alice"}"#);

    let events = capture_events_with_config(req, allowlist_config())
        .expect("expected a flushed batch");
    assert_eq!(events.len(), 1);
    let e = &events[0];

    let headers = e["headers"].as_object().expect("headers object");
    let mut keys: Vec<&str> = headers.keys().map(String::as_str).collect();
    keys.sort_unstable();
    assert_eq!(
        keys,
        vec!["Authorization", "Content-Type", "Cookie", "X-Custom"],
        "headers map must contain exactly the allowlisted headers"
    );

    assert_eq!(e["headers"]["Authorization"], "[REDACTED]", "no secret gives redact");
    assert_eq!(e["headers"]["Cookie"], "[REDACTED]", "allowlisted-but-sensitive stays redacted");
    assert_eq!(e["headers"]["X-Custom"], "keep");
    assert_eq!(e["headers"]["Content-Type"], "application/json");

    assert_eq!(e["user_agent"], "testagent");
}

#[test]
fn header_allowlist_empty_array_captures_all() {
    let config = format!(
        r#"{{"ingestService":"http://{INGEST_AUTHORITY}","token":"test-api-key","captureHeaders":[]}}"#
    );
    let req = TestRequest::get()
        .with_header(":scheme", "https")
        .with_path("/api/orders")
        .with_header("user-agent", "testagent")
        .with_header("x-custom", "keep")
        .with_header("x-other", "also-kept");

    let events = capture_events_with_config(req, config).expect("expected a flushed batch");
    let headers = events[0]["headers"].as_object().expect("headers object");
    assert_eq!(headers["X-Custom"], "keep");
    assert_eq!(headers["X-Other"], "also-kept");
    assert_eq!(headers["User-Agent"], "testagent");
}

#[test]
fn header_allowlist_blank_entries_capture_all() {
    let config = format!(
        r#"{{"ingestService":"http://{INGEST_AUTHORITY}","token":"test-api-key","captureHeaders":["  ", ""]}}"#
    );
    let req = TestRequest::get()
        .with_header(":scheme", "https")
        .with_path("/api/orders")
        .with_header("x-custom", "keep")
        .with_header("x-other", "also-kept");

    let events = capture_events_with_config(req, config).expect("expected a flushed batch");
    let headers = events[0]["headers"].as_object().expect("headers object");
    assert_eq!(headers["X-Custom"], "keep");
    assert_eq!(headers["X-Other"], "also-kept");
}

#[test]
fn header_allowlist_no_survivors_omits_headers_field() {
    let config = format!(
        r#"{{"ingestService":"http://{INGEST_AUTHORITY}","token":"test-api-key","captureHeaders":["x-never-sent"]}}"#
    );
    let req = TestRequest::get()
        .with_header(":scheme", "https")
        .with_path("/api/orders")
        .with_header("user-agent", "testagent")
        .with_header("x-custom", "drop");

    let events = capture_events_with_config(req, config).expect("expected a flushed batch");
    let e = &events[0];
    assert!(
        e.get("headers").is_none(),
        "headers field should be absent when the allowlist admits nothing: {e}"
    );
}

#[test]
fn custom_pii_rules_scrub_params_and_body() {
    let config = format!(
        r#"{{"ingestService":"http://{INGEST_AUTHORITY}","token":"test-api-key","secretKey":"test-hmac-secret","customSensitiveKeys":["member_number"],"customPiiPatterns":[{{"pattern":"\\b\\d{{3}}-\\d{{2}}-\\d{{4}}\\b","label":"ssn"}},{{"pattern":"^ACC-\\d+$","label":"account","action":"hash"}}]}}"#
    );
    let req = TestRequest::post()
        .with_header(":scheme", "https")
        .with_path("/api/claims?member_number=M-1&status=open")
        .with_header("content-type", "application/json")
        .with_body(
            r#"{"note":"ssn 123-45-6789 on file","account":"ACC-42","password":"hunter2","ok":"keep"}"#,
        );

    let events = capture_events_with_config(req, config).expect("expected a flushed batch");
    assert_eq!(events.len(), 1);
    let e = &events[0];

    assert_eq!(e["query_params"]["member_number"], "[REDACTED]");
    assert_eq!(e["query_params"]["status"], "open");

    assert_eq!(e["body"]["note"], "ssn [REDACTED] on file");
    let account = e["body"]["account"].as_str().expect("account is a string");
    assert_eq!(account.len(), 64, "hash action gives SHA-256 hex digest");
    assert_ne!(account, "ACC-42");
    assert_eq!(e["body"]["password"], "[REDACTED]");
    assert_eq!(e["body"]["ok"], "keep");
}

#[test]
fn invalid_custom_pii_pattern_fails_policy_load() {
    let config = format!(
        r#"{{"ingestService":"http://{INGEST_AUTHORITY}","token":"test-api-key","customPiiPatterns":[{{"pattern":"([unclosed"}}]}}"#
    );
    assert!(
        capture_events_with_config(minimal_post(), config).is_none(),
        "policy with an invalid scrub pattern must not capture events"
    );
}

#[test]
fn health_endpoint_is_skipped() {
    let req = TestRequest::get()
        .with_header(":scheme", "https")
        .with_path("/health");

    assert!(
        capture_events(req).is_none(),
        "health-check requests must not generate events"
    );
}

fn minimal_post() -> TestRequest {
    TestRequest::post()
        .with_header(":scheme", "https")
        .with_path("/api/orders")
}

fn config_with_sample_rate(rate: &str) -> String {
    format!(
        r#"{{"ingestService":"http://{INGEST_AUTHORITY}","token":"test-api-key","sampleRate":{rate}}}"#
    )
}

#[test]
fn sample_rate_zero_suppresses_all_events() {
    assert!(
        capture_events_with_config(minimal_post(), config_with_sample_rate("0")).is_none(),
        "sampleRate 0 must capture nothing"
    );
}

#[test]
fn sample_rate_one_captures() {
    let events = capture_events_with_config(minimal_post(), config_with_sample_rate("1"))
        .expect("sampleRate 1 must capture every request");
    assert_eq!(events.len(), 1, "one request gives one event");
    let e = &events[0];
    assert_eq!(e["method"], "POST");
    assert_eq!(e["endpoint"], "/api/orders");
}

#[test]
fn sample_rate_out_of_range_clamps() {
    let events = capture_events_with_config(minimal_post(), config_with_sample_rate("7.5"))
        .expect("sampleRate 7.5 clamps to 1 and captures");
    assert_eq!(events.len(), 1);

    assert!(
        capture_events_with_config(minimal_post(), config_with_sample_rate("-3")).is_none(),
        "sampleRate -3 clamps to 0 and captures nothing"
    );
}

#[test]
fn ai_prompt_body_captured_by_default() {
    let req = TestRequest::post()
        .with_header(":scheme", "https")
        .with_path("/v1/chat/completions")
        .with_header("user-agent", "openai-python")
        .with_header("content-type", "application/json")
        .with_body(
            r#"{"model":"gpt-4o","api_key":"sk-123","messages":[{"role":"user","content":"hi"}]}"#,
        );

    let events = capture_events(req).expect("expected a flushed batch");
    assert_eq!(events.len(), 1);
    let e = &events[0];

    assert_eq!(e["endpoint"], "/v1/chat/completions");
    assert_eq!(e["method"], "POST");
    let headers = e["headers"].as_object().expect("headers object");
    assert_eq!(headers["User-Agent"], "openai-python");
    assert_eq!(e["body"]["model"], "gpt-4o");
    assert_eq!(e["body"]["messages"][0]["content"], "hi");
    assert_eq!(e["body"]["api_key"], "[REDACTED]");
}

#[test]
fn ai_prompt_body_withheld_when_disabled() {
    let req = TestRequest::post()
        .with_header(":scheme", "https")
        .with_path("/v1/chat/completions")
        .with_header("user-agent", "openai-python")
        .with_header("content-type", "application/json")
        .with_body(r#"{"model":"gpt-4o","messages":[{"role":"user","content":"hi"}]}"#);

    let config = format!(
        r#"{{"ingestService":"http://{INGEST_AUTHORITY}","token":"test-api-key","captureAiContent":false}}"#
    );
    let events = capture_events_with_config(req, config).expect("expected a flushed batch");
    assert_eq!(events.len(), 1);
    let e = &events[0];

    assert_eq!(e["endpoint"], "/v1/chat/completions");
    assert_eq!(e["method"], "POST");
    let headers = e["headers"].as_object().expect("headers object");
    assert_eq!(headers["User-Agent"], "openai-python");
    assert!(
        e.get("body").is_none(),
        "AI prompt body must be withheld when captureAiContent is disabled: {e}"
    );
}

#[test]
fn ai_prompt_shaped_body_on_custom_path_withheld_when_disabled() {
    let req = TestRequest::post()
        .with_header(":scheme", "https")
        .with_path("/internal/ai/ask")
        .with_header("content-type", "application/json")
        .with_body(r#"{"model":"gpt-4o","messages":[{"role":"user","content":"hi"}]}"#);

    let config = format!(
        r#"{{"ingestService":"http://{INGEST_AUTHORITY}","token":"test-api-key","captureAiContent":false}}"#
    );
    let events = capture_events_with_config(req, config).expect("expected a flushed batch");
    assert_eq!(events.len(), 1);
    let e = &events[0];

    assert_eq!(e["endpoint"], "/internal/ai/ask");
    assert!(
        e.get("body").is_none(),
        "prompt-shaped body must be withheld even off well-known LLM paths: {e}"
    );
}

fn response_capture_config() -> String {
    format!(
        r#"{{"ingestService":"http://{INGEST_AUTHORITY}","token":"test-api-key","captureResponseBody":true}}"#
    )
}

fn assert_pass_through(client: &TestResponse, expected: &TestResponse) {
    assert_eq!(
        client.status_code(),
        expected.status_code(),
        "client-visible status must be unmodified"
    );
    assert_eq!(
        client.body(),
        expected.body(),
        "client-visible body must be byte-identical - the tap must never mutate"
    );
}

#[test]
fn response_whole_json_captured_and_sanitized() {
    let upstream = TestResponse::new(200)
        .with_header("content-type", "application/json")
        .with_body(r#"{"password":"hunter2","item":"widget"}"#);
    let (events, client) =
        run_pipeline(minimal_post(), response_capture_config(), upstream.clone());
    assert_pass_through(&client, &upstream);

    let events = events.expect("expected a flushed batch");
    let e = &events[0];
    assert_eq!(e["response_body"]["password"], "[REDACTED]");
    assert_eq!(e["response_body"]["item"], "widget");
    assert_eq!(e["status_code"], 200);
    assert!(
        e["latency_ms"].is_u64(),
        "latency_ms must be present: {e}"
    );
}

#[test]
fn response_capture_off_by_default_status_latency_still_ship() {
    let upstream = TestResponse::new(200)
        .with_header("content-type", "application/json")
        .with_body(r#"{"item":"widget"}"#);
    let (events, client) = run_pipeline(minimal_post(), config(), upstream.clone());
    assert_pass_through(&client, &upstream);

    let events = events.expect("expected a flushed batch");
    let e = &events[0];
    assert!(
        e.get("response_body").is_none(),
        "default config must not capture response bodies: {e}"
    );
    assert_eq!(e["status_code"], 200);
    assert!(e["latency_ms"].is_u64());
}

#[test]
fn response_non_json_non_sse_content_type_skipped() {
    let upstream = TestResponse::new(200)
        .with_header("content-type", "text/html")
        .with_body("<html><body>hi</body></html>");
    let (events, client) =
        run_pipeline(minimal_post(), response_capture_config(), upstream.clone());
    assert_pass_through(&client, &upstream);

    let e = &events.expect("expected a flushed batch")[0];
    assert!(
        e.get("response_body").is_none(),
        "text/html must not be captured: {e}"
    );
    assert_eq!(e["status_code"], 200);
}

#[test]
fn response_compressed_body_ships_encoding_marker() {
    let upstream = TestResponse::new(200)
        .with_header("content-type", "application/json")
        .with_header("content-encoding", "gzip")
        .with_body(b"\x1f\x8b compressed bytes".to_vec());
    let (events, client) =
        run_pipeline(minimal_post(), response_capture_config(), upstream.clone());
    assert_pass_through(&client, &upstream);

    let e = &events.expect("expected a flushed batch")[0];
    assert_eq!(
        e["response_body"],
        serde_json::from_str::<Value>(r#"{"body_skipped_encoding": "gzip"}"#).unwrap(),
        "compressed bodies ship exactly the encoding marker: {e}"
    );
}

#[test]
fn response_sse_within_budget_ships_raw_string() {
    let sse = "event: message\ndata: {\"jsonrpc\":\"2.0\",\"result\":{\"ok\":true}}\n\n";
    let upstream = TestResponse::new(200)
        .with_header("content-type", "text/event-stream")
        .with_body(sse);
    let (events, client) =
        run_pipeline(minimal_post(), response_capture_config(), upstream.clone());
    assert_pass_through(&client, &upstream);

    let e = &events.expect("expected a flushed batch")[0];
    assert_eq!(
        e["response_body"], sse,
        "in-budget SSE ships whole as a raw string: {e}"
    );
}

#[test]
fn response_sse_truncated_with_tiny_budgets() {
    let sse = "data: 0123456789abcdefghijklmnopqrstuvwxyz\n\n";
    let config = format!(
        r#"{{"ingestService":"http://{INGEST_AUTHORITY}","token":"test-api-key","captureResponseBody":true,"responseHeadBytes":10,"responseTailBytes":8}}"#
    );
    let upstream = TestResponse::new(200)
        .with_header("content-type", "text/event-stream")
        .with_body(sse);
    let (events, client) = run_pipeline(minimal_post(), config, upstream.clone());
    assert_pass_through(&client, &upstream);

    let e = &events.expect("expected a flushed batch")[0];
    let marker = e["response_body"]
        .as_object()
        .expect("truncation marker object");
    assert_eq!(marker["body_truncated"], true);
    assert_eq!(marker["body_bytes_total"], 44);
    assert_eq!(marker["body_bytes_dropped"], 44 - 10 - 8);
    assert_eq!(marker["head"], &sse[..10], "head is the exact prefix");
    assert_eq!(marker["tail"], &sse[44 - 8..], "tail is the exact suffix");
}

#[test]
fn response_oversized_json_document_truncates_too() {
    let big = format!(r#"{{"data":"{}"}}"#, "x".repeat(100));
    let config = format!(
        r#"{{"ingestService":"http://{INGEST_AUTHORITY}","token":"test-api-key","captureResponseBody":true,"responseHeadBytes":16,"responseTailBytes":8}}"#
    );
    let upstream = TestResponse::new(200)
        .with_header("content-type", "application/json")
        .with_body(big.clone());
    let (events, client) = run_pipeline(minimal_post(), config, upstream.clone());
    assert_pass_through(&client, &upstream);

    let e = &events.expect("expected a flushed batch")[0];
    let marker = e["response_body"]
        .as_object()
        .expect("truncation marker object");
    assert_eq!(marker["body_truncated"], true);
    assert_eq!(marker["body_bytes_total"], big.len() as u64);
    assert_eq!(
        marker["head"],
        &big[..16],
        "head is a parseable prefix for content sniffing"
    );
}

#[test]
fn response_llm_path_withheld_when_ai_capture_disabled() {
    let config = format!(
        r#"{{"ingestService":"http://{INGEST_AUTHORITY}","token":"test-api-key","captureResponseBody":true,"captureAiContent":false}}"#
    );
    let req = TestRequest::post()
        .with_header(":scheme", "https")
        .with_path("/v1/chat/completions")
        .with_header("content-type", "application/json")
        .with_body(r#"{"model":"gpt-4o","messages":[{"role":"user","content":"hi"}]}"#);
    let upstream = TestResponse::new(200)
        .with_header("content-type", "application/json")
        .with_body(r#"{"choices":[{"message":{"role":"assistant","content":"hello"}}]}"#);
    let (events, client) = run_pipeline(req, config, upstream.clone());
    assert_pass_through(&client, &upstream);

    let e = &events.expect("expected a flushed batch")[0];
    assert!(
        e.get("response_body").is_none(),
        "LLM response body must be withheld when captureAiContent is off: {e}"
    );
    assert_eq!(e["status_code"], 200);
    assert!(e["latency_ms"].is_u64());
}

#[test]
fn response_sse_on_custom_path_withheld_when_request_was_ai_suppressed() {
    let config = format!(
        r#"{{"ingestService":"http://{INGEST_AUTHORITY}","token":"test-api-key","captureResponseBody":true,"captureAiContent":false}}"#
    );
    let req = TestRequest::post()
        .with_header(":scheme", "https")
        .with_path("/internal/ai/ask")
        .with_header("content-type", "application/json")
        .with_body(r#"{"model":"gpt-4o","messages":[{"role":"user","content":"hi"}]}"#);
    let sse = "data: {\"choices\":[{\"delta\":{\"content\":\"hello there\"}}]}\n\ndata: [DONE]\n\n";
    let upstream = TestResponse::new(200)
        .with_header("content-type", "text/event-stream")
        .with_body(sse);
    let (events, client) = run_pipeline(req, config, upstream.clone());
    assert_pass_through(&client, &upstream);

    let e = &events.expect("expected a flushed batch")[0];
    assert!(e.get("body").is_none(), "prompt body must be withheld: {e}");
    assert!(
        e.get("response_body").is_none(),
        "SSE model output on a custom path must be withheld when the request was AI-suppressed: {e}"
    );
    assert_eq!(e["status_code"], 200);
}

#[test]
fn response_completion_json_on_custom_path_withheld_without_prompt_shaped_request() {
    let config = format!(
        r#"{{"ingestService":"http://{INGEST_AUTHORITY}","token":"test-api-key","captureResponseBody":true,"captureAiContent":false}}"#
    );
    let req = TestRequest::post()
        .with_header(":scheme", "https")
        .with_path("/internal/assistant/answer")
        .with_header("content-type", "application/json")
        .with_body(r#"{"question":"what is our refund policy?","ticket":"T-1"}"#);
    let upstream = TestResponse::new(200)
        .with_header("content-type", "application/json")
        .with_body(r#"{"id":"chatcmpl-1","object":"chat.completion","model":"gpt-4o","choices":[{"index":0,"message":{"role":"assistant","content":"Refunds within 30 days."},"finish_reason":"stop"}],"usage":{"prompt_tokens":9,"completion_tokens":6}}"#);
    let (events, client) = run_pipeline(req, config, upstream.clone());
    assert_pass_through(&client, &upstream);

    let e = &events.expect("expected a flushed batch")[0];
    assert_eq!(e["body"]["ticket"], "T-1");
    assert!(
        e.get("response_body").is_none(),
        "completion-shaped JSON on a custom path must be withheld: {e}"
    );
    assert_eq!(e["status_code"], 200);
}

#[test]
fn response_sse_on_custom_path_captured_when_ai_capture_on() {
    let req = TestRequest::post()
        .with_header(":scheme", "https")
        .with_path("/internal/ai/ask")
        .with_header("content-type", "application/json")
        .with_body(r#"{"model":"gpt-4o","messages":[{"role":"user","content":"hi"}]}"#);
    let sse = "data: {\"choices\":[{\"delta\":{\"content\":\"hello there\"}}]}\n\n";
    let upstream = TestResponse::new(200)
        .with_header("content-type", "text/event-stream")
        .with_body(sse);
    let (events, client) = run_pipeline(req, response_capture_config(), upstream.clone());
    assert_pass_through(&client, &upstream);

    let e = &events.expect("expected a flushed batch")[0];
    assert!(e["body"].is_object(), "prompt body captured by default: {e}");
    assert!(
        e["response_body"].is_string(),
        "SSE output captured when captureAiContent is on: {e}"
    );
}

#[test]
fn response_mcp_tools_list_result_captured_whole() {
    let req = TestRequest::post()
        .with_header(":scheme", "https")
        .with_path("/mcp")
        .with_header("content-type", "application/json")
        .with_body(r#"{"jsonrpc":"2.0","id":1,"method":"tools/list"}"#);
    let result = r#"{"jsonrpc":"2.0","id":1,"result":{"tools":[{"name":"search","description":"find things","inputSchema":{"type":"object"}}]}}"#;
    let upstream = TestResponse::new(200)
        .with_header("content-type", "application/json")
        .with_body(result);
    let (events, client) =
        run_pipeline(req, response_capture_config(), upstream.clone());
    assert_pass_through(&client, &upstream);

    let e = &events.expect("expected a flushed batch")[0];
    assert_eq!(e["response_body"]["result"]["tools"][0]["name"], "search");
    assert_eq!(
        e["response_body"]["result"]["tools"][0]["inputSchema"]["type"],
        "object"
    );
}

#[test]
fn response_mcp_sse_result_key_sanitized_client_untouched() {
    let req = TestRequest::post()
        .with_header(":scheme", "https")
        .with_path("/mcp")
        .with_header("content-type", "application/json")
        .with_body(r#"{"jsonrpc":"2.0","id":1,"method":"tools/call","params":{"name":"lookup","arguments":{"q":"x"}}}"#);
    let sse = "event: message\ndata: {\"jsonrpc\":\"2.0\",\"id\":1,\"result\":{\"content\":[{\"type\":\"text\",\"text\":\"ok\"}],\"structuredContent\":{\"api_key\":\"sk-live-1\",\"user\":\"alice\"}}}\n\n";
    let upstream = TestResponse::new(200)
        .with_header("content-type", "text/event-stream")
        .with_body(sse);
    let (events, client) = run_pipeline(req, response_capture_config(), upstream.clone());
    assert_pass_through(&client, &upstream);
    assert!(
        std::str::from_utf8(client.body()).unwrap().contains("sk-live-1"),
        "client must receive the original bytes"
    );

    let e = &events.expect("expected a flushed batch")[0];
    let captured = e["response_body"].as_str().expect("SSE ships as a string");
    assert!(!captured.contains("sk-live-1"), "secret must not ship: {captured}");
    assert!(captured.contains("\"api_key\":\"[REDACTED]\""), "{captured}");
    assert!(captured.contains("\"user\":\"alice\""), "{captured}");
    assert!(captured.starts_with("event: message\ndata: "), "framing preserved: {captured}");
}

#[test]
fn response_budgets_clamp_to_schema_maximum() {
    let config = format!(
        r#"{{"ingestService":"http://{INGEST_AUTHORITY}","token":"test-api-key","captureResponseBody":true,"responseHeadBytes":1048576,"responseTailBytes":0}}"#
    );
    let big = "x".repeat(60_000);
    let upstream = TestResponse::new(200)
        .with_header("content-type", "text/event-stream")
        .with_body(big.clone());
    let (events, client) = run_pipeline(minimal_post(), config, upstream.clone());
    assert_pass_through(&client, &upstream);

    let e = &events.expect("expected a flushed batch")[0];
    let marker = e["response_body"].as_object().expect("truncation marker");
    assert_eq!(marker["body_truncated"], true);
    assert_eq!(marker["head"].as_str().unwrap().len(), 49_152);
    assert_eq!(marker["body_bytes_dropped"], 60_000 - 49_152);
}

#[test]
fn response_truncated_completion_on_custom_path_withheld_when_ai_capture_off() {
    let config = format!(
        r#"{{"ingestService":"http://{INGEST_AUTHORITY}","token":"test-api-key","captureResponseBody":true,"captureAiContent":false,"responseHeadBytes":256,"responseTailBytes":128}}"#
    );
    let req = TestRequest::post()
        .with_header(":scheme", "https")
        .with_path("/internal/assistant/answer")
        .with_header("content-type", "application/json")
        .with_body(r#"{"question":"tell me a long story","ticket":"T-2"}"#);
    let long = "Once upon a time ".repeat(200);
    let body = format!(
        r#"{{"id":"chatcmpl-2","object":"chat.completion","model":"gpt-4o","choices":[{{"index":0,"message":{{"role":"assistant","content":"{long}"}},"finish_reason":"stop"}}]}}"#
    );
    let upstream = TestResponse::new(200)
        .with_header("content-type", "application/json")
        .with_body(body);
    let (events, client) = run_pipeline(req, config, upstream.clone());
    assert_pass_through(&client, &upstream);

    let e = &events.expect("expected a flushed batch")[0];
    assert!(
        e.get("response_body").is_none(),
        "truncated completion must be withheld: {e}"
    );
    assert_eq!(e["status_code"], 200);
}

#[test]
fn response_bodyless_with_content_encoding_ships_nothing() {
    let upstream = TestResponse::new(304)
        .with_header("content-type", "application/json")
        .with_header("content-encoding", "gzip");
    let (events, client) =
        run_pipeline(minimal_post(), response_capture_config(), upstream.clone());
    assert_pass_through(&client, &upstream);

    let e = &events.expect("expected a flushed batch")[0];
    assert!(
        e.get("response_body").is_none(),
        "body-less response must not ship an encoding marker: {e}"
    );
    assert_eq!(e["status_code"], 304);
}

#[test]
fn response_header_allowlist_captures_default_mcp_session_id() {
    let upstream = TestResponse::new(200)
        .with_header("content-type", "application/json")
        .with_header("mcp-session-id", "4bbd920a-sess")
        .with_header("x-internal-shard", "not-listed")
        .with_body(r#"{"ok":true}"#);
    let (events, client) = run_pipeline(minimal_post(), config(), upstream.clone());
    assert_pass_through(&client, &upstream);

    let e = &events.expect("expected a flushed batch")[0];
    let rh = e["response_headers"].as_object().expect("response_headers");
    assert_eq!(rh["Mcp-Session-Id"], "4bbd920a-sess");
    assert_eq!(
        rh.len(),
        1,
        "only allowlisted response headers may ship: {rh:?}"
    );
}

#[test]
fn response_header_allowlist_empty_captures_none() {
    let config = format!(
        r#"{{"ingestService":"http://{INGEST_AUTHORITY}","token":"test-api-key","captureResponseHeaders":[]}}"#
    );
    let upstream = TestResponse::new(200)
        .with_header("mcp-session-id", "4bbd920a-sess")
        .with_body("ok");
    let (events, client) = run_pipeline(minimal_post(), config, upstream.clone());
    assert_pass_through(&client, &upstream);

    let e = &events.expect("expected a flushed batch")[0];
    assert!(
        e.get("response_headers").is_none(),
        "empty captureResponseHeaders must capture nothing: {e}"
    );
}

#[test]
fn response_header_allowlist_sensitive_header_still_redacts() {
    let config = format!(
        r#"{{"ingestService":"http://{INGEST_AUTHORITY}","token":"test-api-key","captureResponseHeaders":["Set-Cookie","X-Trace-Id"]}}"#
    );
    let upstream = TestResponse::new(200)
        .with_header("set-cookie", "sid=supersecret")
        .with_header("x-trace-id", "trace-1")
        .with_body("ok");
    let (events, client) = run_pipeline(minimal_post(), config, upstream.clone());
    assert_pass_through(&client, &upstream);

    let e = &events.expect("expected a flushed batch")[0];
    let rh = e["response_headers"].as_object().expect("response_headers");
    assert_eq!(rh["Set-Cookie"], "[REDACTED]");
    assert_eq!(rh["X-Trace-Id"], "trace-1");
}

#[test]
fn response_header_allowlist_multi_value_collapses_after_sanitization() {
    let config = format!(
        r#"{{"ingestService":"http://{INGEST_AUTHORITY}","token":"test-api-key","captureResponseHeaders":["set-cookie","x-shard"]}}"#
    );
    let upstream = TestResponse::new(200)
        .with_header("set-cookie", "sid=one")
        .with_header("set-cookie", "csrf=two")
        .with_header("x-shard", "a")
        .with_header("x-shard", "b")
        .with_body("ok");
    let (events, client) = run_pipeline(minimal_post(), config, upstream.clone());
    assert_pass_through(&client, &upstream);

    let e = &events.expect("expected a flushed batch")[0];
    let rh = e["response_headers"].as_object().expect("response_headers");
    assert_eq!(rh["Set-Cookie"], "[REDACTED], [REDACTED]");
    assert_eq!(rh["X-Shard"], "a, b");
}

#[test]
fn response_header_allowlist_absent_header_omits_field_or_key() {
    let config = format!(
        r#"{{"ingestService":"http://{INGEST_AUTHORITY}","token":"test-api-key","captureResponseHeaders":["mcp-session-id","x-trace-id"]}}"#
    );
    let upstream = TestResponse::new(200)
        .with_header("x-trace-id", "t-1")
        .with_body("ok");
    let (events, client) = run_pipeline(minimal_post(), config.clone(), upstream.clone());
    assert_pass_through(&client, &upstream);
    let e = &events.expect("expected a flushed batch")[0];
    let rh = e["response_headers"].as_object().expect("response_headers");
    assert_eq!(rh.len(), 1);
    assert_eq!(rh["X-Trace-Id"], "t-1");
    assert!(rh.get("Mcp-Session-Id").is_none());

    let upstream = TestResponse::new(200).with_body("ok");
    let (events, client) = run_pipeline(minimal_post(), config, upstream.clone());
    assert_pass_through(&client, &upstream);
    let e = &events.expect("expected a flushed batch")[0];
    assert!(
        e.get("response_headers").is_none(),
        "no allowlisted header present gives field omitted: {e}"
    );
}

#[test]
fn response_bodyless_204_no_response_body() {
    let upstream = TestResponse::new(204).with_header("content-type", "application/json");
    let (events, client) =
        run_pipeline(minimal_post(), response_capture_config(), upstream.clone());
    assert_pass_through(&client, &upstream);

    let e = &events.expect("expected a flushed batch")[0];
    assert!(
        e.get("response_body").is_none(),
        "body-less response must not produce a response_body: {e}"
    );
    assert_eq!(e["status_code"], 204);
    assert!(e["latency_ms"].is_u64());
}

#[test]
fn mcp_jsonrpc_body_still_captured() {
    let req = TestRequest::post()
        .with_header(":scheme", "https")
        .with_path("/mcp")
        .with_header("content-type", "application/json")
        .with_body(
            r#"{"jsonrpc":"2.0","id":1,"method":"tools/call","params":{"name":"search","arguments":{"query":"x","api_key":"sk-123"}}}"#,
        );

    let events = capture_events(req).expect("expected a flushed batch");
    assert_eq!(events.len(), 1);
    let e = &events[0];

    assert_eq!(e["body"]["jsonrpc"], "2.0");
    assert_eq!(e["body"]["method"], "tools/call");
    assert_eq!(e["body"]["params"]["arguments"]["query"], "x");
    assert_eq!(e["body"]["params"]["arguments"]["api_key"], "[REDACTED]");
}

#[test]
fn blank_source_ships_no_address() {
    for source in ["", "  ", "\t\n"] {
        let req = minimal_post().with_source(source);
        let e = &capture_events(req).expect("expected a flushed batch")[0];
        assert!(e.get("remote_addr").is_none(), "{e}");
    }
    let req = minimal_post().with_header("x-forwarded-for", " , 1.1.1.1").with_source(" ");
    let e = &capture_events(req).expect("expected a flushed batch")[0];
    assert!(e.get("remote_addr").is_none(), "{e}");
    let req = minimal_post().with_source("[2001:DB8::1%eth0]:443");
    let e = &capture_events(req).expect("expected a flushed batch")[0];
    assert_eq!(e["remote_addr"], "2001:db8::1");
}
