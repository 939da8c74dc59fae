use cerberus_flex_gateway::ai_content::{
    is_completion_shaped, is_jsonrpc_shaped, is_llm_path, is_prompt_shaped,
    looks_like_ai_response_text, should_suppress_body, should_suppress_response,
    should_suppress_truncated_response, AI_SNIFF_WINDOW,
};
use cerberus_flex_gateway::json::Json;

fn j(s: &str) -> Json {
    Json::parse(s.as_bytes()).expect("valid JSON")
}

#[test]
fn llm_paths_positive() {
    let paths = [
        "/v1/chat/completions",
        "/openai/deployments/gpt-4o/chat/completions",
        "/v1/completions",
        "/v1/embeddings",
        "/v1/messages",
        "/v1/messages/batches",
        "/v1beta/models/gemini-2.0-flash:generateContent",
        "/v1beta/models/gemini-2.0-flash:streamGenerateContent",
        "/model/meta.llama3-70b-instruct/invoke",
        "/model/meta.llama3/converse",
        "/model/x/invoke-with-response-stream",
        "/v1/responses",
        "/v1/projects/p/locations/us-central1/publishers/google/models/text-bison:predict",
        "/v1/projects/p/locations/us-central1/endpoints/123:rawPredict",
        "/v1/projects/p/locations/us-central1/endpoints/123:streamRawPredict",
        "/V1/CHAT/COMPLETIONS",
    ];
    for path in paths {
        assert!(is_llm_path(path), "expected LLM path match: {path}");
    }
}

#[test]
fn llm_paths_negative() {
    let paths = [
        "/api/orders",
        "/api/v2/messages",
        "/rpc/invoke",
        "/api/users/converserdata",
        "/api/predict",
        "/predictions/model-a",
        "/health",
    ];
    for path in paths {
        assert!(!is_llm_path(path), "expected non-LLM path: {path}");
    }
}

#[test]
fn prompt_bodies_positive() {
    let bodies = [
        j(r##"{"model":"gpt-4o","messages":[{"role":"user","content":"hi"}]}"##),
        j(r##"{"messages":[{"role":"user","content":"hi"}]}"##),
        j(r##"{"model":"llama-3-70b","max_tokens":1024,"messages":[{"role":"user","content":"hi"}]}"##),
        j(r##"{"model":"gpt-3.5","prompt":"complete this"}"##),
        j(r##"{"contents":[{"parts":[{"text":"hi"}]}]}"##),
        j(r##"{"model":"text-embedding-3-small","input":"chunk"}"##),
        j(r##"{"anthropic_version":"bedrock-2023-05-31","messages":[{"role":"user","content":"hi"}]}"##),
        j(r##"{"inputText":"summarize","textGenerationConfig":{}}"##),
        j(r##"{"prompt":"complete this","max_tokens":100}"##),
        j(r##"{"model":"command-r","message":"hi","chat_history":[]}"##),
        j(r##"{"model":"embed-english-v3.0","texts":["chunk one","chunk two"]}"##),
        j(r##"[{"role":"user","content":"hi"}]"##),
    ];
    for body in bodies {
        assert!(is_prompt_shaped(&body), "expected prompt-shaped: {body:?}");
    }
}

#[test]
fn prompt_bodies_negative() {
    let bodies = [
        j(r##"{"message":"hello"}"##),
        j(r##"{"input":"abc"}"##),
        j(r##"{"texts":["a","b"]}"##),
        j(r##"{"model":"tesla-model-3"}"##),
        j(r##"{"model":"SM-G991B","serial":"R58M"}"##),
        j(r##"{"prompt":"pick a username"}"##),
        j(r##"{"username":"alice","password":"x"}"##),
        j(r##"{"messages":["plain","strings"]}"##),
        j(r##"{"contents":["a","b"]}"##),
    ];
    for body in bodies {
        assert!(!is_prompt_shaped(&body), "expected non-prompt body: {body:?}");
    }
}

#[test]
fn completion_bodies_positive() {
    let bodies = [
        j(r##"{"id":"chatcmpl-1","object":"chat.completion","model":"gpt-4o", "choices":[{"index":0,"message":{"role":"assistant","content":"hi"},"finish_reason":"stop"}], "usage":{"prompt_tokens":1,"completion_tokens":1}}"##),
        j(r##"{"choices":[{"delta":{"content":"hi"}}]}"##),
        j(r##"{"choices":[{"text":"hi","index":0}]}"##),
        j(r##"{"object":"response","output":[{"type":"message","content":[{"type":"output_text","text":"hi"}]}]}"##),
        j(r##"{"type":"message","role":"assistant","content":[{"type":"text","text":"hi"}],"stop_reason":"end_turn"}"##),
        j(r##"{"content":[{"type":"text","text":"hi"}],"stop_reason":"end_turn"}"##),
        j(r##"{"candidates":[{"content":{"parts":[{"text":"hi"}]},"finishReason":"STOP"}]}"##),
        j(r##"{"object":"list","data":[{"object":"embedding","embedding":[0.1,0.2],"index":0}]}"##),
        j(r##"{"output":{"message":{"role":"assistant","content":[{"text":"hi"}]}},"stopReason":"end_turn"}"##),
        j(r##"{"results":[{"outputText":"hi","completionReason":"FINISH"}]}"##),
        j(r##"{"text":"hi","finish_reason":"COMPLETE","generation_id":"g"}"##),
        j(r##"{"generated_text":"hi"}"##),
        j(r##"[{"generated_text":"hi"}]"##),
        j(r##"[{"choices":[{"message":{"role":"assistant","content":"hi"}}]}]"##),
    ];
    for body in bodies {
        assert!(is_completion_shaped(&body), "expected completion-shaped: {body:?}");
    }
}

#[test]
fn completion_bodies_negative() {
    let bodies = [
        j(r##"{"choices":["red","green"]}"##),
        j(r##"{"data":[{"id":1,"name":"widget"}]}"##),
        j(r##"{"content":"plain string, no message type or stop reason"}"##),
        j(r##"{"output":"done"}"##),
        j(r##"{"results":[{"id":1}]}"##),
        j(r##"{"candidates":[{"name":"alice"}]}"##),
        j(r##"{"message":"created","id":7}"##),
        j(r##"{"jsonrpc":"2.0","id":1,"result":{"content":[{"type":"text","text":"hi"}]}}"##),
        j(r##"[{"id":1,"name":"widget"},{"id":2,"name":"gadget"}]"##),
        j(r##"["a","b"]"##),
        j(r##"[]"##),
    ];
    for body in bodies {
        assert!(!is_completion_shaped(&body), "expected non-completion body: {body:?}");
    }
}

#[test]
fn ai_response_text_sniff_positive() {
    let texts = [
        r#"{"id":"chatcmpl-1","object":"chat.completion","created":1,"model":"gpt-4o","choices":[{"index":0,"message":{"role":"assistant","content":"Once upon"#,
        r#"{"id":"msg_1","type":"message","role":"assistant","model":"llama-3-70b","content":[{"type":"text","text":"Once"#,
        r#"{"candidates":[{"content":{"parts":[{"text":"Once"#,
        r#"{"object":"list","data":[{"object":"embedding","index":0,"embedding":[0.0123,-0.0456,"#,
        "data: {\"id\":\"chatcmpl-1\",\"object\":\"chat.completion.chunk\",\"choices\":[{\"delta\":{\"content\":\"hi\"}}]}\n\n",
        "event: message_start\ndata: {\"type\":\"message_start\",\"message\":{\"id\":\"msg_1\"}}\n\n",
        "event: content_block_delta\ndata: {\"type\":\"content_block_delta\",\"index\":0,\"delta\":{\"type\":\"text_delta\",\"text\":\"hi\"}}\n\n",
        "data: {\"type\":\"response.output_text.delta\",\"delta\":\"hi\"}\n\n",
        "data: {\"candidates\":[{\"content\":{\"parts\":[{\"text\":\"hi\"}]}}]}\n\n",
        "{\n  \"model\": \"gpt-4o\",\n  \"messages\" : [\n    {\"role\": \"assistant\"",
        r#"[{"generated_text":"Once upon"#,
    ];
    for t in texts {
        assert!(looks_like_ai_response_text(t), "expected AI signature: {t}");
    }
}

#[test]
fn ai_response_text_sniff_negative() {
    let texts = [
        r#"{"orders":[{"id":1,"item":"widget","qty":2},{"id":2,"item":"gadget","#,
        "data: {\"tick\":1,\"price\":42.5}\n\ndata: {\"tick\":2,\"price\":42.6}\n\n",
        r#"{"jsonrpc":"2.0","id":1,"result":{"content":[{"type":"text","text":"{\"choices\":[]}"}]}}"#,
        "data: {\"jsonrpc\":\"2.0\",\"id\":1,\"result\":{\"structuredContent\":{\"choices\":[\"a\"]}}}\n\n",
        ": keep-alive\n\n",
    ];
    for t in texts {
        assert!(!looks_like_ai_response_text(t), "expected no AI signature: {t}");
    }
}

#[test]
fn ai_response_text_sniff_only_inspects_the_head_window() {
    let mut t = String::from(r#"{"data":""#);
    t.push_str(&"x".repeat(AI_SNIFF_WINDOW + 10));
    t.push_str(r#"","choices":[]}"#);
    assert!(!looks_like_ai_response_text(&t));
    let mut t = "é".repeat(AI_SNIFF_WINDOW);
    t.push_str(r#""choices":"#);
    let _ = looks_like_ai_response_text(&t);
}

#[test]
fn jsonrpc_wins_behind_sse_field_lines_and_on_later_frames() {
    let framed = "event: message\nid: 7\ndata: {\"jsonrpc\":\"2.0\",\"id\":1,\"result\":{\"structuredContent\":{\"messages\":[{\"role\":\"assistant\"}]}}}\n\n";
    assert!(!looks_like_ai_response_text(framed));
    let tail = "ent\":\"...\"}]}}\n\nevent: message\ndata: {\"jsonrpc\":\"2.0\",\"id\":2,\"result\":{\"finish_reason\":\"stop\"}}\n\n";
    assert!(!should_suppress_truncated_response("/mcp", "", tail));
}

#[test]
fn truncated_decision_uses_either_slice() {
    let tail = r#"…and they lived happily."},"finish_reason":"stop"}],"usage":{"prompt_tokens":12,"completion_tokens":900,"total_tokens":912}}"#;
    assert!(should_suppress_truncated_response("/internal/assistant/answer", "", tail));
    let tail = r#"…"}]},"finishReason":"STOP"}],"usageMetadata":{"promptTokenCount":9}}"#;
    assert!(should_suppress_truncated_response("/internal/assistant/answer", "", tail));
    assert!(should_suppress_truncated_response(
        "/internal/assistant/answer",
        r#"{"id":"chatcmpl-1","object":"chat.completion","choices":[{"message":{"#,
        ""
    ));
    assert!(!should_suppress_truncated_response(
        "/api/orders",
        r#"{"orders":[{"id":1,"item":"widget"},"#,
        r#"{"id":999,"item":"gadget"}],"total":999}"#
    ));
    assert!(!should_suppress_truncated_response(
        "/mcp",
        r#"{"jsonrpc":"2.0","id":1,"result":{"content":[{"type":"text","text":"{\"choices\":[{\"message\":{"#,
        r#""},"finish_reason":"stop"}]}"}]}}"#
    ));
    let mut long_tail = "x".repeat(AI_SNIFF_WINDOW * 3);
    long_tail.push_str(r#""},"finish_reason":"stop"}]}"#);
    assert!(should_suppress_truncated_response("/internal/assistant/answer", "", &long_tail));
    let mut long_tail = "é".repeat(AI_SNIFF_WINDOW * 2);
    long_tail.push_str(r#""stop_reason":"end_turn"}"#);
    assert!(should_suppress_truncated_response("/x", "", &long_tail));
}

#[test]
fn should_suppress_response_decision() {
    assert!(should_suppress_response(
        "/internal/ai/ask",
        &j(r##"{"choices":[{"message":{"role":"assistant","content":"hi"}}]}"##)
    ));
    assert!(should_suppress_response(
        "/internal/ai/ask",
        &j(r##"{"model":"gpt-4o","messages":[{"role":"assistant","content":"hi"}]}"##)
    ));
    assert!(!should_suppress_response(
        "/v1/chat/completions",
        &j(r##"{"jsonrpc":"2.0","id":1,"result":{"content":[{"type":"text","text":"hi"}]}}"##)
    ));
    assert!(!should_suppress_response("/api/orders", &j(r##"{"item":"widget","qty":2}"##)));
}

#[test]
fn mcp_jsonrpc_carve_out() {
    let mcp = j(r##"{ "jsonrpc": "2.0", "id": 1, "method": "tools/call", "params": {"name": "search", "arguments": {"query": "x"}} }"##);
    assert!(is_jsonrpc_shaped(&mcp));
    assert!(!should_suppress_body("/v1/chat/completions", &mcp));

    let mcp_nested = j(r##"{ "jsonrpc": "2.0", "id": 2, "method": "tools/call", "params": {"arguments": {"messages": [{"role": "user", "content": "hi"}]}} }"##);
    assert!(!should_suppress_body("/v1/chat/completions", &mcp_nested));
}

#[test]
fn should_suppress_body_decision() {
    assert!(should_suppress_body(
        "/v1/chat/completions",
        &j(r##"{"unrelated":"field"}"##)
    ));
    assert!(should_suppress_body(
        "/internal/ai/ask",
        &j(r##"{"model":"gpt-4o","messages":[{"role":"user","content":"hi"}]}"##)
    ));
    assert!(!should_suppress_body(
        "/api/orders",
        &j(r##"{"item":"widget","qty":2}"##)
    ));
}
