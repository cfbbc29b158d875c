use llm_gateway::bridge::{
    append_pending_reasoning, compact_error_message, finish_reason_to_status, normalize_input_role,
    provider_native_responses, resolve_no_index_tool_key, should_convert,
};
use llm_gateway::codec::parse_json;
use llm_gateway::proxy::Provider;

fn provider(api_type: &str) -> Provider {
    Provider {
        id: 1,
        name: "p".into(),
        api_type: api_type.into(),
        base_url: "http://x/v1".into(),
        api_key_encrypted: "k".into(),
        timeout_ms: 1000,
        extra_body: parse_json(b"{}").unwrap(),
        auth_scheme: "bearer".into(),
        extra_headers: parse_json(b"{}").unwrap(),
        supports_images: true,
    }
}

#[test]
fn conversion_only_toward_non_native_upstreams() {
    assert!(provider_native_responses(&provider("OpenAI-Responses")));
    assert!(!provider_native_responses(&provider("openai")));
    assert!(should_convert(true, &provider("openai")));
    assert!(!should_convert(true, &provider("openai-responses")));
    assert!(!should_convert(false, &provider("openai")));
}

#[test]
fn finish_reasons_map_to_status() {
    let (s, d) = finish_reason_to_status(" length ");
    assert_eq!(s, "incomplete");
    assert_eq!(d.unwrap().reason, "max_output_tokens");
    let (s, d) = finish_reason_to_status("token_limit");
    assert_eq!(s, "incomplete");
    assert_eq!(d.unwrap().reason, "max_output_tokens");
    let (s, d) = finish_reason_to_status("content_filter");
    assert_eq!(s, "incomplete");
    assert_eq!(d.unwrap().reason, "content_filter");
    let (s, d) = finish_reason_to_status("stop");
    assert_eq!(s, "completed");
    assert!(d.is_none());
}

#[test]
fn input_roles_normalised() {
    assert_eq!(normalize_input_role(Some("assistant")), "assistant");
    assert_eq!(normalize_input_role(Some(" system ")), "system");
    assert_eq!(normalize_input_role(Some(" user ")), "user");
    assert_eq!(normalize_input_role(Some("developer")), "user");
    assert_eq!(normalize_input_role(Some("")), "user");
    assert_eq!(normalize_input_role(None), "user");
}

#[test]
fn pending_reasoning_accumulates() {
    let mut p: Option<String> = None;
    append_pending_reasoning(&mut p, Some("  ".into()));
    assert!(p.is_none());
    append_pending_reasoning(&mut p, Some("a".into()));
    assert_eq!(p.as_deref(), Some("a"));
    append_pending_reasoning(&mut p, None);
    append_pending_reasoning(&mut p, Some("b".into()));
    assert_eq!(p.as_deref(), Some("a\nb"));
}

#[test]
fn index_less_tool_keys() {
    assert_eq!(resolve_no_index_tool_key(Some("call_new"), None, Some(1), Some(3)), 4);
    assert_eq!(resolve_no_index_tool_key(Some("call_new"), None, Some(1), None), 2);
    assert_eq!(resolve_no_index_tool_key(Some("call_new"), None, None, None), 0);
    assert_eq!(resolve_no_index_tool_key(Some("call_old"), Some(2), Some(5), Some(5)), 2);
    assert_eq!(resolve_no_index_tool_key(Some("  "), None, Some(5), Some(7)), 5);
    assert_eq!(resolve_no_index_tool_key(None, None, None, Some(7)), 0);
    assert_eq!(resolve_no_index_tool_key(Some("x"), None, None, Some(i64::MAX)), i64::MAX);
}

#[test]
fn error_messages_compacted() {
    assert_eq!(compact_error_message("  a \n\t b  c ", 100), "a b c");
    assert_eq!(compact_error_message("hello world", 6), "hello");
    assert_eq!(compact_error_message("hello world", 5), "hello");
    assert_eq!(compact_error_message("", 3), "");
}

fn tctx() -> llm_gateway::proxy::UpstreamErrorContext {
    llm_gateway::proxy::UpstreamErrorContext { provider: "p".into(), model: "m".into(), request_id: 0 }
}

fn reshape(status: u16, body: &[u8]) -> serde_json::Value {
    let out = llm_gateway::bridge::reshape_upstream_error_for_responses(status, body, &tctx());
    serde_json::from_slice(&out).unwrap()
}

#[test]
fn reshape_error_json_body() {
    let v = reshape(200, br#"{"error": {"code": "mock_error", "message": "boom requested"}}"#);
    assert!(v.pointer("/error/message").and_then(|m| m.as_str()).unwrap().starts_with("boom requested"));
    assert_eq!(v.pointer("/error/code").and_then(|c| c.as_str()), Some("mock_error"));
    assert_eq!(v.pointer("/error/type").and_then(|t| t.as_str()), Some("upstream_error"));
    assert_eq!(v.pointer("/error/provider").and_then(|p| p.as_str()), Some("p"));
    assert_eq!(v.pointer("/error/model").and_then(|m| m.as_str()), Some("m"));
    assert_eq!(v.pointer("/error/upstream_status").and_then(|s| s.as_u64()), Some(200));
    assert_eq!(v.pointer("/error/body_type").and_then(|b| b.as_str()), Some("json"));
}

#[test]
fn reshape_error_plain_and_empty_bodies() {
    let v = reshape(200, b"not json at all");
    assert!(v.pointer("/error/message").and_then(|m| m.as_str()).unwrap().starts_with("not json at all"));
    assert_eq!(v.pointer("/error/code").and_then(|c| c.as_str()), Some("upstream_http_200"));
    assert_eq!(v.pointer("/error/body_type").and_then(|b| b.as_str()), Some("text"));

    let v = reshape(200, b"");
    let msg = v.pointer("/error/message").and_then(|m| m.as_str()).unwrap();
    assert!(msg.contains("200"));
    assert_eq!(v.pointer("/error/body_type").and_then(|b| b.as_str()), Some("empty"));

    let v = reshape(200, br#"{"choices":[]}"#);
    assert!(v.pointer("/error/message").and_then(|m| m.as_str()).unwrap().contains("unconvertible"));
}

#[test]
fn reshape_error_context_and_truncation() {
    let v = reshape(502, br#"{"error":{"message":"boom"}}"#);
    let msg = v.pointer("/error/message").and_then(|m| m.as_str()).unwrap();
    assert!(msg.contains("provider=p"), "{msg}");
    assert!(msg.contains("request_id=00000000"), "{msg}");
    let big = "x".repeat(5000);
    let v = reshape(502, format!(r#"{{"error":{{"message":"{big}"}}}}"#).as_bytes());
    let msg = v.pointer("/error/message").and_then(|m| m.as_str()).unwrap();
    assert!(msg.chars().count() <= 1800, "len={}", msg.len());
}

#[test]
fn reshape_error_base_resp_and_numeric_code_and_param() {
    let v = reshape(200, br#"{"base_resp":{"message":"quota","code":4001},"error":{"param":"x"}}"#);
    assert_eq!(
        v.pointer("/error/message").and_then(|m| m.as_str()),
        Some("quota [provider=p, model=m, request_id=00000000-0000-0000-0000-000000000000]")
    );
    assert_eq!(v.pointer("/error/code").and_then(|c| c.as_i64()), Some(4001));
    assert_eq!(v.pointer("/error/param").and_then(|c| c.as_str()), Some("x"));
    let v = reshape(418, br#"{"error":{"message":"m","code":1.5}}"#);
    assert_eq!(v.pointer("/error/code").and_then(|c| c.as_str()), Some("upstream_http_418"));
    assert!(v.pointer("/error/param").is_none());
}

#[test]
fn request_id_is_hyphenated_lowercase() {
    let ctx = llm_gateway::proxy::UpstreamErrorContext {
        provider: "p".into(),
        model: "m".into(),
        request_id: 0xa1a2a3a4b1b2c1c2d1d2d3d4d5d6d7d8,
    };
    assert_eq!(ctx.request_id_text(), "a1a2a3a4-b1b2-c1c2-d1d2-d3d4d5d6d7d8");
    assert_eq!(ctx.message_suffix(), " [provider=p, model=m, request_id=a1a2a3a4-b1b2-c1c2-d1d2-d3d4d5d6d7d8]");
}
