use llm_gateway::proxy::{feed_sse, parse_usage};
use llm_gateway::proxy::{allowed_candidates, exhausted_answer, outbound_model, outbound_plan, wants_1m, Exhausted, OutboundPlan};
use llm_gateway::proxy::{check_breaker, request_intake, supported_candidates, IntakeError};
use llm_gateway::proxy::{max_attempts, next_attempt, AttemptAction, AttemptEvent, AttemptState, BreakerNote};
use llm_gateway::codec::{parse_json, to_json_bytes};
use llm_gateway::json::Json;
use llm_gateway::prime::{first_chunk_error, PrimeSignal, PrimeState};
use llm_gateway::proxy::{
    apply_dialect_field_gate, apply_extra, apply_system_head, effective_extra, ensure_include_usage,
    extract_session_id, has_underscore_fields, has_usable_choices, is_stream_retryable,
    looks_like_sse, merge_deep, normalize_chat_roles, normalize_tools, pairing_unsupported,
    redact_secrets, session_id_from_metadata, status_retryable, strip_underscore_fields,
    upstream_error_envelope, Endpoint, Provider,
};
use serde_json::Value;

fn j(text: &str) -> Json {
    parse_json(text.as_bytes()).expect("valid JSON")
}

fn v(x: &Json) -> Value {
    serde_json::from_slice(&to_json_bytes(x)).expect("serialisable")
}

fn val(text: &str) -> Value {
    serde_json::from_str(text).expect("valid JSON")
}

#[test]
fn merge_deep_semantics() {
    let mut dst = j(r#"{"chat_template_kwargs": {"thinking": false, "keep": 1}, "top_p": 0.9, "stop": ["a"]}"#);
    let src = j(r#"{"chat_template_kwargs": {"thinking": true, "reasoning_effort": "max"}, "top_p": 0.5, "stop": ["b"], "top_k": 20}"#);
    merge_deep(&mut dst, &src);
    assert_eq!(
        v(&dst),
        val(r#"{"chat_template_kwargs": {"thinking": true, "keep": 1, "reasoning_effort": "max"}, "top_p": 0.5, "stop": ["b"], "top_k": 20}"#)
    );
    let mut scalar = j("1");
    merge_deep(&mut scalar, &j(r#"{"a": 1}"#));
    assert_eq!(v(&scalar), val("1"));
    let mut obj = j(r#"{"a": 1}"#);
    merge_deep(&mut obj, &j("[1, 2]"));
    assert_eq!(v(&obj), val(r#"{"a": 1}"#));
}

#[test]
fn effective_extra_precedence() {
    let provider = j(r#"{"chat_template_kwargs": {"thinking": true, "reasoning_effort": "medium"}, "top_k": 20}"#);
    let route = j(r#"{"chat_template_kwargs": {"reasoning_effort": "max"}}"#);
    let eff = effective_extra(&route, &provider).expect("merged");
    assert_eq!(
        v(&eff),
        val(r#"{"chat_template_kwargs": {"thinking": true, "reasoning_effort": "max"}, "top_k": 20}"#)
    );
    let provider = j(r#"{"model": "x", "stream": true, "stream_options": {}, "top_k": 1}"#);
    let eff = effective_extra(&j("{}"), &provider).expect("merged");
    assert_eq!(v(&eff), val(r#"{"top_k": 1}"#));
    assert!(effective_extra(&j("{}"), &j("{}")).is_none());
    assert!(effective_extra(&j("{}"), &j(r#"{"model": "x"}"#)).is_none());
}

#[test]
fn apply_extra_preserves_client_fields() {
    let mut body = j(r#"{"model": "client-model", "messages": [{"role": "user", "content": "hi"}], "chat_template_kwargs": {"user_keep": true}, "temperature": 0.7}"#);
    let extra = j(r#"{"chat_template_kwargs": {"thinking": true}, "model": "evil-override", "temperature": 0.2}"#);
    apply_extra(&mut body, Some(&extra));
    let b = v(&body);
    assert_eq!(b["model"], val(r#""client-model""#));
    assert_eq!(b["chat_template_kwargs"], val(r#"{"user_keep": true, "thinking": true}"#));
    assert_eq!(b["temperature"], val("0.2"));
    apply_extra(&mut body, None);
    assert_eq!(v(&body)["temperature"], val("0.2"));
}

fn mk(api_type: &str) -> Provider {
    Provider {
        id: 1,
        name: "p".into(),
        api_type: api_type.into(),
        base_url: "http://x/v1".into(),
        api_key_encrypted: "k".into(),
        timeout_ms: 1000,
        extra_body: j("{}"),
        auth_scheme: "bearer".into(),
        extra_headers: j("{}"),
        supports_images: true,
    }
}

#[test]
fn pairing_unsupported_matrix() {
    let chat = Endpoint { api: "/v1/chat/completions", upstream: "/chat/completions", responses: false, anthropic: false };
    let resp = Endpoint { api: "/v1/responses", upstream: "/responses", responses: true, anthropic: false };
    let msg = Endpoint { api: "/v1/messages", upstream: "/messages", responses: false, anthropic: true };
    assert!(pairing_unsupported(chat, &mk("openai")).is_none());
    assert!(pairing_unsupported(resp, &mk("openai-responses")).is_none());
    assert!(pairing_unsupported(msg, &mk("anthropic")).is_none());
    assert!(pairing_unsupported(resp, &mk("openai")).is_none());
    assert!(pairing_unsupported(msg, &mk("openai")).is_none());
    assert!(pairing_unsupported(resp, &mk("anthropic")).is_some());
    assert!(pairing_unsupported(msg, &mk("openai-responses")).is_some());
    assert!(pairing_unsupported(chat, &mk("anthropic")).is_some());
    assert!(pairing_unsupported(chat, &mk("openai-responses")).is_some());
}

#[test]
fn pairing_reason_texts_and_case() {
    let chat = Endpoint { api: "/v1/chat/completions", upstream: "/chat/completions", responses: false, anthropic: false };
    assert_eq!(
        pairing_unsupported(chat, &mk("Anthropic")).as_deref(),
        Some("chat completions client → non-chat upstream is not supported")
    );
    let msg = Endpoint { api: "/v1/messages", upstream: "/messages", responses: false, anthropic: true };
    assert_eq!(
        pairing_unsupported(msg, &mk("OPENAI-RESPONSES")).as_deref(),
        Some("anthropic client (/v1/messages) → openai-responses upstream is not supported")
    );
}

#[test]
fn stream_retryable_status_codes() {
    assert!(is_stream_retryable(429));
    assert!(is_stream_retryable(500));
    assert!(is_stream_retryable(401));
    assert!(is_stream_retryable(403));
    assert!(is_stream_retryable(408), "408 switches provider");
    assert!(is_stream_retryable(404), "404 switches provider");
    assert!(!is_stream_retryable(400));
    assert!(!is_stream_retryable(422));
    assert!(!is_stream_retryable(501), "501 is not retryable");
}

#[test]
fn success_statuses_never_retry() {
    assert!(!status_retryable(200));
    assert!(!status_retryable(204));
    assert!(status_retryable(409));
    assert!(!status_retryable(413));
}

#[test]
fn normalize_chat_roles_maps_codex_internal_roles() {
    let mut json = j(r#"{"messages": [{"role": "developer", "content": "be terse"}, {"role": "latest_reminder", "content": "keep it short"}, {"role": "user", "content": "hi"}]}"#);
    assert!(normalize_chat_roles(&mut json));
    let x = v(&json);
    assert_eq!(x["messages"][0]["role"], "system");
    assert_eq!(x["messages"][1]["role"], "user");
    assert_eq!(x["messages"][2]["role"], "user");
    let mut input = j(r#"{"input": [{"type": "message", "role": "developer", "content": "d"}, {"type": "message", "role": "latest_reminder", "content": "r"}]}"#);
    assert!(normalize_chat_roles(&mut input));
    let y = v(&input);
    assert_eq!(y["input"][0]["role"], "system");
    assert_eq!(y["input"][1]["role"], "user");
    assert!(!normalize_chat_roles(&mut j(r#"{"messages": [{"role": "user", "content": "hi"}]}"#)));
}

#[test]
fn underscore_fields_stripped_recursively() {
    let mut x = j(r#"{"model": "m", "_internal": "debug", "messages": [{"role": "user", "content": [{"type": "text", "text": "hi", "_meta": 1}]}]}"#);
    assert!(has_underscore_fields(&x));
    strip_underscore_fields(&mut x);
    let y = v(&x);
    assert!(y.get("_internal").is_none());
    assert!(y["messages"][0]["content"][0].get("_meta").is_none());
    assert!(!has_underscore_fields(&x));
    assert!(!has_underscore_fields(&j(r#"{"a": 1}"#)));
}

#[test]
fn schema_property_names_survive_stripping() {
    let mut x = j(r#"{"tools": [{"parameters": {"properties": {"_id": {"type": "string", "_x": 1}}}}]}"#);
    strip_underscore_fields(&mut x);
    let y = v(&x);
    assert!(y["tools"][0]["parameters"]["properties"].get("_id").is_some());
    assert!(y["tools"][0]["parameters"]["properties"]["_id"].get("_x").is_none());
}

#[test]
fn normalize_tools_keeps_custom() {
    let mut json = j(r#"{"tools": [{"type": "function", "name": "f"}, {"type": "custom", "name": "apply_patch", "format": {"type": "text"}}, {"type": "web_search"}, {"name": "no-type"}]}"#);
    assert!(normalize_tools(&mut json), "web_search stripped");
    let x = v(&json);
    let tools = x["tools"].as_array().unwrap();
    assert_eq!(tools.len(), 3);
    assert_eq!(tools[1]["type"], "custom", "custom tool kept");
}

#[test]
fn ensure_include_usage_merges_existing_stream_options() {
    let mut body = j(r#"{"stream": true, "stream_options": {"include_usage": false, "other_key": 1}}"#);
    ensure_include_usage(&mut body, true);
    let b = v(&body);
    assert_eq!(b["stream_options"]["include_usage"], true);
    assert_eq!(b["stream_options"]["other_key"], 1, "sibling key kept");
    let mut body = j(r#"{"stream": true}"#);
    ensure_include_usage(&mut body, true);
    assert_eq!(v(&body)["stream_options"]["include_usage"], true);
    let mut body = j(r#"{"stream": false}"#);
    ensure_include_usage(&mut body, false);
    assert!(v(&body).get("stream_options").is_none());
    let mut body = j(r#"{"stream": true, "stream_options": "garbage"}"#);
    ensure_include_usage(&mut body, true);
    assert_eq!(v(&body)["stream_options"]["include_usage"], true);
}

#[test]
fn session_id_from_metadata_parses_suffix() {
    let json = j(r#"{"metadata": {"user_id": "user_abc123_session_9f8e7d6c"}}"#);
    assert_eq!(session_id_from_metadata(&json, true).as_deref(), Some("9f8e7d6c"));
    assert!(session_id_from_metadata(&json, false).is_none());
    assert!(session_id_from_metadata(&j(r#"{"metadata": {"user_id": "plain"}}"#), true).is_none());
    assert!(session_id_from_metadata(&j(r#"{"metadata": {"user_id": "x_session_"}}"#), true).is_none());
}

#[test]
fn session_id_takes_last_marker_and_caps_length() {
    let json = j(r#"{"metadata": {"user_id": "a_session_b_session_  c  "}}"#);
    assert_eq!(session_id_from_metadata(&json, true).as_deref(), Some("c"));
    let long = format!(r#"{{"metadata": {{"user_id": "u_session_{}"}}}}"#, "z".repeat(200));
    assert_eq!(session_id_from_metadata(&j(&long), true).unwrap().chars().count(), 128);
}

#[test]
fn header_session_id_first_non_blank() {
    let vals = vec![None, Some("   ".to_string()), Some(" abc ".to_string())];
    assert_eq!(extract_session_id(&vals).as_deref(), Some("abc"));
    assert!(extract_session_id(&[None, None, None]).is_none());
    let first = vec![Some("one".to_string()), Some("two".to_string())];
    assert_eq!(extract_session_id(&first).as_deref(), Some("one"));
}

#[test]
fn prime_signal_detects_productive_output() {
    let mut p = PrimeState::default();
    assert_eq!(p.feed(b"data: {\"choices\":[{\"delta\":{\"role\":\"assistant\"}}]}\n\n"), PrimeSignal::Neutral);
    let mut p = PrimeState::default();
    assert_eq!(p.feed(b"data: {\"choices\":[{\"delta\":{\"content\":\"Hi\"}}]}\n\n"), PrimeSignal::Productive);
    let mut p = PrimeState::default();
    assert_eq!(p.feed(b"data: {\"choices\":[{\"delta\":{},\"finish_reason\":\"stop\"}]}\n\n"), PrimeSignal::Terminal);
    let mut p = PrimeState::default();
    assert_eq!(p.feed(b"data: [DONE]\n\n"), PrimeSignal::Terminal);
    let mut p = PrimeState::default();
    assert_eq!(p.feed(b"event: message_start\ndata: {\"type\":\"message_start\",\"message\":{}}\n\n"), PrimeSignal::Neutral);
    let mut p = PrimeState::default();
    assert_eq!(
        p.feed(b"event: content_block_delta\ndata: {\"type\":\"content_block_delta\",\"delta\":{\"type\":\"text_delta\",\"text\":\"hi\"}}\n\n"),
        PrimeSignal::Productive
    );
    let mut p = PrimeState::default();
    assert_eq!(p.feed(b"event: message_stop\ndata: {\"type\":\"message_stop\"}\n\n"), PrimeSignal::Terminal);
    let mut p = PrimeState::default();
    assert_eq!(p.feed(b"event: response.created\ndata: {\"type\":\"response.created\"}\n\n"), PrimeSignal::Neutral);
    let mut p = PrimeState::default();
    assert_eq!(
        p.feed(b"event: response.output_text.delta\ndata: {\"type\":\"response.output_text.delta\",\"delta\":\"x\"}\n\n"),
        PrimeSignal::Productive
    );
    let mut p = PrimeState::default();
    assert_eq!(
        p.feed(b"event: response.completed\ndata: {\"type\":\"response.completed\",\"response\":{}}\n\n"),
        PrimeSignal::Terminal
    );
    let mut p = PrimeState::default();
    assert_eq!(p.feed(b"data: {\"choices\":[{\"delta\":{\"con"), PrimeSignal::Neutral);
    assert_eq!(p.feed(b"tent\":\"Hi\"}}]}\n\n"), PrimeSignal::Productive);
    let mut p = PrimeState::default();
    assert!(matches!(
        p.feed(
            b"data: {\"choices\":[{\"delta\":{\"role\":\"assistant\"}}]}\n\n\
              data: {\"error\":{\"message\":\"boom second\"}}\n\n\
              data: [DONE]\n\n"
        ),
        PrimeSignal::Error(_)
    ));
    let mut p = PrimeState::default();
    assert!(matches!(p.feed(b"event: error\ndata: {\"foo\":1}\n\n"), PrimeSignal::Error(_)));
}

#[test]
fn first_chunk_error_detects_error_envelope_in_sse_frame() {
    assert!(first_chunk_error(b"data: {\"error\":{\"message\":\"boom\"}}\n\n").is_some());
    assert!(first_chunk_error(b"data: {\"type\":\"error\",\"error\":{\"message\":\"boom\"}}\n\n").is_some());
    assert!(first_chunk_error(b"{\"error\":{\"message\":\"boom\"}}").is_some());
    assert!(first_chunk_error(b"data: {\"choices\":[{\"delta\":{\"content\":\"x\"}}]}\n\n").is_none());
}

#[test]
fn first_chunk_error_message_text() {
    assert_eq!(
        first_chunk_error(b"  {\"error\":{\"type\":\"overloaded\"}}").as_deref(),
        Some("upstream returned error payload in first chunk: upstream error")
    );
    assert!(first_chunk_error(b": keepalive\n\n").is_none());
    assert!(first_chunk_error(b"").is_none());
}

#[test]
fn upstream_error_envelope_shape() {
    let bytes = upstream_error_envelope("boom");
    let x: Value = serde_json::from_slice(&bytes).unwrap();
    assert_eq!(x["error"]["message"], "boom");
    assert_eq!(x["error"]["code"], "upstream_error");
    assert_eq!(x["error"]["type"], "upstream_error");
}

#[test]
fn sse_sniffing_tolerates_bom_and_space() {
    assert!(looks_like_sse(b"\xEF  data: {}"));
    assert!(looks_like_sse(b"\n\nevent: x"));
    assert!(looks_like_sse(b": comment"));
    assert!(looks_like_sse(b"retry: 10"));
    assert!(!looks_like_sse(b"{\"a\":1}"));
    assert!(!looks_like_sse(b""));
}

#[test]
fn secrets_redacted_from_messages() {
    assert_eq!(
        redact_secrets("GET https://gw/sk-123/v1 failed: sk-123".to_string(), "sk-123"),
        "GET https://gw/***/v1 failed: ***"
    );
    assert_eq!(redact_secrets("keep sk".to_string(), "  "), "keep sk");
    assert_eq!(redact_secrets("aaaa".to_string(), "aa"), "******");
}

#[test]
fn usable_choices_need_a_non_empty_array() {
    assert!(has_usable_choices(&j(r#"{"choices": [{}]}"#)));
    assert!(!has_usable_choices(&j(r#"{"choices": []}"#)));
    assert!(!has_usable_choices(&j(r#"{"choices": null}"#)));
    assert!(!has_usable_choices(&j("[]")));
}

#[test]
fn system_head_applied_only_when_enabled() {
    let mut body = j(r#"{"messages": [{"role": "user", "content": "hi"}, {"role": "system", "content": "rules"}]}"#);
    assert!(!apply_system_head(&mut body, false, true));
    assert_eq!(v(&body)["messages"][0]["role"], "user");
    assert!(apply_system_head(&mut body, true, true));
    assert_eq!(v(&body)["messages"][0]["role"], "system");
}

#[test]
fn dialect_gate_drops_unlisted_responses_fields() {
    let mut body = j(r#"{"model": "m", "store": true, "prompt_cache_key": "k", "safety_identifier": "s"}"#);
    apply_dialect_field_gate(&mut body, &["prompt_cache_key".to_string()]);
    let b = v(&body);
    assert!(b.get("store").is_none());
    assert!(b.get("safety_identifier").is_none());
    assert_eq!(b["prompt_cache_key"], "k");
    assert_eq!(b["model"], "m");
}

#[test]
fn attempt_loop_decisions() {
    assert_eq!(max_attempts(5, 4), 4);
    assert_eq!(max_attempts(2, 4), 2);
    assert_eq!(max_attempts(3, 0), 1);
    assert_eq!(max_attempts(0, 0), 0);
    let s = AttemptState { tried: 0, last_failed: None, last_status: None };
    let (s, note, act) = next_attempt(s, 0, AttemptEvent::BreakerOpen);
    assert_eq!((note, act, s.tried), (BreakerNote::Nothing, AttemptAction::Next, 1));
    let (s, note, act) = next_attempt(s, 1, AttemptEvent::Answered { status: 503, body_read: true });
    assert_eq!((note, act), (BreakerNote::Failure, AttemptAction::Next));
    assert_eq!((s.last_failed, s.last_status), (Some(1), Some(503)));
    let (s, note, act) = next_attempt(s, 2, AttemptEvent::Answered { status: 200, body_read: false });
    assert_eq!((note, act, s.last_failed), (BreakerNote::Failure, AttemptAction::Next, Some(2)));
    let (s, note, act) = next_attempt(s, 3, AttemptEvent::Answered { status: 400, body_read: true });
    assert_eq!((note, act, s.tried), (BreakerNote::Success, AttemptAction::Answer, 4));
    assert_eq!(s.last_status, Some(503));
}

fn ep(responses: bool, anthropic: bool) -> Endpoint {
    Endpoint { api: "x", upstream: "/x", responses, anthropic }
}

#[test]
fn request_intake_gates_and_parses() {
    let body = br#"{"model": "gpt", "stream": true, "messages": [{"role": "developer", "content": "hi"}], "tools": [{"type": "web_search"}, {"type": "function", "function": {"name": "f"}}]}"#;
    match request_intake(body, None, &ep(true, false), false, true) {
        Err(IntakeError::ServiceUnavailable(m)) => assert!(m.contains("/v1/responses")),
        _ => panic!("expected a refusal"),
    }
    match request_intake(body, None, &ep(false, true), true, false) {
        Err(IntakeError::ServiceUnavailable(m)) => assert!(m.contains("/v1/messages")),
        _ => panic!("expected a refusal"),
    }
    let i = match request_intake(body, Some("IDENTITY"), &ep(false, false), true, true) {
        Ok(i) => i,
        _ => panic!("expected intake"),
    };
    assert_eq!(i.model, "gpt");
    assert!(i.streamed);
    assert!(i.rewritten);
    assert!(!i.had_content_encoding);
    let v: serde_json::Value = serde_json::from_slice(&llm_gateway::codec::to_json_bytes(&i.json)).unwrap();
    assert_eq!(v["messages"][0]["role"], "system");
    assert_eq!(v["tools"].as_array().unwrap().len(), 1);
    match request_intake(body, Some(" identity "), &ep(false, false), true, true) {
        Ok(i) => assert!(i.had_content_encoding),
        _ => panic!("expected intake"),
    }
    match request_intake(b"{not json", None, &ep(false, false), true, true) {
        Err(IntakeError::BadRequest(m)) => assert!(m.starts_with("invalid JSON: ")),
        _ => panic!("expected a bad request"),
    }
    match request_intake(br#"{"model": ""}"#, None, &ep(false, false), true, true) {
        Err(IntakeError::BadRequest(m)) => assert_eq!(m, "missing 'model' field"),
        _ => panic!("expected a bad request"),
    }
    match request_intake(b"{}", Some("compress"), &ep(false, false), true, true) {
        Err(IntakeError::BadRequest(m)) => assert!(m.starts_with("unsupported content-encoding: compress")),
        _ => panic!("expected a bad request"),
    }
}

#[test]
fn dialect_pairing_filters_candidates() {
    let ps = vec![mk("openai-responses"), mk("openai"), mk("anthropic")];
    assert_eq!(supported_candidates(ep(false, true), &ps, "m").unwrap(), vec![1, 2]);
    assert_eq!(supported_candidates(ep(false, false), &ps, "m").unwrap(), vec![1]);
    let only = vec![mk("openai-responses")];
    let err = supported_candidates(ep(false, true), &only, "m2").err().unwrap();
    assert!(err.starts_with("no provider supports this client/upstream dialect pairing for model 'm2': anthropic client"));
    assert!(check_breaker(false, 2));
    assert!(!check_breaker(true, 2));
    assert!(!check_breaker(false, 1));
}

#[test]
fn outbound_decisions() {
    assert_eq!(outbound_model(None, "long-x[1m]"), "long-x");
    assert_eq!(outbound_model(Some("up"), "long-x[1m]"), "up");
    assert_eq!(outbound_model(None, "m"), "m");
    assert!(wants_1m("long-x[1m]", "up"));
    assert!(!wants_1m("m", "m"));
    let chat = ep(false, false);
    assert_eq!(outbound_plan(true, false, true, chat, false, false, false, false, false, false, false), OutboundPlan::AnthropicToChat);
    assert_eq!(outbound_plan(false, true, false, chat, false, false, false, false, false, false, false), OutboundPlan::ResponsesToChat);
    assert_eq!(outbound_plan(false, false, true, chat, false, false, false, false, false, false, false), OutboundPlan::StreamedChat);
    assert_eq!(outbound_plan(false, false, false, chat, false, false, false, false, false, false, true), OutboundPlan::Rebuilt);
    assert_eq!(outbound_plan(false, false, false, chat, false, false, false, false, false, false, false), OutboundPlan::Passthrough);
    assert_eq!(exhausted_answer(true, true, true), Exhausted::PassOn);
    assert_eq!(exhausted_answer(false, true, true), Exhausted::Timeout);
    assert_eq!(exhausted_answer(false, false, true), Exhausted::BadGateway);
    assert_eq!(exhausted_answer(false, false, false), Exhausted::Unavailable);
}

#[test]
fn candidates_filtered_by_user_access() {
    let mut access = llm_gateway::routing::UserAccess::new();
    access.set_rules(7, vec![llm_gateway::routing::UserAccessRule { provider_id: Some(2), model_pattern: None }]);
    let mut a = mk("openai");
    a.id = 1;
    let mut b = mk("openai");
    b.id = 2;
    let ps = vec![a, b];
    assert_eq!(allowed_candidates(&access, Some(7), false, &ps, "m").unwrap(), vec![1]);
    assert_eq!(allowed_candidates(&access, Some(7), true, &ps, "m").unwrap(), vec![0, 1]);
    assert_eq!(allowed_candidates(&access, None, false, &ps, "m").unwrap(), vec![0, 1]);
    assert_eq!(allowed_candidates(&access, Some(8), false, &ps, "m").unwrap(), vec![0, 1]);
    let only = vec![mk("openai")];
    assert_eq!(
        allowed_candidates(&access, Some(7), false, &only, "m2").err().unwrap(),
        "model 'm2' is not permitted for this user"
    );
}

#[test]
fn feed_sse_chat_stream() {
    let mut buf = Vec::new();
    let (usage, done) = feed_sse(
        &mut buf,
        b"data: {\"choices\":[]}\n\ndata: {\"usage\":{\"prompt_tokens\":4,\"completion_tokens\":2}}\n\ndata: [DONE]\n\n",
    );
    assert!(done);
    let u = usage.expect("usage captured");
    assert_eq!(u.input(), 4);
    assert_eq!(u.output(), 2);
}

#[test]
fn feed_sse_responses_stream() {
    let mut buf = Vec::new();
    let (usage, done) = feed_sse(
        &mut buf,
        b"event: response.output_text.delta\ndata: {\"type\":\"response.output_text.delta\",\"delta\":\"Hi\"}\n\n\
event: response.completed\ndata: {\"type\":\"response.completed\",\"response\":{\"status\":\"completed\",\"usage\":{\"input_tokens\":12,\"output_tokens\":7,\"total_tokens\":19}}}\n\n",
    );
    assert!(done);
    let u = usage.expect("usage captured from response.completed");
    assert_eq!(u.input(), 12);
    assert_eq!(u.output(), 7);
}

#[test]
fn feed_sse_responses_done_without_usage() {
    let mut buf = Vec::new();
    let (usage, done) = feed_sse(&mut buf, b"data: {\"type\":\"response.done\"}\n\n");
    assert!(done);
    assert!(usage.is_none());
}

#[test]
fn feed_sse_cross_chunk_and_top_level_responses_usage() {
    let mut buf = Vec::new();
    let (usage, done) = feed_sse(
        &mut buf,
        b"data: {\"type\":\"response.completed\",\"usage\":{\"input_tokens\":3,\"output_tokens\":1},\"response\":{}}\n\n",
    );
    assert!(done);
    let u = usage.expect("usage");
    assert_eq!(u.input(), 3);
    assert_eq!(u.output(), 1);
    let mut buf = Vec::new();
    let (_, done) = feed_sse(&mut buf, b"data: {\"a\":1}");
    assert!(!done);
    let (_, done) = feed_sse(&mut buf, b"\n\ndata: [DONE]\n\n");
    assert!(done);
}

#[test]
fn feed_sse_captures_nested_anthropic_message_usage() {
    let mut buf = Vec::new();
    let (usage, done) = feed_sse(
        &mut buf,
        b"event: message_start\ndata: {\"type\":\"message_start\",\"message\":{\"usage\":{\
          \"input_tokens\":10,\"output_tokens\":0,\"cache_creation_input_tokens\":5,\
          \"cache_read_input_tokens\":7}}}\n\n",
    );
    assert!(!done);
    let u = usage.expect("nested usage captured");
    assert_eq!(u.input_tokens, Some(10));
    assert_eq!(u.cache_write_tokens, Some(5));
    assert_eq!(u.cache_read_tokens, Some(7));
    let mut buf2 = Vec::new();
    let (usage2, _) = feed_sse(&mut buf2, b"data: {\"usage\":{\"prompt_tokens\":3,\"completion_tokens\":4}}\n\n");
    assert_eq!(usage2.expect("top-level usage").prompt_tokens, Some(3));
}

#[test]
fn parse_usage_of_a_body() {
    let u = parse_usage(br#"{"usage": {"prompt_tokens": 5, "completion_tokens": 1}}"#).unwrap();
    assert_eq!((u.input(), u.output()), (5, 1));
    assert!(parse_usage(br#"{"usage": {"prompt_tokens": "5"}}"#).is_none());
    assert!(parse_usage(b"not json").is_none());
}
