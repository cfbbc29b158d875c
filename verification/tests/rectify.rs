use llm_gateway::codec::parse_json;
use llm_gateway::rectify::{
    extract_error_text, is_rectifiable_status, is_thinking_budget_error, is_thinking_error,
    is_unsupported_image_error, raise_thinking_budget, rectify_outbound, strip_media_outbound,
};
use serde_json::Value;

fn err(msg: &str) -> Vec<u8> {
    let mut m = serde_json::Map::new();
    m.insert("message".to_string(), Value::String(msg.to_string()));
    let mut e = serde_json::Map::new();
    e.insert("error".to_string(), Value::Object(m));
    Value::Object(e).to_string().into_bytes()
}

fn bytes(text: &str) -> Vec<u8> {
    let v: Value = serde_json::from_str(text).expect("valid JSON");
    v.to_string().into_bytes()
}

#[test]
fn media_downgrade_replaces_image_parts() {
    let outbound = bytes(
        r#"{"model": "text-only", "messages": [{"role": "user", "content": [{"type": "text", "text": "hi"}, {"type": "image_url", "image_url": {"url": "data:image/png;base64,xxx"}}]}]}"#,
    );
    let fixed = rectify_outbound(false, &outbound, &err("Image input is not supported for this model"), 400)
        .expect("rectifiable");
    let v: Value = serde_json::from_slice(&fixed).unwrap();
    assert_eq!(v["messages"][0]["content"][1]["type"], "text");
    assert_eq!(v["messages"][0]["content"][1]["text"], "[Unsupported Image]");
}

#[test]
fn text_only_self_evident_error_triggers_without_image_word() {
    let outbound = bytes(
        r#"{"model": "m", "messages": [{"role": "user", "content": [{"type": "text", "text": "hi"}, {"type": "image_url", "image_url": {"url": "https://x/y.png"}}]}]}"#,
    );
    assert!(rectify_outbound(false, &outbound, &err("Model only support text input"), 400).is_some());
}

#[test]
fn unrelated_error_not_rectified() {
    let outbound = bytes(r#"{"model": "m", "messages": []}"#);
    assert!(rectify_outbound(false, &outbound, &err("invalid model name"), 400).is_none());
    let no_image = bytes(r#"{"model": "m", "messages": [{"role": "user", "content": "hi"}]}"#);
    assert!(rectify_outbound(false, &no_image, &err("image not supported"), 400).is_none());
}

#[test]
fn thinking_strip_for_anthropic_native_only() {
    let outbound = bytes(
        r#"{"model": "sonnet-x", "thinking": {"type": "enabled", "budget_tokens": 1024}, "messages": [{"role": "user", "content": "q"}, {"role": "assistant", "content": [{"type": "thinking", "thinking": "hmm", "signature": "sig"}, {"type": "tool_use", "id": "t1", "name": "f", "input": {}}]}]}"#,
    );
    let fixed = rectify_outbound(true, &outbound, &err("Invalid 'signature' in 'thinking' block"), 400)
        .expect("rectifiable");
    let v: Value = serde_json::from_slice(&fixed).unwrap();
    let content = v["messages"][1]["content"].as_array().unwrap();
    assert_eq!(content.len(), 1);
    assert_eq!(content[0]["type"], "tool_use");
    assert!(v.get("thinking").is_none());
    assert!(rectify_outbound(false, &outbound, &err("Invalid 'signature' in 'thinking' block"), 400).is_none());
}

#[test]
fn must_start_with_thinking_error_strips_blocks() {
    let outbound = bytes(
        r#"{"thinking": {"type": "enabled", "budget_tokens": 512}, "messages": [{"role": "assistant", "content": [{"type": "text", "text": "prev"}]}]}"#,
    );
    let fixed = rectify_outbound(true, &outbound, &err("messages: text content blocks must start with a thinking block"), 400)
        .expect("rectifiable");
    let v: Value = serde_json::from_slice(&fixed).unwrap();
    assert!(v.get("thinking").is_none());
}

#[test]
fn thinking_budget_rectifier_raises_budget() {
    let outbound = bytes(
        r#"{"model": "sonnet-x", "thinking": {"type": "enabled", "budget_tokens": 512}, "max_tokens": 1024, "messages": [{"role": "user", "content": "q"}]}"#,
    );
    let fixed = rectify_outbound(true, &outbound, &err("thinking.budget_tokens must be at least 14000"), 400)
        .expect("budget rectifiable");
    let v: Value = serde_json::from_slice(&fixed).unwrap();
    assert_eq!(v["thinking"]["budget_tokens"], 32000);
    assert_eq!(v["max_tokens"], 64000);
    assert!(rectify_outbound(false, &outbound, &err("thinking.budget_tokens must be at least 14000"), 400).is_none());
    let ok_outbound = bytes(
        r#"{"model": "sonnet-x", "thinking": {"type": "enabled", "budget_tokens": 32000}, "max_tokens": 64000, "messages": [{"role": "user", "content": "q"}]}"#,
    );
    assert!(
        rectify_outbound(true, &ok_outbound, &err("thinking.budget_tokens must be at least 14000"), 400).is_none(),
        "already compliant: no retry"
    );
}

#[test]
fn thinking_budget_error_shape_matching() {
    assert!(is_thinking_budget_error("max_tokens must be greater than thinking.budget_tokens"));
    assert!(is_thinking_budget_error("thinking.budget_tokens must be >= 1024"));
    assert!(is_thinking_budget_error("budget_tokens is less than the minimum allowed value"));
    assert!(!is_thinking_budget_error("invalid signature in thinking block"));
    assert!(!is_thinking_budget_error("budget_tokens"));
}

#[test]
fn only_client_error_statuses_rectify() {
    assert!(is_rectifiable_status(400));
    assert!(is_rectifiable_status(413));
    assert!(is_rectifiable_status(415));
    assert!(is_rectifiable_status(422));
    assert!(!is_rectifiable_status(500));
    let outbound = bytes(r#"{"messages": [{"role": "user", "content": [{"type": "image_url"}]}]}"#);
    assert!(rectify_outbound(false, &outbound, &err("image not supported"), 500).is_none());
}

#[test]
fn error_text_sources() {
    assert_eq!(extract_error_text(br#"{"error": {"message": "a"}}"#), "a");
    assert_eq!(extract_error_text(br#"{"message": "b"}"#), "b");
    assert_eq!(extract_error_text(br#"{"detail": "c"}"#), "c");
    assert_eq!(extract_error_text(b"plain text"), "plain text");
    assert_eq!(extract_error_text(br#"{"other": 1}"#), r#"{"other": 1}"#);
}

#[test]
fn error_classifiers() {
    assert!(is_unsupported_image_error("Image input is not supported"));
    assert!(!is_unsupported_image_error("rate limited"));
    assert!(is_thinking_error("Invalid 'signature' in 'thinking' block"));
    assert!(!is_thinking_error("invalid model name"));
}

#[test]
fn responses_input_images_and_proactive_strip() {
    let outbound = bytes(r#"{"input": [{"type": "input_image", "image_url": "x"}, {"type": "input_text", "text": "t"}]}"#);
    let fixed = strip_media_outbound(&outbound).expect("has an image");
    let v: Value = serde_json::from_slice(&fixed).unwrap();
    assert_eq!(v["input"][0]["type"], "input_text");
    assert_eq!(v["input"][0]["text"], "[Unsupported Image]");
    assert_eq!(v["input"][1]["text"], "t");
    assert!(strip_media_outbound(&bytes(r#"{"messages": []}"#)).is_none());
    assert!(strip_media_outbound(b"not json").is_none());
}

#[test]
fn budget_raise_needs_enabled_thinking() {
    let mut b = parse_json(br#"{"thinking": {"type": "disabled"}, "max_tokens": 10}"#).unwrap();
    assert!(!raise_thinking_budget(&mut b));
    let mut b = parse_json(br#"{"thinking": {"type": "enabled"}}"#).unwrap();
    assert!(raise_thinking_budget(&mut b));
    let v: Value = serde_json::from_slice(&llm_gateway::codec::to_json_bytes(&b)).unwrap();
    assert_eq!(v["thinking"]["budget_tokens"], 32000);
    assert_eq!(v["max_tokens"], 64000);
}
