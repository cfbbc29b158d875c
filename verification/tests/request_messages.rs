use llm_gateway::codec::{parse_json, to_json_bytes};
use llm_gateway::convert_req::{input_item_to_chat_messages, request_messages_to_chat};
use llm_gateway::dto::MessageOut;
use llm_gateway::json::Json;
use llm_gateway::tool_ctx::ToolContext;
use serde_json::Value;

fn j(text: &str) -> Json {
    parse_json(text.as_bytes()).expect("valid JSON")
}

fn val(x: &Json) -> Value {
    serde_json::from_slice(&to_json_bytes(x)).unwrap()
}

fn messages(req: &str) -> Vec<MessageOut> {
    let r = j(req);
    request_messages_to_chat(&r, &ToolContext::from_request(&r)).unwrap()
}

fn content(m: &MessageOut) -> Value {
    val(m.content.as_ref().unwrap())
}

#[test]
fn input_string_is_one_user_message() {
    let ms = messages(r#"{"model": "m", "instructions": "be brief", "input": "hello"}"#);
    assert_eq!(ms.len(), 2);
    assert_eq!(ms[0].role, "system");
    assert_eq!(content(&ms[0]), Value::String("be brief".into()));
    assert_eq!(ms[1].role, "user");
    assert_eq!(content(&ms[1]), Value::String("hello".into()));
}

#[test]
fn tool_output_media_goes_to_a_user_message() {
    let ms = messages(
        r#"{"model": "m", "input": [
            {"type": "function_call", "call_id": "c1", "name": "screenshot", "arguments": "{}"},
            {"type": "function_call_output", "call_id": "c1", "output": [
                {"type": "input_text", "text": "captured"},
                {"type": "input_image", "image_url": "https://example.com/s.png"}
            ]}
        ]}"#,
    );
    assert_eq!(ms[0].role, "assistant");
    assert_eq!(ms[0].tool_calls[0].function.as_ref().unwrap().name, "screenshot");
    assert_eq!(ms[0].reasoning_content.as_deref(), Some("tool call"));
    assert_eq!(ms[1].role, "tool");
    assert_eq!(
        content(&ms[1]),
        Value::String("captured\n[gateway: tool result media moved to the following user message]".into())
    );
    assert_eq!(ms[2].role, "user");
    let parts = content(&ms[2]);
    assert_eq!(parts.as_array().unwrap().len(), 2);
    assert_eq!(parts[0]["type"], "text");
    assert_eq!(parts[1]["image_url"]["url"], "https://example.com/s.png");
}

#[test]
fn reasoning_attaches_forward_to_tool_call() {
    let ms = messages(
        r#"{"model": "m", "input": [
            {"type": "reasoning", "summary": [{"type": "summary_text", "text": "I should check weather"}]},
            {"type": "function_call", "call_id": "c1", "name": "get_weather", "arguments": ""}
        ]}"#,
    );
    assert_eq!(ms[0].reasoning_content.as_deref(), Some("I should check weather"));
    assert_eq!(ms[0].tool_calls[0].function.as_ref().unwrap().arguments, "{}");
}

#[test]
fn trailing_reasoning_goes_back_to_previous_assistant() {
    let ms = messages(
        r#"{"model": "m", "input": [
            {"type": "message", "role": "user", "content": "hi"},
            {"type": "message", "role": "assistant", "content": "hello"},
            {"type": "reasoning", "summary": [{"type": "summary_text", "text": "trailing thought"}]},
            {"type": "message", "role": "user", "content": "go on"}
        ]}"#,
    );
    assert_eq!(ms.len(), 3);
    assert_eq!(ms[1].reasoning_content.as_deref(), Some("trailing thought"));
}

#[test]
fn calls_of_custom_search_and_web_search() {
    let ms = messages(
        r#"{"model": "m", "input": [
            {"type": "custom_tool_call", "call_id": "c1", "name": "apply_patch", "input": "*** x"},
            {"type": "tool_search_call", "call_id": "c2", "arguments": {"query": "gmail"}},
            {"type": "web_search_call", "id": "ws1", "query": "rust", "results": [1]}
        ]}"#,
    );
    assert_eq!(ms[0].role, "assistant");
    let calls = &ms[0].tool_calls;
    assert_eq!(calls.len(), 3);
    assert_eq!(calls[0].function.as_ref().unwrap().arguments, "{\"input\":\"*** x\"}");
    assert_eq!(calls[1].function.as_ref().unwrap().name, "tool_search");
    assert_eq!(calls[1].function.as_ref().unwrap().arguments, "{\"query\":\"gmail\"}");
    assert_eq!(calls[2].id, "ws1");
    assert_eq!(calls[2].function.as_ref().unwrap().arguments, "{\"query\":\"rust\"}");
    assert_eq!(ms[1].role, "tool");
    assert_eq!(ms[1].tool_call_id.as_deref(), Some("ws1"));
    assert_eq!(content(&ms[1]), Value::String("[1]".into()));
}

#[test]
fn refusals_of_the_input() {
    let r = j(r#"{"input": 5}"#);
    assert_eq!(
        request_messages_to_chat(&r, &ToolContext::new()).err().unwrap(),
        "unsupported responses input type \"number\""
    );
    let r = j(r#"{"input": [{"type": "function_call", "name": " "}]}"#);
    assert_eq!(
        request_messages_to_chat(&r, &ToolContext::new()).err().unwrap(),
        "function_call item is missing name"
    );
}

#[test]
fn one_item_at_a_time() {
    let mut ms: Vec<MessageOut> = Vec::new();
    let mut pending: Option<String> = None;
    let mut media: Vec<Json> = Vec::new();
    let ctx = ToolContext::new();
    input_item_to_chat_messages(&j(r#"{"type": "reasoning", "content": "think"}"#), &mut ms, &mut pending, &mut media, &ctx).unwrap();
    assert!(ms.is_empty());
    assert_eq!(pending.as_deref(), Some("think"));
    input_item_to_chat_messages(&j(r#"{"type": "input_text", "text": "hi", "role": " user "}"#), &mut ms, &mut pending, &mut media, &ctx).unwrap();
    assert_eq!(ms.len(), 1);
    assert_eq!(ms[0].role, "user");
    assert!(pending.is_none());
}
