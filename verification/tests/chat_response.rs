use llm_gateway::codec::{parse_json, to_json_bytes};
use llm_gateway::convert_resp::{
    canonicalize_json_string_if_parseable, chat_response_to_responses, split_leading_think,
};
use llm_gateway::json::Json;
use llm_gateway::tool_ctx::ToolContext;
use serde_json::Value;

fn v(text: &str) -> Value {
    serde_json::from_str(text).expect("valid JSON")
}

fn to_json(v: &Value) -> Json {
    parse_json(&serde_json::to_vec(v).unwrap()).unwrap()
}

fn ctx_of(req: &str) -> ToolContext {
    ToolContext::from_request(&to_json(&v(req)))
}

fn convert(resp: &Value, id: &str, ctx: &ToolContext) -> Value {
    let out = chat_response_to_responses(&to_json(resp), id, 0, ctx).unwrap();
    serde_json::from_slice(&to_json_bytes(&out)).unwrap()
}

fn chat_resp() -> Value {
    v(r#"{
        "id": "chatcmpl-fixed",
        "object": "chat.completion",
        "created": 1700000000,
        "model": "gpt-test",
        "choices": [{
            "index": 0,
            "message": {
                "role": "assistant",
                "content": "The answer is 42.",
                "reasoning_content": "Deep thought.",
                "tool_calls": [{"id": "call_abc", "type": "function",
                    "function": {"name": "get_weather", "arguments": "{\"city\":\"Paris\"}"}}]
            },
            "finish_reason": "tool_calls"
        }],
        "usage": {"prompt_tokens": 10, "completion_tokens": 5, "total_tokens": 15}
    }"#)
}

#[test]
fn converts_chat_response_to_responses() {
    let out = convert(&chat_resp(), "resp_fixed", &ToolContext::new());
    assert_eq!(out["id"], "resp_fixed");
    assert_eq!(out["object"], "response");
    assert_eq!(out["status"], "completed");
    assert_eq!(out["created_at"], 1700000000);
    assert_eq!(out["output"][0]["type"], "reasoning");
    assert_eq!(out["output"][0]["summary"][0]["text"], "Deep thought.");
    assert_eq!(out["output"][1]["type"], "message");
    assert_eq!(out["output"][1]["role"], "assistant");
    assert_eq!(out["output"][1]["id"], "resp_fixed_msg_0");
    assert_eq!(out["output"][1]["content"][0]["type"], "output_text");
    assert_eq!(out["output"][1]["content"][0]["text"], "The answer is 42.");
    assert_eq!(out["output"][1]["content"][0]["annotations"], v("[]"));
    assert_eq!(out["output"][0]["id"], "resp_fixed_reasoning_0");
    assert_eq!(out["output"][0]["summary"][0]["type"], "summary_text");
    assert_eq!(out["output"][0]["summary"][0]["text"], "Deep thought.");
    assert!(out["output"][0]["content"].as_array().unwrap().is_empty());
    assert_eq!(out["output"][2]["type"], "function_call");
    assert_eq!(out["output"][2]["call_id"], "call_abc");
    assert_eq!(out["output"][2]["name"], "get_weather");
    assert_eq!(out["output"][2]["arguments"], Value::String("{\"city\":\"Paris\"}".to_string()));
    assert_eq!(out["usage"]["input_tokens"], 10);
    assert_eq!(out["usage"]["output_tokens"], 5);
    assert_eq!(out["usage"]["prompt_tokens"], 10);
    assert_eq!(out["usage"]["completion_tokens"], 5);
    assert_eq!(out["usage"]["total_tokens"], 15);
    assert!(out.get("store").is_none());
    assert!(out["instructions"].is_null());
    assert!(out["previous_response_id"].is_null());
}

#[test]
fn maps_finish_reason_length_to_incomplete() {
    let mut resp = chat_resp();
    resp["choices"][0]["finish_reason"] = Value::String("length".into());
    resp["choices"][0]["message"]["content"] = Value::String("partial".into());
    let out = convert(&resp, "resp_x", &ToolContext::new());
    assert_eq!(out["status"], "incomplete");
    assert_eq!(out["incomplete_details"]["reason"], "max_output_tokens");
    assert_eq!(out["output"][0]["status"], "incomplete");
}

#[test]
fn fallback_call_id_and_arguments() {
    let mut resp = chat_resp();
    resp["choices"][0]["message"]["tool_calls"][0].as_object_mut().unwrap().remove("id");
    resp["choices"][0]["message"]["tool_calls"][0]["function"]["arguments"] = Value::String(String::new());
    let out = convert(&resp, "resp_x", &ToolContext::new());
    assert_eq!(out["output"][2]["id"], "fc_resp_x_call_0");
    assert_eq!(out["output"][2]["call_id"], "resp_x_call_0");
    assert_eq!(out["output"][2]["arguments"], Value::String(String::new()));
}

#[test]
fn empty_choices_still_valid() {
    let resp = v(r#"{"id": "x", "object": "chat.completion", "model": "m",
                    "choices": [], "usage": {"prompt_tokens": 1, "completion_tokens": 2}}"#);
    let out = convert(&resp, "resp_x", &ToolContext::new());
    assert_eq!(out["status"], "completed");
    assert_eq!(out["output"], v("[]"));
    assert_eq!(out["usage"]["input_tokens"], 1);
}

#[test]
fn tool_calls_finish_reason_not_overridden_by_stop() {
    let out = convert(&chat_resp(), "resp_fixed", &ToolContext::new());
    assert_eq!(out["status"], "completed");
}

#[test]
fn all_tool_calls_dropped_without_name_yields_failed() {
    let resp = v(r#"{
        "id": "chatcmpl-bad", "model": "m",
        "choices": [{
            "message": {"role": "assistant", "content": null,
                "tool_calls": [{"id": "call_1", "type": "function",
                    "function": {"name": "", "arguments": "{}"}}]},
            "finish_reason": "tool_calls"
        }],
        "usage": {"prompt_tokens": 1, "completion_tokens": 1}
    }"#);
    let out = convert(&resp, "resp_x", &ToolContext::new());
    assert_eq!(out["status"], "failed");
    assert_eq!(out["error"]["code"], "upstream_tool_call_dropped");
    assert_eq!(out["output"], v("[]"));
}

#[test]
fn dropped_tools_tolerated_when_text_present() {
    let resp = v(r#"{
        "id": "c", "model": "m",
        "choices": [{
            "message": {"role": "assistant", "content": "answer",
                "tool_calls": [{"id": "call_1", "type": "function",
                    "function": {"name": "", "arguments": "{}"}}]},
            "finish_reason": "stop"
        }],
        "usage": null
    }"#);
    let out = convert(&resp, "resp_x", &ToolContext::new());
    assert_eq!(out["status"], "completed");
    assert_eq!(out["output"].as_array().unwrap().len(), 1);
    assert_eq!(out["output"][0]["type"], "message");
}

#[test]
fn usage_cache_buckets_normalized() {
    let resp = v(r#"{
        "id": "c", "model": "m",
        "choices": [{"message": {"role": "assistant", "content": "x"}, "finish_reason": "stop"}],
        "usage": {"prompt_tokens": 100, "completion_tokens": 5,
                  "prompt_tokens_details": {"cached_tokens": 60}}
    }"#);
    let out = convert(&resp, "resp_x", &ToolContext::new());
    assert_eq!(out["usage"]["input_tokens_details"]["cached_tokens"], 60);
    let resp = v(r#"{
        "id": "c", "model": "m",
        "choices": [{"message": {"role": "assistant", "content": "x"}, "finish_reason": "stop"}],
        "usage": {"prompt_tokens": 100, "completion_tokens": 5, "prompt_cache_hit_tokens": 40}
    }"#);
    let out = convert(&resp, "resp_x", &ToolContext::new());
    assert_eq!(out["usage"]["input_tokens_details"]["cached_tokens"], 40);
    let resp = v(r#"{
        "id": "c", "model": "m",
        "choices": [{"message": {"role": "assistant", "content": "x"}, "finish_reason": "stop"}],
        "usage": {"prompt_tokens": 100, "completion_tokens": 5,
                  "cache_read_input_tokens": 70, "cache_creation_input_tokens": 10}
    }"#);
    let out = convert(&resp, "resp_x", &ToolContext::new());
    assert_eq!(out["usage"]["input_tokens_details"]["cached_tokens"], 70);
    assert_eq!(out["usage"]["input_tokens_details"]["cache_write_tokens"], 10);
}

#[test]
fn refusal_fallback_when_content_empty() {
    let resp = v(r#"{
        "id": "c", "model": "m",
        "choices": [{"message": {"role": "assistant", "content": null, "refusal": "cannot help"}, "finish_reason": "stop"}]
    }"#);
    let out = convert(&resp, "resp_x", &ToolContext::new());
    assert_eq!(out["output"][0]["content"][0]["text"], "cannot help");
}

#[test]
fn custom_tool_call_restored_from_downgraded_function() {
    let resp = v(r#"{
        "id": "c1", "object": "chat.completion", "created": 1, "model": "m",
        "choices": [{"message": {"role": "assistant", "content": null,
            "tool_calls": [{"id": "call_9", "type": "function",
                "function": {"name": "apply_patch", "arguments": "{\"input\":\"*** patch ***\"}"}}]},
            "finish_reason": "tool_calls"}],
        "usage": {"prompt_tokens": 1, "completion_tokens": 1}
    }"#);
    let out = convert(&resp, "resp_x", &ctx_of(r#"{"tools": [{"type": "custom", "name": "apply_patch"}]}"#));
    assert_eq!(out["output"][0]["type"], "custom_tool_call");
    assert_eq!(out["output"][0]["id"], "ctc_call_9");
    assert_eq!(out["output"][0]["call_id"], "call_9");
    assert_eq!(out["output"][0]["name"], "apply_patch");
    assert_eq!(out["output"][0]["input"], "*** patch ***");
    assert!(out["output"][0].get("arguments").is_none());
    let out2 = convert(&resp, "resp_x", &ToolContext::new());
    assert_eq!(out2["output"][0]["type"], "function_call");
    assert_eq!(out2["output"][0]["arguments"], Value::String("{\"input\":\"*** patch ***\"}".into()));
}

#[test]
fn leading_think_block_split_nonstream() {
    let resp = v(r#"{
        "id": "c1", "object": "chat.completion", "created": 1, "model": "m",
        "choices": [{"message": {"role": "assistant",
            "content": "<think>step by step</think>The answer."}, "finish_reason": "stop"}],
        "usage": {"prompt_tokens": 1, "completion_tokens": 1}
    }"#);
    let out = convert(&resp, "resp_x", &ToolContext::new());
    let types: Vec<&str> = out["output"].as_array().unwrap().iter().map(|i| i["type"].as_str().unwrap()).collect();
    assert_eq!(types, vec!["reasoning", "message"]);
    assert_eq!(out["output"][0]["summary"][0]["text"], "step by step");
    assert_eq!(out["output"][1]["content"][0]["text"], "The answer.");
}

#[test]
fn reasoning_details_alias_extracted() {
    let resp = v(r#"{
        "id": "c1", "object": "chat.completion", "created": 1, "model": "grok-4",
        "choices": [{"message": {"role": "assistant", "content": "hi",
            "reasoning_details": [{"type": "reasoning_text", "text": "ponder"}]},
            "finish_reason": "stop"}],
        "usage": {"prompt_tokens": 1, "completion_tokens": 1}
    }"#);
    let out = convert(&resp, "resp_x", &ToolContext::new());
    assert_eq!(out["output"][0]["type"], "reasoning");
    assert_eq!(out["output"][0]["summary"][0]["text"], "ponder");
}

#[test]
fn tool_search_proxy_call_restored() {
    let ctx = ctx_of(r#"{"model": "m", "tools": [{"type": "tool_search"}]}"#);
    let resp = v(r#"{
        "model": "m",
        "choices": [{"message": {"role": "assistant", "content": null,
            "tool_calls": [{"id": "c2", "type": "function",
                "function": {"name": "tool_search", "arguments": "{\"query\":\"gmail\"}"}}]},
            "finish_reason": "tool_calls"}]
    }"#);
    let out = convert(&resp, "r2", &ctx);
    assert_eq!(out["output"][0]["type"], "tool_search_call");
    assert_eq!(out["output"][0]["execution"], "client");
    assert_eq!(out["output"][0]["arguments"], v(r#"{"query": "gmail"}"#));
    assert_eq!(out["output"][0]["call_id"], "c2");
}

#[test]
fn namespaced_call_restores_name_and_namespace() {
    let ctx = ctx_of(r#"{"model": "m", "tools": [{"type": "namespace", "name": "mcp__s", "tools": [
        {"type": "function", "name": "q", "parameters": {"type": "object"}}]}]}"#);
    let resp = v(r#"{
        "model": "m",
        "choices": [{"message": {"role": "assistant", "content": null,
            "tool_calls": [{"id": "c1", "type": "function",
                "function": {"name": "mcp__s__q", "arguments": "{\"k\":1}"}}]},
            "finish_reason": "tool_calls"}]
    }"#);
    let out = convert(&resp, "r1", &ctx);
    assert_eq!(out["output"][0]["type"], "function_call");
    assert_eq!(out["output"][0]["name"], "q");
    assert_eq!(out["output"][0]["namespace"], "mcp__s");
    assert_eq!(out["output"][0]["id"], "fc_c1");
}

#[test]
fn legacy_function_call_becomes_item() {
    let resp = v(r#"{
        "model": "m",
        "choices": [{"message": {"role": "assistant", "content": null,
            "function_call": {"name": " lookup ", "arguments": {"b": 2, "a": 1}}},
            "finish_reason": "function_call"}]
    }"#);
    let out = convert(&resp, "r9", &ToolContext::new());
    assert_eq!(out["output"][0]["type"], "function_call");
    assert_eq!(out["output"][0]["name"], "lookup");
    assert_eq!(out["output"][0]["call_id"], "r9_call_0");
    assert_eq!(out["output"][0]["arguments"], Value::String("{\"a\":1,\"b\":2}".into()));
    assert_eq!(out["usage"]["total_tokens"], 0);
    assert_eq!(out["usage"]["input_tokens_details"]["cached_tokens"], 0);
}

#[test]
fn think_split_and_canonical_arguments() {
    assert_eq!(
        split_leading_think("  <think> a b </think> rest"),
        Some(("a b".to_string(), " rest".to_string()))
    );
    assert_eq!(split_leading_think("no <think>x</think>"), None);
    assert_eq!(split_leading_think("<think>open"), None);
    assert_eq!(canonicalize_json_string_if_parseable("{\"b\": 1, \"a\": [1, 2]}"), "{\"a\":[1,2],\"b\":1}");
    assert_eq!(canonicalize_json_string_if_parseable("not json"), "not json");
}
