use llm_gateway::codec::{parse_json, to_json_bytes};
use llm_gateway::convert_req::responses_request_to_chat;
use llm_gateway::convert_resp::chat_response_to_responses;
use llm_gateway::json::Json;
use llm_gateway::tool_ctx::ToolContext;
use serde_json::Value;

fn j(v: &Value) -> Json {
    parse_json(&serde_json::to_vec(v).unwrap()).unwrap()
}

fn v(text: &str) -> Value {
    serde_json::from_str(text).unwrap()
}

fn val(x: &Json) -> Value {
    serde_json::from_slice(&to_json_bytes(x)).unwrap()
}

fn convert(req: &Value, model: &str) -> Result<Value, String> {
    responses_request_to_chat(&j(req), model).map(|o| val(&o))
}

#[test]
fn converts_rich_responses_request_to_chat() {
    let req = v(r#"{
        "model": "gpt-test",
        "stream": true,
        "max_output_tokens": 1024,
        "instructions": "You are a helpful assistant.",
        "input": [
            {"type": "message", "role": "user", "content": [
                {"type": "input_text", "text": "What is in this image?"},
                {"type": "input_image", "image_url": "https://example.com/cat.png"}
            ]},
            {"type": "function_call", "call_id": "call_abc", "name": "get_weather", "arguments": "{\"city\":\"Paris\"}"},
            {"type": "function_call_output", "call_id": "call_abc", "output": "15 degrees"}
        ],
        "tools": [{"type": "function", "name": "get_weather", "description": "Get weather by city",
            "parameters": {"type": "object", "properties": {"city": {"type": "string"}}, "required": ["city"]}}]
    }"#);
    let out = convert(&req, "gpt-test").expect("convert");
    assert_eq!(out["model"], "gpt-test");
    assert_eq!(out["stream"], v("true"));
    assert_eq!(out["max_tokens"], v("1024"));
    assert!(out.get("max_completion_tokens").is_none());
    let mut o_req = req.clone();
    o_req["model"] = Value::String("openai/o3-mini".into());
    let o_out = convert(&o_req, "openai/o3-mini").unwrap();
    assert_eq!(o_out["max_completion_tokens"], v("1024"));
    assert!(o_out.get("max_tokens").is_none());
    assert_eq!(out["messages"][0], v(r#"{"role": "system", "content": "You are a helpful assistant."}"#));
    assert_eq!(out["messages"][1]["content"][0], v(r#"{"type": "text", "text": "What is in this image?"}"#));
    assert_eq!(
        out["messages"][1]["content"][1],
        v(r#"{"type": "image_url", "image_url": {"url": "https://example.com/cat.png"}}"#)
    );
    let assistant = &out["messages"][2];
    assert_eq!(assistant["role"], "assistant");
    assert!(assistant["content"].is_null());
    assert_eq!(
        assistant["tool_calls"][0],
        v(r#"{"id": "call_abc", "type": "function", "function": {"name": "get_weather", "arguments": "{\"city\":\"Paris\"}"}}"#)
    );
    assert_eq!(assistant["reasoning_content"], "tool call");
    assert_eq!(out["messages"][3], v(r#"{"role": "tool", "tool_call_id": "call_abc", "content": "15 degrees"}"#));
    assert_eq!(
        out["tools"][0],
        v(r#"{"type": "function", "function": {
            "name": "get_weather",
            "description": "Get weather by city",
            "parameters": {"type": "object", "properties": {"city": {"type": "string"}}, "required": ["city"]}
        }}"#)
    );
}

#[test]
fn input_string_becomes_user_message() {
    let out = convert(&v(r#"{"model": "m", "input": "hello"}"#), "m").unwrap();
    assert_eq!(out["messages"][0], v(r#"{"role": "user", "content": "hello"}"#));
}

#[test]
fn rejects_missing_model() {
    assert_eq!(convert(&v(r#"{"input": "hi"}"#), "").unwrap_err(), "model is required");
}

#[test]
fn maps_tool_choice_function() {
    let out = convert(
        &v(r#"{"model": "m", "input": "hi", "tools": [{"type": "function", "name": "get_weather"}],
              "tool_choice": {"type": "function", "name": "get_weather"}}"#),
        "m",
    )
    .unwrap();
    assert_eq!(out["tool_choice"], v(r#"{"type": "function", "function": {"name": "get_weather"}}"#));
}

#[test]
fn empty_tools_strips_tool_choice_and_parallel_tool_calls() {
    let out = convert(&v(r#"{"model": "m", "input": "hi", "tool_choice": "auto", "parallel_tool_calls": true}"#), "m").unwrap();
    assert!(out.get("tool_choice").is_none());
    assert!(out.get("parallel_tool_calls").is_none());
}

#[test]
fn maps_text_format_json_schema() {
    let out = convert(
        &v(r#"{"model": "m", "input": "hi", "text": {"format": {"type": "json_schema", "name": "weather",
            "schema": {"type": "object"}, "strict": true}}}"#),
        "m",
    )
    .unwrap();
    assert_eq!(out["response_format"]["type"], "json_schema");
    assert_eq!(out["response_format"]["json_schema"]["name"], "weather");
    assert_eq!(out["response_format"]["json_schema"]["strict"], true);
}

#[test]
fn reasoning_effort_model_family_gating() {
    let gpt5 = convert(&v(r#"{"model": "gpt-5.1", "input": "hi", "reasoning": {"effort": "high"}}"#), "gpt-5.1").unwrap();
    assert_eq!(gpt5["reasoning_effort"], "high");
    let none = convert(&v(r#"{"model": "gpt-5.1", "input": "hi", "reasoning": {"effort": "none"}}"#), "gpt-5.1").unwrap();
    assert_eq!(none.get("reasoning_effort"), Some(&Value::String("none".into())));
    let deepseek = convert(&v(r#"{"model": "deepseek-chat", "input": "hi", "reasoning": {"effort": "high"}}"#), "deepseek-chat").unwrap();
    assert!(deepseek.get("reasoning_effort").is_none());
}

#[test]
fn passthrough_sampling_fields() {
    let out = convert(
        &v(r#"{"model": "m", "input": "hi", "frequency_penalty": 0.5, "presence_penalty": 0.1,
              "logit_bias": {"50256": -100}, "logprobs": true, "n": 2, "seed": 42, "stop": ["\n\n"]}"#),
        "m",
    )
    .unwrap();
    assert_eq!(out["frequency_penalty"], v("0.5"));
    assert_eq!(out["presence_penalty"], v("0.1"));
    assert_eq!(out["logit_bias"], v(r#"{"50256": -100}"#));
    assert_eq!(out["logprobs"], v("true"));
    assert_eq!(out["n"], v("2"));
    assert_eq!(out["seed"], v("42"));
    assert_eq!(out["stop"], v(r#"["\n\n"]"#));
}

#[test]
fn custom_tool_round_trip() {
    let req = v(r#"{
        "model": "m",
        "input": [
            {"type": "custom_tool_call", "call_id": "cust_1", "name": "apply_patch", "input": "*** Begin Patch\n*** End Patch"},
            {"type": "custom_tool_call_output", "call_id": "cust_1", "output": "Done!"}
        ],
        "tools": [{"type": "custom", "name": "apply_patch", "description": "Apply a patch", "format": {"type": "text"}}]
    }"#);
    let out = convert(&req, "gpt-test").unwrap();
    let assistant = &out["messages"][0];
    assert_eq!(assistant["role"], "assistant");
    assert_eq!(assistant["tool_calls"][0]["type"], "function");
    assert_eq!(assistant["tool_calls"][0]["id"], "cust_1");
    assert_eq!(
        assistant["tool_calls"][0]["function"]["arguments"],
        Value::String("{\"input\":\"*** Begin Patch\\n*** End Patch\"}".into())
    );
    let tool_msg = &out["messages"][1];
    assert_eq!(tool_msg["role"], "tool");
    assert_eq!(tool_msg["tool_call_id"], "cust_1");
    let content = tool_msg["content"].as_str().unwrap();
    assert!(content.contains("\"output\":\"Done!\""), "content={content}");
    assert!(content.contains("custom_tool_call_output"));
    let tool_def = &out["tools"][0];
    assert_eq!(tool_def["type"], "function");
    assert_eq!(tool_def["function"]["name"], "apply_patch");
    let desc = tool_def["function"]["description"].as_str().unwrap();
    assert!(desc.contains("Original tool definition:"));
    assert!(desc.contains("apply_patch"));
    assert_eq!(tool_def["function"]["parameters"]["required"], v(r#"["input"]"#));
}

#[test]
fn function_call_output_media_extracted() {
    let req = v(r#"{"model": "m", "input": [
        {"type": "function_call", "call_id": "c1", "name": "screenshot", "arguments": "{}"},
        {"type": "function_call_output", "call_id": "c1", "output": [
            {"type": "input_text", "text": "captured"},
            {"type": "input_image", "image_url": "https://example.com/s.png"}
        ]}
    ]}"#);
    let out = convert(&req, "gpt-test").unwrap();
    let msgs = out["messages"].as_array().unwrap();
    assert_eq!(msgs[1]["role"], "tool");
    assert_eq!(msgs[1]["content"], "captured\n[gateway: tool result media moved to the following user message]");
    assert_eq!(msgs[2]["role"], "user");
    assert_eq!(msgs[2]["content"].as_array().unwrap().len(), 2);
    assert_eq!(msgs[2]["content"][0]["type"], "text");
    assert_eq!(msgs[2]["content"][1], v(r#"{"type": "image_url", "image_url": {"url": "https://example.com/s.png"}}"#));
}

#[test]
fn reasoning_item_attaches_forward_to_tool_call() {
    let req = v(r#"{"model": "m", "input": [
        {"type": "reasoning", "summary": [{"type": "summary_text", "text": "I should check weather"}]},
        {"type": "function_call", "call_id": "c1", "name": "get_weather", "arguments": "{}"}
    ]}"#);
    let out = convert(&req, "gpt-test").unwrap();
    assert_eq!(out["messages"][0]["reasoning_content"], "I should check weather");
}

#[test]
fn trailing_reasoning_backfills_to_previous_assistant() {
    let req = v(r#"{"model": "m", "input": [
        {"type": "message", "role": "user", "content": "hi"},
        {"type": "message", "role": "assistant", "content": "hello"},
        {"type": "reasoning", "summary": [{"type": "summary_text", "text": "trailing thought"}]},
        {"type": "message", "role": "user", "content": "go on"}
    ]}"#);
    let out = convert(&req, "gpt-test").unwrap();
    let msgs = out["messages"].as_array().unwrap();
    assert_eq!(msgs.len(), 3);
    assert_eq!(msgs[1]["reasoning_content"], "trailing thought");
}

#[test]
fn web_search_bridge_request_conversion() {
    let req = v(r#"{"model": "m", "instructions": "s", "input": [
        {"type": "message", "role": "user", "content": "find it"},
        {"type": "web_search_call", "id": "ws_1", "status": "completed", "query": "Rust async",
         "results": [{"url": "https://x", "title": "t", "text": "body"}]}
    ], "tools": [{"type": "web_search"}]}"#);
    let out = convert(&req, "gpt-test").unwrap();
    assert_eq!(out["tools"][0]["function"]["name"], "web_search");
    assert_eq!(out["tools"][0]["function"]["parameters"]["required"], v(r#"["query"]"#));
    let msgs = out["messages"].as_array().unwrap();
    let call_msg = msgs.iter().find(|m| m["role"] == "assistant" && !m["tool_calls"].is_null());
    assert!(call_msg.is_some());
    let tc = &call_msg.unwrap()["tool_calls"][0];
    assert_eq!(tc["id"], "ws_1");
    assert_eq!(tc["function"]["name"], "web_search");
    assert_eq!(tc["function"]["arguments"], "{\"query\":\"Rust async\"}");
    let tool_msg = msgs.iter().find(|m| m["role"] == "tool").expect("tool receipt");
    assert_eq!(tool_msg["tool_call_id"], "ws_1");
    assert!(tool_msg["content"].as_str().unwrap().contains("https://x"));
}

#[test]
fn request_bridges_web_search_detection() {
    assert!(ToolContext::from_request(&j(&v(r#"{"tools": [{"type": "web_search"}]}"#))).bridges_web());
    assert!(!ToolContext::from_request(&j(&v(r#"{"tools": [{"type": "function", "name": "f"}]}"#))).bridges_web());
    assert!(!ToolContext::from_request(&j(&v("{}"))).bridges_web());
}

#[test]
fn namespace_tool_round_trips() {
    let req = v(r#"{"model": "m", "tools": [{"type": "namespace", "name": "mcp__s", "tools": [
        {"type": "function", "name": "q", "parameters": {"type": "object"}}]}]}"#);
    let ctx = ToolContext::from_request(&j(&req));
    let chat = convert(&req, "m").unwrap();
    assert_eq!(chat["tools"][0]["function"]["name"], "mcp__s__q");
    let resp = v(r#"{"model": "m", "choices": [{"message": {"role": "assistant", "content": null,
        "tool_calls": [{"id": "c1", "type": "function", "function": {"name": "mcp__s__q", "arguments": "{\"k\":1}"}}]},
        "finish_reason": "tool_calls"}]}"#);
    let out = val(&chat_response_to_responses(&j(&resp), "r1", 0, &ctx).unwrap());
    assert_eq!(out["output"][0]["type"], "function_call");
    assert_eq!(out["output"][0]["name"], "q");
    assert_eq!(out["output"][0]["namespace"], "mcp__s");
    assert_eq!(out["output"][0]["id"], "fc_c1");
}

#[test]
fn tool_choice_custom_mapped_to_function() {
    let req = v(r#"{"model": "m", "tools": [{"type": "custom", "name": "apply_patch"}],
        "tool_choice": {"type": "custom", "name": "apply_patch"}}"#);
    let chat = convert(&req, "m").unwrap();
    assert_eq!(chat["tool_choice"], v(r#"{"type": "function", "function": {"name": "apply_patch"}}"#));
}
