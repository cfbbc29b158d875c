use llm_gateway::codec::{parse_json, to_json_bytes};
use llm_gateway::dto::ChatStreamChunk;
use llm_gateway::json::Json;
use llm_gateway::stream_state::{synthesize_sse_from_chat_body, ChatToResponsesStreamState};
use llm_gateway::tool_ctx::ToolContext;
use serde_json::Value;

fn val(x: &Json) -> Value {
    serde_json::from_slice(&to_json_bytes(x)).unwrap()
}

fn chunk_with(delta: Value, finish: Option<&str>, usage: Option<Value>) -> ChatStreamChunk {
    let mut c: Value = serde_json::from_str(
        r#"{"id": "chatcmpl-1", "model": "stream-model", "created": 1700000000,
            "choices": [{"index": 0, "delta": {}, "finish_reason": null}]}"#,
    )
    .unwrap();
    c["choices"][0]["delta"] = delta;
    if let Some(f) = finish {
        c["choices"][0]["finish_reason"] = Value::String(f.into());
    }
    if let Some(u) = usage {
        c["usage"] = u;
    }
    ChatStreamChunk::from_json_str(&c.to_string()).unwrap()
}

fn text_chunk(content: &str, finish: Option<&str>) -> ChatStreamChunk {
    let mut d: Value = serde_json::from_str("{}").unwrap();
    d["content"] = Value::String(content.into());
    chunk_with(d, finish, None)
}

fn tool_delta(index: Option<i64>, id: &str, name: &str, args: Option<&str>) -> Value {
    let mut t: Value = serde_json::from_str(r#"{"type": "function", "function": {}}"#).unwrap();
    if let Some(i) = index {
        t["index"] = Value::from(i);
    }
    t["id"] = Value::String(id.into());
    t["function"]["name"] = Value::String(name.into());
    if let Some(a) = args {
        t["function"]["arguments"] = Value::String(a.into());
    }
    t
}

fn tools_chunk(calls: Vec<Value>, finish: Option<&str>) -> ChatStreamChunk {
    let mut d: Value = serde_json::from_str(r#"{"content": ""}"#).unwrap();
    d["tool_calls"] = Value::Array(calls);
    chunk_with(d, finish, None)
}

fn run(state: &mut ChatToResponsesStreamState, c: &ChatStreamChunk, ctx: &ToolContext) -> Vec<Value> {
    state.process_chunk(c, ctx).iter().map(val).collect()
}

fn fin(state: &mut ChatToResponsesStreamState) -> Vec<Value> {
    state.finalize().iter().map(val).collect()
}

fn ctx_of(req: &str) -> ToolContext {
    ToolContext::from_request(&parse_json(req.as_bytes()).unwrap())
}

fn new_state(model: &str) -> ChatToResponsesStreamState {
    ChatToResponsesStreamState::new("resp_fixed".into(), model.into(), 1)
}

#[test]
fn emits_created_then_text_deltas_then_terminal() {
    let ctx = ToolContext::new();
    let mut state = new_state("stream-model");
    let events = run(&mut state, &text_chunk("Hello", None), &ctx);
    assert_eq!(events.len(), 5);
    assert_eq!(events[0]["type"], "response.created");
    assert_eq!(events[0]["response"]["status"], "in_progress");
    assert_eq!(events[1]["type"], "response.in_progress");
    assert_eq!(events[2]["type"], "response.output_item.added");
    assert_eq!(events[2]["output_index"], 0);
    assert_eq!(events[3]["type"], "response.content_part.added");
    assert_eq!(events[3]["part"]["type"], "output_text");
    assert_eq!(events[4]["type"], "response.output_text.delta");
    assert_eq!(events[4]["delta"], "Hello");
    assert_eq!(events[4]["item_id"], "resp_fixed_msg_0");

    let events = run(&mut state, &text_chunk(" world", None), &ctx);
    assert_eq!(events.len(), 1);
    assert_eq!(events[0]["delta"], " world");

    let mut d: Value = serde_json::from_str(r#"{"content": ""}"#).unwrap();
    d["content"] = Value::String(String::new());
    let usage: Value = serde_json::from_str(r#"{"prompt_tokens": 4, "completion_tokens": 2, "total_tokens": 6}"#).unwrap();
    let events = run(&mut state, &chunk_with(d, Some("stop"), Some(usage)), &ctx);
    assert_eq!(events[0]["type"], "response.output_text.done");
    assert_eq!(events[1]["type"], "response.content_part.done");
    assert_eq!(events[1]["part"]["text"], "Hello world");
    assert_eq!(events[2]["type"], "response.output_item.done");
    assert_eq!(events[2]["item"]["content"][0]["text"], "Hello world");

    let events = fin(&mut state);
    assert_eq!(events.len(), 1);
    assert_eq!(events[0]["type"], "response.completed");
    let resp = &events[0]["response"];
    assert_eq!(resp["status"], "completed");
    assert_eq!(resp["output"][0]["content"][0]["text"], "Hello world");
    assert_eq!(resp["usage"]["input_tokens"], 4);
    assert_eq!(resp["usage"]["output_tokens"], 2);
    assert!(state.finalize().is_empty());
}

#[test]
fn emits_reasoning_before_text() {
    let ctx = ToolContext::new();
    let mut state = new_state("m");
    let d: Value = serde_json::from_str(r#"{"content": "", "reasoning_content": "Deep thought."}"#).unwrap();
    let events = run(&mut state, &chunk_with(d, Some("stop"), None), &ctx);
    assert_eq!(events[2]["type"], "response.output_item.added");
    assert_eq!(events[2]["item"]["type"], "reasoning");
    assert_eq!(events[3]["type"], "response.reasoning_summary_part.added");
    assert_eq!(events[4]["type"], "response.reasoning_summary_text.delta");
    assert_eq!(events[4]["delta"], "Deep thought.");
    assert_eq!(events[4]["summary_index"], 0);
    assert_eq!(events[5]["type"], "response.reasoning_summary_text.done");
    assert_eq!(events[5]["part"]["text"], "Deep thought.");
    assert_eq!(events[6]["type"], "response.reasoning_summary_part.done");
    assert_eq!(events[6]["part"]["text"], "Deep thought.");
    assert_eq!(events[7]["type"], "response.output_item.done");
    assert_eq!(events[7]["item"]["summary"][0]["text"], "Deep thought.");
}

#[test]
fn correlates_multi_tool_calls_by_index() {
    let ctx = ToolContext::new();
    let mut state = new_state("m");
    let events = run(&mut state, &tools_chunk(vec![tool_delta(Some(1), "call_2", "get_weather", Some("{\"city\":\"Paris\"}"))], None), &ctx);
    assert_eq!(events[2]["type"], "response.output_item.added");
    assert_eq!(events[2]["output_index"], 0);
    assert_eq!(events[2]["item"]["name"], "get_weather");
    assert_eq!(events[3]["type"], "response.function_call_arguments.delta");

    let events = run(&mut state, &tools_chunk(vec![tool_delta(Some(0), "call_1", "get_time", None)], None), &ctx);
    assert_eq!(events[0]["type"], "response.output_item.added");
    assert_eq!(events[0]["output_index"], 1);

    let events = run(&mut state, &tools_chunk(vec![], Some("tool_calls")), &ctx);
    assert_eq!(events[0]["type"], "response.function_call_arguments.done");
    assert_eq!(events[1]["type"], "response.output_item.done");
    assert_eq!(events[2]["type"], "response.function_call_arguments.done");
    assert_eq!(events[3]["type"], "response.output_item.done");

    let events = fin(&mut state);
    let resp = &events[0]["response"];
    assert_eq!(resp["output"].as_array().unwrap().len(), 2);
    assert_eq!(resp["output"][0]["name"], "get_weather");
    assert_eq!(resp["output"][0]["call_id"], "call_2");
    assert_eq!(resp["output"][0]["arguments"], Value::String("{\"city\":\"Paris\"}".into()));
    assert_eq!(resp["output"][1]["name"], "get_time");
}

#[test]
fn length_finish_reason_yields_incomplete_terminal() {
    let ctx = ToolContext::new();
    let mut state = new_state("m");
    let _ = run(&mut state, &text_chunk("partial", Some("length")), &ctx);
    let events = fin(&mut state);
    assert_eq!(events[0]["type"], "response.incomplete");
    let resp = &events[0]["response"];
    assert_eq!(resp["status"], "incomplete");
    assert_eq!(resp["incomplete_details"]["reason"], "max_output_tokens");
    assert_eq!(resp["output"][0]["status"], "incomplete");
}

#[test]
fn reasoning_alias_field_supported() {
    let ctx = ToolContext::new();
    let mut state = new_state("m");
    let d: Value = serde_json::from_str(r#"{"content": "", "reasoning": "Alias thought."}"#).unwrap();
    let events = run(&mut state, &chunk_with(d, Some("stop"), None), &ctx);
    assert_eq!(events[4]["type"], "response.reasoning_summary_text.delta");
    assert_eq!(events[4]["delta"], "Alias thought.");
    let events = fin(&mut state);
    assert_eq!(events[0]["response"]["output"][0]["summary"][0]["text"], "Alias thought.");
}

fn text_deltas(events: &[Value]) -> Vec<String> {
    events
        .iter()
        .filter(|e| e["type"] == "response.output_text.delta")
        .map(|e| e["delta"].as_str().unwrap().to_string())
        .collect()
}

#[test]
fn content_parts_array_delta_emits_text() {
    let ctx = ToolContext::new();
    let mut state = new_state("m");
    let d: Value = serde_json::from_str(r#"{"content": [{"type": "text", "text": "Hello "}]}"#).unwrap();
    assert_eq!(text_deltas(&run(&mut state, &chunk_with(d, None, None), &ctx)), vec!["Hello "]);
    let d: Value = serde_json::from_str(
        r#"{"content": [{"type": "text", "text": "world"}, {"type": "image_url", "image_url": {"url": "data:image/png;base64,xxx"}}]}"#,
    )
    .unwrap();
    assert_eq!(text_deltas(&run(&mut state, &chunk_with(d, Some("stop"), None), &ctx)), vec!["world"]);
    let events = fin(&mut state);
    assert_eq!(events[0]["response"]["output"][0]["content"][0]["text"], "Hello world");
}

#[test]
fn missing_index_with_distinct_ids_keeps_tools_separate() {
    let ctx = ToolContext::new();
    let mut state = new_state("m");
    let _ = run(&mut state, &tools_chunk(vec![tool_delta(None, "call_a", "read_file", Some("{\"path\":\"a\"}"))], None), &ctx);
    let events = run(&mut state, &tools_chunk(vec![tool_delta(None, "call_b", "exec_command", Some("{\"cmd\":\"ls\"}"))], Some("tool_calls")), &ctx);
    assert_eq!(events[0]["type"], "response.output_item.added");
    assert_eq!(events[0]["item"]["name"], "exec_command");
    let events = fin(&mut state);
    let resp = &events[0]["response"];
    assert_eq!(resp["output"].as_array().unwrap().len(), 2);
    assert_eq!(resp["output"][0]["call_id"], "call_a");
    assert_eq!(resp["output"][0]["arguments"], Value::String("{\"path\":\"a\"}".into()));
    assert_eq!(resp["output"][1]["call_id"], "call_b");
}

#[test]
fn inline_think_separated_into_reasoning() {
    let ctx = ToolContext::new();
    let mut state = new_state("m");
    let events = run(&mut state, &text_chunk("<think>hmm</think>Answer", Some("stop")), &ctx);
    let types: Vec<&str> = events.iter().map(|e| e["type"].as_str().unwrap()).collect();
    assert!(types.contains(&"response.reasoning_summary_text.delta"), "{types:?}");
    assert!(types.contains(&"response.output_text.delta"), "{types:?}");
    let reasoning = events.iter().find(|e| e["type"] == "response.reasoning_summary_text.delta").unwrap();
    assert_eq!(reasoning["delta"], "hmm");
    let text = events.iter().find(|e| e["type"] == "response.output_text.delta").unwrap();
    assert_eq!(text["delta"], "Answer");
    let events = fin(&mut state);
    let resp = &events[0]["response"];
    assert_eq!(resp["output"][0]["summary"][0]["text"], "hmm");
    assert_eq!(resp["output"][1]["content"][0]["text"], "Answer");
}

#[test]
fn synthesize_sse_from_valid_chat_body_and_rejects_error_body() {
    let body = br#"{"id": "chatcmpl-x", "object": "chat.completion", "model": "m",
        "choices": [{"index": 0, "message": {"role": "assistant", "content": "Hello world!"}, "finish_reason": "stop"}],
        "usage": {"prompt_tokens": 3, "completion_tokens": 4, "total_tokens": 7}}"#;
    let sse = synthesize_sse_from_chat_body(body, "resp_s", "m", &ToolContext::new(), 1).expect("synthesizable");
    assert!(sse.contains("event: response.created\n"));
    assert!(sse.contains("event: response.completed\n"));
    assert!(sse.contains("\"input_tokens\":3"));
    let err = br#"{"error": {"message": "bad"}, "choices": [{"index": 0}]}"#;
    assert!(synthesize_sse_from_chat_body(err, "r", "m", &ToolContext::new(), 1).is_none());
    assert!(synthesize_sse_from_chat_body(b"\xff", "r", "m", &ToolContext::new(), 1).is_none());
    assert!(synthesize_sse_from_chat_body(br#"{"choices": []}"#, "r", "m", &ToolContext::new(), 1).is_none());
}

#[test]
fn args_events_use_prefixed_item_id() {
    let ctx = ToolContext::new();
    let mut state = new_state("m");
    let events = run(&mut state, &tools_chunk(vec![tool_delta(Some(0), "call_1", "f", Some("{\"a\":1}"))], Some("tool_calls")), &ctx);
    let added = events.iter().find(|e| e["type"] == "response.output_item.added").expect("added emitted");
    assert_eq!(added["item"]["id"], "fc_call_1");
    let delta = events.iter().find(|e| e["type"] == "response.function_call_arguments.delta").expect("args delta emitted");
    assert_eq!(delta["item_id"], "fc_call_1");
    let final_events = fin(&mut state);
    let done = events
        .iter()
        .chain(final_events.iter())
        .find(|e| e["type"] == "response.function_call_arguments.done")
        .expect("args done emitted");
    assert_eq!(done["item_id"], "fc_call_1");
}

#[test]
fn refusal_delta_emits_text() {
    let ctx = ToolContext::new();
    let mut state = new_state("m");
    let d: Value = serde_json::from_str(r#"{"refusal": "I cannot help with that."}"#).unwrap();
    let events = run(&mut state, &chunk_with(d, None, None), &ctx);
    assert_eq!(text_deltas(&events), vec!["I cannot help with that."]);
}

#[test]
fn reasoning_attaches_to_function_call_item() {
    let ctx = ToolContext::new();
    let mut state = new_state("m");
    let d: Value = serde_json::from_str(r#"{"content": "", "reasoning_content": "need a tool"}"#).unwrap();
    run(&mut state, &chunk_with(d, None, None), &ctx);
    let events = run(&mut state, &tools_chunk(vec![tool_delta(Some(0), "call_1", "get_weather", Some("{}"))], None), &ctx);
    let added = events
        .iter()
        .find(|e| e["type"] == "response.output_item.added" && e["item"]["type"] == "function_call")
        .expect("function_call added");
    assert_eq!(added["item"]["reasoning_content"], "need a tool");
    assert!(events.iter().any(|e| e["type"] == "response.output_item.done" && e["item"]["type"] == "reasoning"));
}

#[test]
fn bridged_web_search_emits_web_search_call_item() {
    let ctx = ctx_of(r#"{"tools": [{"type": "web_search"}]}"#);
    let mut state = new_state("m");
    let events = run(&mut state, &tools_chunk(vec![tool_delta(Some(0), "call_ws", "web_search", Some("{\"query\":\"Rust asyn"))], None), &ctx);
    let added = events.iter().find(|e| e["type"] == "response.output_item.added").expect("added");
    assert_eq!(added["item"]["type"], "web_search_call");
    run(&mut state, &tools_chunk(vec![tool_delta(Some(0), "call_ws", "web_search", Some("c\"}"))], None), &ctx);
    let done_events = fin(&mut state);
    let done = done_events.iter().find(|e| e["type"] == "response.output_item.done").expect("done");
    assert_eq!(done["item"]["type"], "web_search_call");
    assert_eq!(done["item"]["query"], "Rust async");
}

#[test]
fn custom_tool_stream_emits_input_events() {
    let ctx = ctx_of(r#"{"tools": [{"type": "custom", "name": "apply_patch"}]}"#);
    let mut state = new_state("m");
    let events = run(&mut state, &tools_chunk(vec![tool_delta(Some(0), "call_7", "apply_patch", Some("{\"input\":\"patch body\"}"))], Some("tool_calls")), &ctx);
    let types: Vec<&str> = events.iter().map(|e| e["type"].as_str().unwrap()).collect();
    assert!(!types.contains(&"response.function_call_arguments.delta"), "{types:?}");
    assert!(types.contains(&"response.custom_tool_call_input.delta"), "{types:?}");
    assert!(types.contains(&"response.custom_tool_call_input.done"), "{types:?}");
    let added = events.iter().find(|e| e["type"] == "response.output_item.added").expect("added event");
    assert_eq!(added["item"]["type"], "custom_tool_call");
    assert_eq!(added["item"]["id"], "ctc_call_7");
    assert_eq!(added["item"]["input"], "");
    let done = events.iter().find(|e| e["type"] == "response.custom_tool_call_input.done").expect("done event");
    assert_eq!(done["input"], "patch body");
    assert_eq!(done["item_id"], "ctc_call_7");
    let final_events = fin(&mut state);
    let completed = final_events.iter().find(|e| e["type"] == "response.completed").expect("completed");
    assert_eq!(completed["response"]["output"][0]["type"], "custom_tool_call");
    assert_eq!(completed["response"]["output"][0]["input"], "patch body");
}

#[test]
fn truncated_stream_without_output_fails() {
    let mut state = new_state("m");
    let events: Vec<Value> = state.finalize_truncated().iter().map(val).collect();
    assert_eq!(events.len(), 1);
    assert_eq!(events[0]["type"], "response.failed");
    assert_eq!(events[0]["response"]["error"]["code"], "stream_truncated");
    let ctx = ToolContext::new();
    let mut state = new_state("m");
    run(&mut state, &text_chunk("partial", None), &ctx);
    let events: Vec<Value> = state.finalize_truncated().iter().map(val).collect();
    assert_eq!(events.last().unwrap()["type"], "response.incomplete");
    assert!(state.finalize().is_empty());
}

#[test]
fn nameless_tool_calls_fail_the_stream() {
    let ctx = ToolContext::new();
    let mut state = new_state("m");
    run(&mut state, &tools_chunk(vec![tool_delta(Some(0), "call_1", "", Some("{}"))], Some("tool_calls")), &ctx);
    let events = fin(&mut state);
    let last = events.last().unwrap();
    assert_eq!(last["type"], "response.failed");
    assert_eq!(last["response"]["error"]["code"], "upstream_tool_call_dropped");
    assert_eq!(last["response"]["output"], serde_json::from_str::<Value>("[]").unwrap());
}

#[test]
fn error_chunk_then_transport_error() {
    let ctx = ToolContext::new();
    let mut state = new_state("m");
    let c = ChatStreamChunk::from_json_str(r#"{"error": {"message": "upstream broke", "code": "x"}}"#).unwrap();
    assert!(run(&mut state, &c, &ctx).is_empty());
    assert!(state.has_failed());
    assert!(run(&mut state, &text_chunk("late", None), &ctx).is_empty());
    let events: Vec<Value> = state.record_transport_error("gone").iter().map(val).collect();
    assert_eq!(events.last().unwrap()["type"], "response.failed");
    assert_eq!(events.last().unwrap()["response"]["error"]["message"], "upstream broke");
}

#[test]
fn sse_frame_format_matches_new_api() {
    let ev = llm_gateway::stream_state::event(
        llm_gateway::stream_state::EventKind::TextDelta,
        None,
        Some("Hello".into()),
        None,
        Some(0),
        Some(0),
        None,
        Some("resp_msg_0".into()),
        None,
        None,
        None,
        None,
    );
    assert_eq!(
        llm_gateway::stream_state::sse_frame(&ev),
        "event: response.output_text.delta\ndata: {\"type\":\"response.output_text.delta\",\"delta\":\"Hello\",\"output_index\":0,\"content_index\":0,\"item_id\":\"resp_msg_0\"}\n\n"
    );
}
