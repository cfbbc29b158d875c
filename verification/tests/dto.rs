use llm_gateway::dto::{empty_annotations, output_item, summary_part};
use llm_gateway::dto::nonzero_input_details;
use llm_gateway::codec::parse_json;
use llm_gateway::dto::{
    arguments_string, custom_tool_input_from_chat_arguments, delta_content_text, delta_reasoning_text, json_type_name, present,
    value_to_string, ChatStreamChunk, Usage,
};
use llm_gateway::json::Json;

fn j(text: &str) -> Json {
    parse_json(text.as_bytes()).expect("valid JSON")
}

#[test]
fn from_json_str_tolerates_string_usage_values() {
    let data = r#"{"id": "c1", "object": "chat.completion.chunk", "model": "m", "choices": [{"index": 0, "delta": {"content": "Hello"}, "finish_reason": "stop"}], "usage": {"prompt_tokens": "12", "completion_tokens": "7", "total_tokens": "19"}}"#;
    let chunk = ChatStreamChunk::from_json_str(data).expect("must parse leniently");
    assert_eq!(chunk.choices[0].delta.content.as_ref().and_then(delta_content_text).as_deref(), Some("Hello"));
    let usage = chunk.usage.as_ref().expect("usage present");
    assert_eq!(usage.input(), 12);
    assert_eq!(usage.output(), 7);
}

#[test]
fn from_json_str_keeps_deltaless_finish_reason_choice() {
    let data = r#"{"id": "c1", "model": "m", "choices": [{"index": 0, "finish_reason": "length"}]}"#;
    let chunk = ChatStreamChunk::from_json_str(data).expect("must parse");
    assert_eq!(chunk.choices.len(), 1);
    assert_eq!(chunk.choices[0].finish_reason.as_deref(), Some("length"));
}

#[test]
fn from_json_str_synthesizes_function_for_legacy_tool_call() {
    let data = r#"{"id": "c1", "model": "m", "choices": [{"index": 0, "delta": {"tool_calls": [{"index": 0, "id": "call_1", "name": "get_time", "arguments": "{}"}]}}]}"#;
    let chunk = ChatStreamChunk::from_json_str(data).expect("must parse");
    let tc = &chunk.choices[0].delta.tool_calls[0];
    let f = tc.function.as_ref().expect("function synthesized");
    assert_eq!(f.name.as_deref(), Some("get_time"));
    assert_eq!(f.arguments.as_deref(), Some("{}"));
}

#[test]
fn from_json_str_message_fallback_carries_role() {
    let data = r#"{"id": "c1", "model": "m", "choices": [{"index": 0, "message": {"role": "assistant", "content": "Hi"}, "finish_reason": "stop"}]}"#;
    let chunk = ChatStreamChunk::from_json_str(data).expect("must parse");
    assert_eq!(chunk.choices[0].delta.role.as_deref(), Some("assistant"));
    assert_eq!(chunk.choices[0].delta.content.as_ref().and_then(delta_content_text).as_deref(), Some("Hi"));
}

#[test]
fn from_json_str_tolerates_object_reasoning_and_float_created() {
    let data = r#"{"id": 42, "model": "m", "created": 1700000000.5, "choices": [{"index": "0", "delta": {"reasoning": {"text": "hmm"}, "content": null}, "finish_reason": null}]}"#;
    let chunk = ChatStreamChunk::from_json_str(data).expect("must parse leniently");
    assert_eq!(chunk.id, "42");
    assert_eq!(chunk.created, Some(1700000000));
    assert_eq!(chunk.choices[0].delta.reasoning_content.as_deref(), Some("hmm"));
    assert!(matches!(chunk.choices[0].delta.content, Some(Json::Null)));
    assert!(ChatStreamChunk::from_json_str("{\"broken").is_none());
    assert!(ChatStreamChunk::from_json_str("").is_none());
}

#[test]
fn from_json_str_tolerates_object_tool_arguments() {
    let data = r#"{"id": "c1", "model": "m", "choices": [{"index": 0, "delta": {"tool_calls": [{"index": 0, "id": "call_1", "function": {"name": "get_weather", "arguments": {"city": "Paris"}}}]}, "finish_reason": null}]}"#;
    let chunk = ChatStreamChunk::from_json_str(data).expect("must parse leniently");
    let tc = &chunk.choices[0].delta.tool_calls[0];
    assert_eq!(tc.id.as_deref(), Some("call_1"));
    assert_eq!(tc.function.as_ref().unwrap().name.as_deref(), Some("get_weather"));
    assert_eq!(tc.function.as_ref().unwrap().arguments.as_deref(), Some("{\"city\":\"Paris\"}"));
}

#[test]
fn delta_content_text_forms() {
    assert_eq!(delta_content_text(&Json::Null), None);
    assert_eq!(delta_content_text(&j(r#""hi""#)), Some("hi".into()));
    assert_eq!(
        delta_content_text(&j(r#"[{"type": "text", "text": "a"}, {"type": "output_text", "text": "b"}]"#)),
        Some("ab".into())
    );
    assert_eq!(
        delta_content_text(&j(r#"[{"type": "image_url", "image_url": {"url": "data:..."}}, {"type": "text", "text": "t"}]"#)),
        Some("t".into())
    );
    assert_eq!(delta_content_text(&j("[]")), Some(String::new()));
}

#[test]
fn usage_from_value_lenient_coerces() {
    let u = Usage::from_value_lenient(&j(r#"{"prompt_tokens": "10", "completion_tokens": 3.9, "prompt_tokens_details": {"cached_tokens": "6"}}"#));
    assert_eq!(u.input(), 10);
    assert_eq!(u.output(), 3);
    assert_eq!(u.cached_tokens(), 0);
}

#[test]
fn cached_tokens_prefer_direct_fields_over_details() {
    let u = Usage::from_value_lenient(&j(r#"{"prompt_tokens": 100, "completion_tokens": 10, "total_tokens": 110, "cache_read_input_tokens": 40, "prompt_tokens_details": {"cached_tokens": 7}}"#));
    assert_eq!(u.cached_tokens(), 40);
    let u2 = Usage::from_value_lenient(&j(r#"{"prompt_tokens": 100, "completion_tokens": 10, "total_tokens": 110, "prompt_tokens_details": {"cached_tokens": 7}}"#));
    assert_eq!(u2.cached_tokens(), 7);
    let u3 = Usage::from_value_lenient(&j(r#"{"prompt_tokens": 100, "completion_tokens": 10, "total_tokens": 110, "cache_creation_input_tokens": 9, "prompt_tokens_details": {"cache_write_tokens": 3}}"#));
    assert_eq!(u3.cache_write_tokens(), 9);
    let u4 = Usage::from_value_lenient(&j(r#"{"prompt_tokens": 100, "completion_tokens": 10, "total_tokens": 110, "prompt_tokens_details": {"cache_write_tokens": 3}}"#));
    assert_eq!(u4.cache_write_tokens(), 3);
    let u5 = Usage::from_value_lenient(&j(r#"{"prompt_tokens": 100, "completion_tokens": 10, "total_tokens": 110, "prompt_tokens_details": {"cached_tokens": 7, "cache_write_tokens": 2}, "input_tokens_details": {"cached_tokens": 12, "cache_write_tokens": 5}}"#));
    assert_eq!(u5.cached_tokens(), 12);
    assert_eq!(u5.cache_write_tokens(), 5);
}

#[test]
fn usage_totals_and_dialects() {
    let u = Usage::from_value_lenient(&j(r#"{"input_tokens": 5, "output_tokens": 6}"#));
    assert_eq!(u.input(), 5);
    assert_eq!(u.output(), 6);
    assert_eq!(u.total(), 11);
    let big = Usage::from_value_lenient(&j(r#"{"prompt_tokens": 9223372036854775807, "completion_tokens": 1}"#));
    assert_eq!(big.total(), i64::MAX);
    let s = Usage::from_value_lenient(&j(r#"{"prompt_tokens": " -4 ", "completion_tokens": "x"}"#));
    assert_eq!(s.prompt_tokens, Some(-4));
    assert_eq!(s.completion_tokens, None);
}

#[test]
fn reasoning_text_sources_in_order() {
    assert_eq!(delta_reasoning_text(&j(r#"{"reasoning_content": "a", "reasoning": "b"}"#)).as_deref(), Some("a"));
    assert_eq!(delta_reasoning_text(&j(r#"{"reasoning_content": " ", "reasoning": "b"}"#)).as_deref(), Some("b"));
    assert_eq!(delta_reasoning_text(&j(r#"{"reasoning": {"summary": "s"}}"#)).as_deref(), Some("s"));
    assert_eq!(
        delta_reasoning_text(&j(r#"{"reasoning_details": [{"text": "x"}, {"text": " "}, {"text": "y"}]}"#)).as_deref(),
        Some("x\ny")
    );
    assert_eq!(delta_reasoning_text(&j(r#"{"content": "c"}"#)), None);
}

#[test]
fn scalar_text_helpers() {
    assert!(present(Some(&j("0"))));
    assert!(!present(Some(&Json::Null)));
    assert!(!present(None));
    assert_eq!(value_to_string(&j("12")), "12");
    assert_eq!(value_to_string(&j("true")), "true");
    assert_eq!(value_to_string(&j("null")), "");
    assert_eq!(value_to_string(&j(r#"{"a":[1,2]}"#)), r#"{"a":[1,2]}"#);
    assert_eq!(arguments_string(&j(r#""{}""#)), "{}");
    assert_eq!(arguments_string(&j("5")), "5");
    assert_eq!(json_type_name(&j("[]")), "array");
    assert_eq!(json_type_name(&j("1.5")), "number");
}

#[test]
fn custom_tool_input_restored_from_wrapped_arguments() {
    assert_eq!(custom_tool_input_from_chat_arguments(r#"{"input":"patch body"}"#), "patch body");
    assert_eq!(custom_tool_input_from_chat_arguments("   "), "");
    assert_eq!(custom_tool_input_from_chat_arguments(r#"{"other":1}"#), r#"{"other":1}"#);
    assert_eq!(custom_tool_input_from_chat_arguments("[1,2]"), "[1,2]");
    assert_eq!(custom_tool_input_from_chat_arguments("not json"), "not json");
    assert_eq!(custom_tool_input_from_chat_arguments(r#"{"input":3}"#), r#"{"input":3}"#);
}

fn usage_of(text: &str) -> llm_gateway::dto::ResponsesUsageOut {
    llm_gateway::dto::usage_from_chat(&Usage::from_value_lenient(&j(text)))
}

fn jv(x: &Json) -> serde_json::Value {
    serde_json::from_slice(&llm_gateway::codec::to_json_bytes(x)).unwrap()
}

#[test]
fn usage_from_chat_cache_buckets() {
    let u = usage_of(r#"{"prompt_tokens": 100, "completion_tokens": 5, "prompt_tokens_details": {"cached_tokens": 60}}"#);
    assert_eq!(jv(&u.input_tokens_details)["cached_tokens"], 60);
    let u = usage_of(r#"{"prompt_tokens": 100, "completion_tokens": 5, "prompt_cache_hit_tokens": 40}"#);
    assert_eq!(jv(&u.input_tokens_details)["cached_tokens"], 40);
    let u = usage_of(r#"{"prompt_tokens": 100, "completion_tokens": 5, "cache_read_input_tokens": 70, "cache_creation_input_tokens": 10}"#);
    assert_eq!(jv(&u.input_tokens_details)["cached_tokens"], 70);
    assert_eq!(jv(&u.input_tokens_details)["cache_write_tokens"], 10);
}

#[test]
fn usage_from_chat_names_and_zero_details() {
    let u = usage_of(r#"{"prompt_tokens": 3, "completion_tokens": 4}"#);
    assert_eq!((u.prompt_tokens, u.completion_tokens, u.total_tokens), (3, 4, 7));
    assert_eq!((u.input_tokens, u.output_tokens), (3, 4));
    assert_eq!(jv(&u.prompt_tokens_details), serde_json::from_str::<serde_json::Value>(r#"{"cached_tokens":0,"text_tokens":0,"audio_tokens":0,"image_tokens":0}"#).unwrap());
    assert_eq!(jv(&u.completion_tokens_details), serde_json::from_str::<serde_json::Value>(r#"{"text_tokens":0,"audio_tokens":0,"image_tokens":0,"reasoning_tokens":0}"#).unwrap());
    assert_eq!(jv(&u.input_tokens_details), serde_json::from_str::<serde_json::Value>(r#"{"cached_tokens":0}"#).unwrap());
    assert_eq!(jv(&u.output_tokens_details), serde_json::from_str::<serde_json::Value>(r#"{"reasoning_tokens":0}"#).unwrap());
    let u = usage_of(r#"{"input_tokens": 2, "output_tokens": 1, "total_tokens": 9, "completion_tokens_details": {"reasoning_tokens": 5, "x": 1}}"#);
    assert_eq!((u.prompt_tokens, u.completion_tokens, u.total_tokens), (2, 1, 9));
    assert_eq!(jv(&u.output_tokens_details), serde_json::from_str::<serde_json::Value>(r#"{"reasoning_tokens":5,"x":1}"#).unwrap());
}

#[test]
fn zero_prompt_details_are_dropped() {
    assert!(nonzero_input_details(Some(&j(r#"{"cached_tokens":0,"text_tokens":0}"#))).is_none());
    assert!(nonzero_input_details(Some(&j(r#"{"other":5}"#))).is_none());
    assert!(nonzero_input_details(Some(&j(r#"{"audio_tokens":2}"#))).is_some());
    assert!(nonzero_input_details(Some(&j("3"))).is_none());
    assert!(nonzero_input_details(None).is_none());
    let u = usage_of(r#"{"prompt_tokens": 1, "prompt_tokens_details": {"cached_tokens": 0}}"#);
    assert_eq!(jv(&u.input_tokens_details), serde_json::from_str::<serde_json::Value>(r#"{"cached_tokens":0}"#).unwrap());
}

#[test]
fn output_item_and_summary_part_builders() {
    let p = summary_part("summary_text", "thought");
    assert_eq!((p.part_type.as_str(), p.text.as_str()), ("summary_text", "thought"));
    assert!(p.annotations.is_none());
    let it = output_item("message", "msg_1".to_string(), "completed", Vec::new());
    assert_eq!((it.item_type.as_str(), it.id.as_str(), it.status.as_str()), ("message", "msg_1", "completed"));
    assert!(it.role.is_empty() && it.content.is_empty() && it.summary.is_empty());
    assert!(it.call_id.is_none() && it.arguments.is_none() && it.execution.is_none());
    assert!(empty_annotations().is_empty());
}
