use llm_gateway::codec::{parse_json, to_json_bytes};
use llm_gateway::convert_req::{
    append_tool_call_to_last_assistant, attach_reasoning_to_last_assistant,
    backfill_tool_call_reasoning_placeholders, call_id, content_parts_to_chat_content,
    flush_pending_media, function_tool_to_chat, input_content_to_chat_content, instructions_text,
    item_embedded_reasoning, normalize_function_parameters, reasoning_item_text,
    request_text_to_chat_response_format, request_tool_choice_to_chat,
    validate_unsupported_fields,
};
use llm_gateway::dto::{FunctionOut, MessageOut, ToolCallOut};
use llm_gateway::json::Json;
use llm_gateway::tool_ctx::ToolContext;
use serde_json::Value;

fn j(text: &str) -> Json {
    parse_json(text.as_bytes()).expect("valid JSON")
}

fn v(x: &Json) -> Value {
    serde_json::from_slice(&to_json_bytes(x)).unwrap()
}

fn val(text: &str) -> Value {
    serde_json::from_str(text).unwrap()
}

fn msg(role: &str, reasoning: Option<&str>) -> MessageOut {
    MessageOut {
        role: role.to_string(),
        content: None,
        tool_calls: Vec::new(),
        tool_call_id: None,
        reasoning_content: reasoning.map(str::to_string),
    }
}

fn call(name: &str) -> ToolCallOut {
    ToolCallOut {
        id: format!("id_{name}"),
        call_type: "function".to_string(),
        function: Some(FunctionOut {
            description: String::new(),
            name: name.to_string(),
            parameters: None,
            strict: None,
            arguments: "{}".to_string(),
        }),
    }
}

#[test]
fn stateful_fields_are_refused_by_name() {
    assert!(validate_unsupported_fields(&j(r#"{"model":"m","previous_response_id":"  "}"#)).is_ok());
    assert!(validate_unsupported_fields(&j(r#"{"conversation":null}"#)).is_ok());
    let err = validate_unsupported_fields(&j(r#"{"previous_response_id":"resp_1","prompt":{"id":"p"}}"#)).unwrap_err();
    assert!(err.starts_with("responses to chat conversion does not support stateful fields: previous_response_id, prompt. The Chat upstream is stateless"));
    assert!(err.ends_with("'store' 'false' in model args)"));
}

#[test]
fn instructions_from_string_parts_or_json() {
    assert_eq!(instructions_text(&j(r#""be brief""#)), "be brief");
    assert_eq!(instructions_text(&j(r#"[{"type":"input_text","text":"a"},{"x":1},{"text":"b"}]"#)), "a\n\nb");
    assert_eq!(instructions_text(&j(r#"{"k":1}"#)), r#"{"k":1}"#);
}

#[test]
fn call_id_prefers_call_id_then_id() {
    assert_eq!(call_id(&j(r#"{"call_id":" c1 ","id":"i1"}"#)), "c1");
    assert_eq!(call_id(&j(r#"{"call_id":"  ","id":"i1"}"#)), "i1");
    assert_eq!(call_id(&j(r#"{"call_id":3}"#)), "");
}

#[test]
fn reasoning_item_text_forms() {
    assert_eq!(reasoning_item_text(&j(r#"{"content":"  ","text":"t"}"#)).as_deref(), Some("t"));
    assert_eq!(reasoning_item_text(&j(r#"{"summary":"s"}"#)).as_deref(), Some("s"));
    assert_eq!(
        reasoning_item_text(&j(r#"{"summary":[{"type":"summary_text","text":"a"},"b",{"content":"c"},{"text":" "},7]}"#)).as_deref(),
        Some("a\n\nb\n\nc")
    );
    assert_eq!(reasoning_item_text(&j(r#"{"summary":[]}"#)), None);
    assert_eq!(reasoning_item_text(&j(r#"{"type":"reasoning"}"#)), None);
}

#[test]
fn embedded_reasoning_forms() {
    assert_eq!(item_embedded_reasoning(&j(r#"{"reasoning_content":"r"}"#)).as_deref(), Some("r"));
    assert_eq!(item_embedded_reasoning(&j(r#"{"reasoning_content":" ","reasoning":{"summary":"s"}}"#)).as_deref(), Some("s"));
    assert_eq!(
        item_embedded_reasoning(&j(r#"{"reasoning_details":[{"text":"x"},{"text":""},{"text":"y"}]}"#)).as_deref(),
        Some("x\ny")
    );
    assert_eq!(item_embedded_reasoning(&j(r#"{"reasoning":5}"#)), None);
}

#[test]
fn reasoning_attaches_to_last_assistant_across_tool_messages() {
    let mut ms = vec![msg("user", None), msg("assistant", None), msg("tool", None), msg("user", None)];
    attach_reasoning_to_last_assistant(&mut ms, Some("think".to_string()));
    assert_eq!(ms[1].reasoning_content.as_deref(), Some("think"));
    attach_reasoning_to_last_assistant(&mut ms, Some("more".to_string()));
    assert_eq!(ms[1].reasoning_content.as_deref(), Some("think\nmore"));
    attach_reasoning_to_last_assistant(&mut ms, Some("  ".to_string()));
    assert_eq!(ms[1].reasoning_content.as_deref(), Some("think\nmore"));
    let mut none = vec![msg("user", None)];
    attach_reasoning_to_last_assistant(&mut none, Some("lost".to_string()));
    assert!(none[0].reasoning_content.is_none());
}

#[test]
fn pending_media_flushes_as_one_user_message() {
    let mut ms = vec![msg("user", None)];
    let mut pending: Vec<Json> = Vec::new();
    flush_pending_media(&mut ms, &mut pending);
    assert_eq!(ms.len(), 1);
    pending.push(j(r#"{"type":"text","text":"label"}"#));
    pending.push(j(r#"{"type":"image_url","image_url":{"url":"u"}}"#));
    flush_pending_media(&mut ms, &mut pending);
    assert!(pending.is_empty());
    assert_eq!(ms.len(), 2);
    assert_eq!(ms[1].role, "user");
    assert_eq!(
        v(ms[1].content.as_ref().unwrap()),
        val(r#"[{"type":"text","text":"label"},{"type":"image_url","image_url":{"url":"u"}}]"#)
    );
}

#[test]
fn tool_calls_join_or_open_assistant_message() {
    let mut ms = vec![msg("user", None)];
    append_tool_call_to_last_assistant(&mut ms, call("a"));
    append_tool_call_to_last_assistant(&mut ms, call("b"));
    assert_eq!(ms.len(), 2);
    assert_eq!(ms[1].role, "assistant");
    assert_eq!(ms[1].tool_calls.len(), 2);
    assert_eq!(ms[1].tool_calls[1].function.as_ref().unwrap().name, "b");
    backfill_tool_call_reasoning_placeholders(&mut ms);
    assert_eq!(ms[1].reasoning_content.as_deref(), Some("tool call"));
    assert!(ms[0].reasoning_content.is_none());
    let mut kept = vec![msg("assistant", Some("real"))];
    kept[0].tool_calls.push(call("c"));
    backfill_tool_call_reasoning_placeholders(&mut kept);
    assert_eq!(kept[0].reasoning_content.as_deref(), Some("real"));
}

#[test]
fn text_only_parts_collapse_to_string() {
    let parts = match j(r#"[{"type":"input_text","text":"a"},{"type":"text","text":""},{"type":"refusal","refusal":"no"},{"type":"output_text","text":"b"}]"#) {
        Json::Array(p) => p,
        _ => unreachable!(),
    };
    assert_eq!(v(&content_parts_to_chat_content(&parts).unwrap()), val(r#""a\nno\nb""#));
}

#[test]
fn mixed_parts_stay_parts() {
    let c = input_content_to_chat_content(Some(&j(
        r#"[{"type":"input_text","text":"look"},{"type":"input_image","image_url":"https://x/a.png"},{"type":"input_file"},{"type":"custom_part","x":1},"raw"]"#,
    )))
    .unwrap();
    assert_eq!(
        v(&c),
        val(r#"[{"type":"text","text":"look"},{"type":"image_url","image_url":{"url":"https://x/a.png"}},{"type":"custom_part","x":1},"raw"]"#)
    );
    assert_eq!(v(&input_content_to_chat_content(None).unwrap()), val(r#""""#));
    assert_eq!(v(&input_content_to_chat_content(Some(&j(r#"{"a":1}"#))).unwrap()), val(r#"{"a":1}"#));
}

#[test]
fn parameters_become_object_schemas() {
    assert_eq!(v(&normalize_function_parameters(None)), val(r#"{"type":"object","properties":{}}"#));
    assert_eq!(v(&normalize_function_parameters(Some(j("[1]")))), val(r#"{"type":"object","properties":{}}"#));
    assert_eq!(
        v(&normalize_function_parameters(Some(j(r#"{"type":"array","items":{}}"#)))),
        val(r#"{"type":"object","items":{}}"#)
    );
}

#[test]
fn function_tools_convert_with_nested_fields_first() {
    let ctx = ToolContext::new();
    let t = function_tool_to_chat(
        &j(r#"{"type":"function","name":"outer","function":{"name":"inner","description":"d","strict":true}}"#),
        None,
        &ctx,
    )
    .unwrap();
    assert_eq!(t.id, "");
    assert_eq!(t.call_type, "function");
    let f = t.function.unwrap();
    assert_eq!(f.name, "inner");
    assert_eq!(f.description, "d");
    assert_eq!(v(f.parameters.as_ref().unwrap()), val(r#"{"type":"object","properties":{}}"#));
    assert_eq!(v(f.strict.as_ref().unwrap()), val("true"));
    assert!(function_tool_to_chat(&j(r#"{"type":"function","name":"  "}"#), None, &ctx).is_none());
    let t = function_tool_to_chat(&j(r#"{"name":"query"}"#), Some("mcp"), &ctx).unwrap();
    assert_eq!(t.function.unwrap().name, "mcp__query");
}

#[test]
fn tool_choice_forms() {
    let ctx = ToolContext::new();
    let c = |text: &str| request_tool_choice_to_chat(Some(&j(text)), &ctx).map(|o| o.map(|x| v(&x)));
    assert_eq!(c(r#""auto""#).unwrap(), Some(val(r#""auto""#)));
    assert_eq!(
        c(r#"{"type":"function","name":"f","namespace":" ns "}"#).unwrap(),
        Some(val(r#"{"type":"function","function":{"name":"ns__f"}}"#))
    );
    assert_eq!(c(r#"{"type":"custom","name":"apply_patch"}"#).unwrap(), Some(val(r#"{"type":"function","function":{"name":"apply_patch"}}"#)));
    assert_eq!(c(r#"{"type":"tool_search"}"#).unwrap(), Some(val(r#"{"type":"function","function":{"name":"tool_search"}}"#)));
    assert_eq!(c(r#"{"type":"function"}"#).unwrap(), Some(val(r#"{"type":"function"}"#)));
    assert_eq!(c(r#"{"type":"allowed_tools"}"#).unwrap(), Some(val(r#"{"type":"allowed_tools"}"#)));
    assert_eq!(c("3").unwrap_err(), "invalid tool_choice");
    assert!(request_tool_choice_to_chat(None, &ctx).unwrap().is_none());
    assert!(request_tool_choice_to_chat(Some(&j("null")), &ctx).unwrap().is_none());
}

#[test]
fn text_format_to_response_format() {
    let f = |text: &str| request_text_to_chat_response_format(Some(&j(text))).map(|o| o.map(|x| v(&x)));
    assert_eq!(
        f(r#"{"format":{"type":"json_schema","name":"s","schema":{}}}"#).unwrap(),
        Some(val(r#"{"type":"json_schema","json_schema":{"type":"json_schema","name":"s","schema":{}}}"#))
    );
    assert_eq!(f(r#"{"format":{"type":" json_object "}}"#).unwrap(), Some(val(r#"{"type":"json_object"}"#)));
    assert_eq!(f(r#"{"format":{"type":""}}"#).unwrap(), None);
    assert_eq!(f(r#"{"verbosity":"low"}"#).unwrap(), None);
    assert_eq!(f(r#""text""#).unwrap_err(), "invalid text config");
    assert!(request_text_to_chat_response_format(None).unwrap().is_none());
}

#[test]
fn rejects_stateful_fields() {
    let err = validate_unsupported_fields(&j(r#"{"model":"m","input":"hi","conversation":"conv_1","previous_response_id":"resp_x"}"#)).unwrap_err();
    assert!(err.contains("stateful fields"), "{err}");
    assert!(err.contains("previous_response_id"));
    assert!(err.contains("conversation"));
}

#[test]
fn tool_choice_function_alone() {
    let req = j(r#"{"model":"m","input":"hi","tools":[{"type":"function","name":"get_weather"}],"tool_choice":{"type":"function","name":"get_weather"}}"#);
    let ctx = ToolContext::from_request(&req);
    let out = request_tool_choice_to_chat(req.get("tool_choice"), &ctx).unwrap().unwrap();
    assert_eq!(v(&out), val(r#"{"type":"function","function":{"name":"get_weather"}}"#));
}

#[test]
fn text_format_json_schema_alone() {
    let req = j(r#"{"model":"m","input":"hi","text":{"format":{"type":"json_schema","name":"weather","schema":{"type":"object"},"strict":true}}}"#);
    let out = v(&request_text_to_chat_response_format(req.get("text")).unwrap().unwrap());
    assert_eq!(out["type"], "json_schema");
    assert_eq!(out["json_schema"]["name"], "weather");
    assert_eq!(out["json_schema"]["strict"], true);
}
