use llm_gateway::codec::{parse_json, to_json_bytes};
use llm_gateway::json::Json;
use llm_gateway::tool_media::{split_tool_output, BASE64ISH_MIN_BYTES, WHOLE_DATA_URL_MIN_BYTES};
use serde_json::Value;

const MEDIA_MOVED_MARKER: &str = "[gateway: tool result media moved to the following user message]";

fn big_b64() -> String {
    "A".repeat(WHOLE_DATA_URL_MIN_BYTES + 100)
}

fn to_json(v: &Value) -> Json {
    parse_json(&serde_json::to_vec(v).unwrap()).unwrap()
}

fn val(x: &Json) -> Value {
    serde_json::from_slice(&to_json_bytes(x)).unwrap()
}

#[test]
fn whole_data_url_moved() {
    let s = format!("data:image/png;base64,{}", big_b64());
    let split = split_tool_output(&Json::Str(s.clone()));
    assert_eq!(split.media.len(), 1);
    assert!(split.text.contains(MEDIA_MOVED_MARKER));
}

#[test]
fn small_data_url_kept_as_text() {
    let s = "data:image/png;base64,QUJD".to_string();
    let split = split_tool_output(&Json::Str(s.clone()));
    assert!(split.media.is_empty());
    assert_eq!(split.text, s);
}

#[test]
fn json_string_with_embedded_media_is_parsed() {
    let mut inner: Value = serde_json::from_str(
        r#"{"content": [
            {"type": "text", "text": "screenshot attached"},
            {"type": "image", "source": {"type": "base64", "media_type": "image/png", "data": ""}}
        ]}"#,
    )
    .unwrap();
    inner["content"][1]["source"]["data"] = Value::String(big_b64());
    let s = Json::Str(inner.to_string());
    let split = split_tool_output(&s);
    assert_eq!(split.media.len(), 1);
    assert_eq!(val(&split.media[0])["type"], "image_url");
    assert!(split.text.contains("screenshot attached"));
}

#[test]
fn unknown_blocks_in_array_kept_as_canonical_text() {
    let arr: Value = serde_json::from_str(
        r#"[
            {"type": "text", "text": "results:"},
            {"type": "search_result", "title": "t", "url": "https://x"}
        ]"#,
    )
    .unwrap();
    let split = split_tool_output(&to_json(&arr));
    assert!(split.media.is_empty());
    assert!(split.text.contains("results:"));
    assert!(split.text.contains("search_result"));
}

#[test]
fn residual_base64_clamped_after_move() {
    let mut arr: Value = serde_json::from_str(
        r#"[
            {"type": "image", "source": {"type": "base64", "media_type": "image/png", "data": ""}},
            {"type": "text", "text": ""}
        ]"#,
    )
    .unwrap();
    arr[0]["source"]["data"] = Value::String(big_b64());
    arr[1]["text"] = Value::String(format!("data:image/png;base64,{}", "Q".repeat(BASE64ISH_MIN_BYTES)));
    let split = split_tool_output(&to_json(&arr));
    assert_eq!(split.media.len(), 1);
    assert!(split.text.contains("omitted"));
}

#[test]
fn object_without_media_kept_canonical() {
    let obj: Value = serde_json::from_str(r#"{"b": 2, "a": 1}"#).unwrap();
    let split = split_tool_output(&to_json(&obj));
    assert!(split.media.is_empty());
    assert_eq!(split.text, r#"{"a":1,"b":2}"#);
}

#[test]
fn scalars_and_null_as_text() {
    assert_eq!(split_tool_output(&Json::Null).text, "");
    assert_eq!(split_tool_output(&Json::Bool(true)).text, "true");
    let split = split_tool_output(&to_json(&serde_json::from_str::<Value>(r#"["a", "  ", 3]"#).unwrap()));
    assert_eq!(split.text, "a\n3");
}
