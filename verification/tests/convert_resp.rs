use llm_gateway::convert_resp::parse_tool_arguments_object;
use llm_gateway::codec::parse_json;
use llm_gateway::convert_resp::{extract_message_reasoning, extract_message_text_and_refusals};
use llm_gateway::json::Json;

fn j(text: &str) -> Json {
    parse_json(text.as_bytes()).expect("valid JSON")
}

#[test]
fn string_content_is_the_text() {
    let (text, refusals) = extract_message_text_and_refusals(&j(r#"{"role":"assistant","content":"Hello"}"#));
    assert_eq!(text, "Hello");
    assert!(refusals.is_empty());
}

#[test]
fn parts_join_text_and_collect_refusals() {
    let m = j(r#"{"content":[
        {"type":"text","text":"Hello "},
        {"type":"output_text","text":"world"},
        {"type":"image_url","image_url":{"url":"x"}},
        {"type":"refusal","refusal":"I cannot"},
        {"type":"refusal","text":"  "},
        {"type":"refusal","text":"no way"},
        {"type":"refusal","refusal":5,"text":"ignored"}
    ]}"#);
    let (text, refusals) = extract_message_text_and_refusals(&m);
    assert_eq!(text, "Hello world");
    assert_eq!(refusals, vec!["I cannot".to_string(), "no way".to_string()]);
}

#[test]
fn empty_content_falls_back_to_message_refusal() {
    let (text, refusals) = extract_message_text_and_refusals(&j(r#"{"content":null,"refusal":"Sorry."}"#));
    assert_eq!(text, "Sorry.");
    assert!(refusals.is_empty());
    let (text, _) = extract_message_text_and_refusals(&j(r#"{"content":[]}"#));
    assert_eq!(text, "");
}

#[test]
fn reasoning_content_then_alias_then_details() {
    assert_eq!(extract_message_reasoning(&j(r#"{"reasoning_content":"a","reasoning":"b"}"#)), "a");
    assert_eq!(extract_message_reasoning(&j(r#"{"reasoning_content":1,"reasoning":"b"}"#)), "b");
    assert_eq!(
        extract_message_reasoning(&j(r#"{"reasoning_details":[{"text":"x"},{"type":"other"},{"text":"y"}]}"#)),
        "x\ny"
    );
    assert_eq!(extract_message_reasoning(&j(r#"{"content":"hi"}"#)), "");
}

#[test]
fn tool_search_arguments_become_an_object() {
    let o = |a: &str| -> serde_json::Value {
        serde_json::from_slice(&llm_gateway::codec::to_json_bytes(&parse_tool_arguments_object(a))).unwrap()
    };
    assert_eq!(o("  "), serde_json::from_str::<serde_json::Value>("{}").unwrap());
    assert_eq!(o(r#"{"query":"q","limit":3}"#), serde_json::from_str::<serde_json::Value>(r#"{"query":"q","limit":3}"#).unwrap());
    assert_eq!(o("gmail"), serde_json::from_str::<serde_json::Value>(r#"{"query":"gmail"}"#).unwrap());
    assert_eq!(o("[1]"), serde_json::from_str::<serde_json::Value>(r#"{"query":"[1]"}"#).unwrap());
}
