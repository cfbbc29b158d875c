use llm_gateway::codec::{parse_json, to_json_bytes};
use llm_gateway::tool_media::{
    chat_media_part, clamp_base64ish, looks_like_base64_payload, media_label, whole_string_image_data_url_to_part,
    with_moved_marker, BASE64ISH_MIN_BYTES, WHOLE_DATA_URL_MIN_BYTES,
};
use serde_json::Value;

#[test]
fn label_format() {
    assert_eq!(media_label("call_1"), "[gateway: media output of tool call call_1]");
}

#[test]
fn clamps_data_url_prefix_text() {
    let text = format!("data:image/png;base64,{}", "Q".repeat(BASE64ISH_MIN_BYTES));
    assert!(clamp_base64ish(&text).starts_with("[gateway:"));
}

#[test]
fn clamp_notice_gives_byte_count() {
    let text = format!("  {}  ", "A".repeat(BASE64ISH_MIN_BYTES));
    assert_eq!(clamp_base64ish(&text), "[gateway: 16384 bytes of base64 media payload omitted]");
    assert_eq!(clamp_base64ish("short text"), "short text");
    let long_prose = "word ".repeat(5000);
    assert_eq!(clamp_base64ish(&long_prose), long_prose);
}

#[test]
fn base64_payload_needs_size_and_alphabet() {
    assert!(looks_like_base64_payload(&"A+/=".repeat(BASE64ISH_MIN_BYTES / 4)));
    assert!(!looks_like_base64_payload(&"A".repeat(BASE64ISH_MIN_BYTES - 1)));
    assert!(!looks_like_base64_payload(&format!("{} ", "A".repeat(BASE64ISH_MIN_BYTES))));
}

#[test]
fn moved_marker_appended() {
    let marker = "[gateway: tool result media moved to the following user message]";
    assert_eq!(with_moved_marker("  "), marker);
    assert_eq!(with_moved_marker("out"), format!("out\n{marker}"));
}

#[test]
fn whole_image_data_url_becomes_part() {
    let url = format!("data:image/png;base64,{}", "A".repeat(WHOLE_DATA_URL_MIN_BYTES));
    let part = whole_string_image_data_url_to_part(&format!(" {url} ")).expect("image part");
    let v: Value = serde_json::from_slice(&to_json_bytes(&part)).unwrap();
    assert_eq!(v["type"], "image_url");
    assert_eq!(v["image_url"]["url"], url);
    assert!(whole_string_image_data_url_to_part("data:image/png;base64,QUJD").is_none());
    let not_image = format!("data:text/plain;base64,{}", "A".repeat(WHOLE_DATA_URL_MIN_BYTES));
    assert!(whole_string_image_data_url_to_part(&not_image).is_none());
    let upper = format!("DATA:IMAGE/PNG;BASE64,{}", "A".repeat(WHOLE_DATA_URL_MIN_BYTES));
    assert!(whole_string_image_data_url_to_part(&upper).is_some());
}

fn big_b64() -> String {
    "A".repeat(WHOLE_DATA_URL_MIN_BYTES + 100)
}

fn val(text: &str) -> Value {
    serde_json::from_str(text).unwrap()
}

fn media(block: &str) -> Option<Value> {
    let j = parse_json(block.as_bytes()).unwrap();
    chat_media_part(&j).map(|p| serde_json::from_slice(&to_json_bytes(&p)).unwrap())
}

#[test]
fn mcp_image_form_recognized() {
    let block = format!(r#"{{"type": "image", "mimeType": "image/jpeg", "data": "{}"}}"#, big_b64());
    let part = media(&block).unwrap();
    assert_eq!(part["type"], "image_url");
    assert!(part["image_url"]["url"].as_str().unwrap().starts_with("data:image/jpeg;base64,"));
}

#[test]
fn anthropic_source_url_form() {
    let part = media(r#"{"type": "image", "source": {"type": "url", "url": "https://example.com/a.png"}}"#).unwrap();
    assert_eq!(part["image_url"]["url"], "https://example.com/a.png");
}

#[test]
fn media_type_defaults_to_png() {
    let part = media(r#"{"type": "image", "source": {"type": "base64", "data": "QUJD"}}"#).unwrap();
    assert!(part["image_url"]["url"].as_str().unwrap().starts_with("data:image/png;base64,"));
}

#[test]
fn anthropic_data_url_passes_through() {
    let part = media(r#"{"type": "image", "source": {"type": "base64", "data": "data:image/png;base64,QUJD"}}"#).unwrap();
    assert_eq!(part["image_url"]["url"], "data:image/png;base64,QUJD");
    let part = media(r#"{"type": "image", "source": {"type": "base64", "data": "QUJD"}}"#).unwrap();
    assert_eq!(part["image_url"]["url"], "data:image/png;base64,QUJD");
}

#[test]
fn file_part_requires_id_or_data() {
    assert!(media(r#"{"type": "input_file", "filename": "a.txt"}"#).is_none());
    assert!(media(r#"{"type": "input_file", "file_url": "https://x"}"#).is_none());
    let part = media(r#"{"type": "input_file", "file_id": "f1"}"#).unwrap();
    assert_eq!(part["file"]["file_id"], "f1");
}

#[test]
fn input_audio_part_passthrough() {
    let part = media(r#"{"type": "input_audio", "input_audio": {"data": "QUJD", "format": "wav"}}"#).unwrap();
    assert_eq!(part["input_audio"]["format"], "wav");
}

#[test]
fn anthropic_audio_block() {
    let part = media(r#"{"type": "audio", "source": {"type": "base64", "media_type": "mp3", "data": "QUJD"}}"#).unwrap();
    assert_eq!(part["type"], "input_audio");
    assert_eq!(part["input_audio"]["format"], "mp3");
}

#[test]
fn loose_data_url_object() {
    let block = format!(r#"{{"url": "data:image/png;base64,{}"}}"#, big_b64());
    let part = media(&block).unwrap();
    assert_eq!(part["type"], "image_url");
}

#[test]
fn image_url_string_form_wrapped() {
    let part = media(r#"{"type": "input_image", "image_url": "https://example.com/a.png"}"#).unwrap();
    assert_eq!(part["image_url"]["url"], "https://example.com/a.png");
}

#[test]
fn media_part_exact_shapes() {
    assert_eq!(
        media(r#"{"type": " image ", "detail": "low", "source": {"type": "base64", "media_type": "image/gif", "data": "QUJD"}}"#).unwrap(),
        val(r#"{"type": "image_url", "image_url": {"detail": "low", "url": "data:image/gif;base64,QUJD"}}"#)
    );
    assert_eq!(
        media(r#"{"type": "document", "source": {"type": "base64", "data": "QUJD"}}"#).unwrap(),
        val(r#"{"type": "file", "file": {"filename": "document", "file_data": "data:application/pdf;base64,QUJD"}}"#)
    );
    assert_eq!(
        media(r#"{"type": "input_audio", "data": "QUJD", "format": "mp3"}"#).unwrap(),
        val(r#"{"type": "input_audio", "input_audio": {"data": "QUJD", "format": "mp3"}}"#)
    );
    assert_eq!(
        media(r#"{"type": "image_url", "image_url": {"url": "https://a", "detail": "high", "x": 1}}"#).unwrap(),
        val(r#"{"type": "image_url", "image_url": {"url": "https://a", "detail": "high"}}"#)
    );
    assert_eq!(
        media(r#"{"type": "file", "file": {"file_data": "d", "filename": "n"}}"#).unwrap(),
        val(r#"{"type": "file", "file": {"file_data": "d", "filename": "n"}}"#)
    );
    assert!(media(r#"{"type": "image", "source": {"type": "base64", "data": ""}}"#).is_none());
    assert!(media(r#"{"type": "document", "source": {"type": "url", "url": "x"}}"#).is_none());
    assert!(media(r#"{"type": "text", "text": "hi"}"#).is_none());
    assert!(media(r#""image""#).is_none());
}
