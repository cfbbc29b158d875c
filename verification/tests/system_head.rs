use llm_gateway::codec::{parse_json, to_json_bytes};
use llm_gateway::json::Json;
use llm_gateway::system_head::collect_system_to_head;
use serde_json::Value;

fn msgs(text: &str) -> Vec<Json> {
    match parse_json(text.as_bytes()).expect("valid JSON") {
        Json::Array(a) => a,
        _ => panic!("not an array"),
    }
}

fn view(ms: &[Json]) -> Vec<Value> {
    ms.iter().map(|m| serde_json::from_slice(&to_json_bytes(m)).unwrap()).collect()
}

#[test]
fn zero_system_noop() {
    let mut m = msgs(r#"[{"role": "user", "content": "hi"}]"#);
    assert!(!collect_system_to_head(&mut m, true));
    assert!(!collect_system_to_head(&mut m, false));
    assert_eq!(m.len(), 1);
}

#[test]
fn single_mid_system_moves_to_head() {
    let src = r#"[{"role": "user", "content": "hi"}, {"role": "system", "content": "rules"}, {"role": "assistant", "content": "ok"}]"#;
    let mut m = msgs(src);
    assert!(collect_system_to_head(&mut m, true));
    let v = view(&m);
    assert_eq!(v[0]["role"], "system");
    assert_eq!(v[1]["role"], "user");
    let mut m = msgs(src);
    assert!(collect_system_to_head(&mut m, false));
    let v = view(&m);
    assert_eq!(v[0]["role"], "system");
    assert_eq!(v[1]["role"], "user");
    assert_eq!(v[2]["role"], "assistant");
}

#[test]
fn single_head_system_untouched() {
    let mut m = msgs(r#"[{"role": "system", "content": "rules"}, {"role": "user", "content": "hi"}]"#);
    assert!(!collect_system_to_head(&mut m, true));
    assert!(!collect_system_to_head(&mut m, false));
    assert_eq!(m.len(), 2);
}

#[test]
fn multiple_systems_merged_to_head_in_order() {
    let mut m = msgs(
        r#"[{"role": "user", "content": "hi"}, {"role": "system", "content": "rule A"}, {"role": "assistant", "content": "ok"}, {"role": "system", "content": "rule B"}]"#,
    );
    assert!(collect_system_to_head(&mut m, true));
    assert_eq!(m.len(), 3);
    let v = view(&m);
    assert_eq!(v[0]["role"], "system");
    assert_eq!(v[0]["content"], "rule A\nrule B");
    assert_eq!(v[1]["role"], "user");
    assert_eq!(v[2]["role"], "assistant");
}

#[test]
fn content_parts_texts_joined() {
    let mut m = msgs(
        r#"[{"role": "system", "content": [{"type": "text", "text": "A"}, {"type": "text", "text": "B"}]}, {"role": "user", "content": "hi"}, {"role": "system", "content": "C"}]"#,
    );
    assert!(collect_system_to_head(&mut m, true));
    let v = view(&m);
    assert_eq!(v[0]["content"], "A\nB\nC");
    assert_eq!(m.len(), 2);
}

#[test]
fn multiple_systems_kept_separate_in_original_order() {
    let mut m = msgs(
        r#"[{"role": "user", "content": "hi"}, {"role": "system", "name": "persona", "content": "rule A"}, {"role": "assistant", "content": "ok"}, {"role": "system", "content": [{"type": "text", "text": "rule B"}]}]"#,
    );
    assert!(collect_system_to_head(&mut m, false));
    assert_eq!(m.len(), 4);
    let v = view(&m);
    assert_eq!(v[0]["role"], "system");
    assert_eq!(v[0]["name"], "persona");
    assert_eq!(v[0]["content"], "rule A");
    assert_eq!(v[1]["role"], "system");
    let expected: Value = serde_json::from_str(r#"[{"type": "text", "text": "rule B"}]"#).unwrap();
    assert_eq!(v[1]["content"], expected);
    assert_eq!(v[2]["role"], "user");
    assert_eq!(v[3]["role"], "assistant");
}

#[test]
fn separate_mode_already_head_multi_system_rewritten_flag() {
    let mut m = msgs(
        r#"[{"role": "system", "content": "A"}, {"role": "user", "content": "hi"}, {"role": "system", "content": "B"}, {"role": "assistant", "content": "ok"}]"#,
    );
    assert!(collect_system_to_head(&mut m, false));
    let v = view(&m);
    assert_eq!(v[0]["content"], "A");
    assert_eq!(v[1]["content"], "B");
    assert_eq!(v[2]["role"], "user");
    assert_eq!(v[3]["role"], "assistant");
    let mut m = msgs(r#"[{"role": "system", "content": "A"}, {"role": "system", "content": "B"}, {"role": "user", "content": "hi"}]"#);
    assert!(collect_system_to_head(&mut m, false));
    assert_eq!(m.len(), 3);
    let v = view(&m);
    assert_eq!(v[0]["content"], "A");
    assert_eq!(v[1]["content"], "B");
    assert_eq!(v[2]["role"], "user");
}

#[test]
fn merged_systems_without_text_vanish() {
    let mut m = msgs(r#"[{"role": "system", "content": ""}, {"role": "user", "content": "hi"}, {"role": "system", "content": []}]"#);
    assert!(collect_system_to_head(&mut m, true));
    let v = view(&m);
    assert_eq!(v.len(), 1);
    assert_eq!(v[0]["role"], "user");
}
