use llm_gateway::codec::{parse_json, to_json_bytes};
use llm_gateway::history::{snapshot_from_events, enrich_request_with_history, plausible_response_id, ResponseHistoryStore, MAX_ENTRIES};
use llm_gateway::json::Json;
use serde_json::Value;

fn j(text: &str) -> Json {
    parse_json(text.as_bytes()).expect("valid JSON")
}

fn v(x: &Json) -> Value {
    serde_json::from_slice(&to_json_bytes(x)).unwrap()
}

fn store_with(id: &str, items: Json) -> ResponseHistoryStore {
    let mut s = ResponseHistoryStore::new();
    s.record(id, items);
    s
}

#[test]
fn record_restore_roundtrip() {
    let mut s = store_with("resp_abcdef123456", j(r#"[{"type": "message", "role": "assistant", "content": []}]"#));
    assert!(s.restore("resp_abcdef123456").is_some());
    assert!(s.restore("resp_unknown00000").is_none());
}

#[test]
fn rejects_implausible_ids_and_empty_items() {
    let mut s = ResponseHistoryStore::new();
    s.record("not-a-resp-id", j("[{}]"));
    s.record("resp_short", j("[{}]"));
    s.record("resp_abcdef123456", j("[]"));
    s.record("resp_abcdef123456", j("{}"));
    assert!(s.is_empty());
}

#[test]
fn lru_eviction_order() {
    let mut s = ResponseHistoryStore::new();
    for i in 0..MAX_ENTRIES + 5 {
        s.record(&format!("resp_{i:012}"), j(&format!(r#"[{{"i": {i}}}]"#)));
    }
    assert_eq!(s.len(), MAX_ENTRIES);
    assert!(s.restore("resp_000000000000").is_none(), "oldest entries evicted");
    assert!(s.restore(&format!("resp_{:012}", MAX_ENTRIES + 4)).is_some());
}

#[test]
fn restore_refreshes_recency() {
    let mut s = ResponseHistoryStore::new();
    s.record("resp_000000000000", j("[1]"));
    for i in 1..MAX_ENTRIES {
        s.record(&format!("resp_{i:012}"), j("[2]"));
    }
    assert!(s.restore("resp_000000000000").is_some());
    s.record("resp_999999999999", j("[3]"));
    assert!(s.restore("resp_000000000000").is_some(), "recently used entry survives");
    assert!(s.restore("resp_000000000001").is_none(), "least recently used leaves");
    assert_eq!(v(&s.restore("resp_999999999999").unwrap()), serde_json::from_str::<Value>("[3]").unwrap());
}

#[test]
fn enrich_prepends_and_removes_reference() {
    let mut s = store_with(
        "resp_prev11111111",
        j(r#"[{"type": "message", "role": "assistant", "content": [{"type": "output_text", "text": "hi"}]}, {"type": "function_call", "call_id": "call_1", "name": "f", "arguments": "{}"}]"#),
    );
    let mut req = j(
        r#"{"model": "m", "previous_response_id": "resp_prev11111111", "input": [{"type": "function_call_output", "call_id": "call_1", "output": "42"}, {"type": "message", "role": "user", "content": [{"type": "input_text", "text": "next"}]}]}"#,
    );
    enrich_request_with_history(&mut s, &mut req).expect("enrich ok");
    let r = v(&req);
    assert!(r.get("previous_response_id").is_none());
    let input = r["input"].as_array().unwrap();
    assert_eq!(input.len(), 4, "2 restored + 2 new");
    assert_eq!(input[0]["type"], "message");
    assert_eq!(input[0]["role"], "assistant");
    assert_eq!(input[1]["type"], "function_call");
    assert_eq!(input[2]["type"], "function_call_output");
    assert_eq!(input[3]["role"], "user");
}

#[test]
fn enrich_normalizes_string_and_missing_input() {
    let mut s = store_with("resp_prev11111111", j(r#"[{"type": "message", "role": "assistant", "content": []}]"#));
    let mut req = j(r#"{"model": "m", "previous_response_id": "resp_prev11111111", "input": "hello"}"#);
    enrich_request_with_history(&mut s, &mut req).expect("enrich ok");
    let r = v(&req);
    assert_eq!(r["input"].as_array().unwrap().len(), 2);
    assert_eq!(r["input"][0]["role"], "assistant", "history first");
    assert_eq!(r["input"][1]["role"], "user");
    let mut req = j(r#"{"model": "m", "previous_response_id": "resp_prev11111111"}"#);
    enrich_request_with_history(&mut s, &mut req).expect("enrich ok");
    assert_eq!(v(&req)["input"].as_array().unwrap().len(), 1);
}

#[test]
fn enrich_unknown_reference_errors() {
    let mut s = ResponseHistoryStore::new();
    let mut req = j(r#"{"model": "m", "previous_response_id": "resp_gone1111111"}"#);
    let err = enrich_request_with_history(&mut s, &mut req).expect_err("unknown id");
    assert!(err.contains("unknown previous_response_id"), "error names the fix: {err}");
}

#[test]
fn enrich_noop_without_reference() {
    let mut s = ResponseHistoryStore::new();
    let mut req = j(r#"{"model": "m", "input": [{"type": "message", "role": "user", "content": "hi"}]}"#);
    enrich_request_with_history(&mut s, &mut req).expect("noop ok");
    assert_eq!(v(&req)["input"].as_array().unwrap().len(), 1);
}

#[test]
fn response_id_plausibility() {
    assert!(plausible_response_id("resp_12345678"));
    assert!(!plausible_response_id("resp_1234567"));
    assert!(!plausible_response_id(&format!("resp_{}", "a".repeat(124))));
    assert!(plausible_response_id(&format!("resp_{}", "a".repeat(123))));
}

#[test]
fn entry_evicted_after_capacity_further_records() {
    let mut s = ResponseHistoryStore::new();
    s.record("resp_target_000001", j(r#"[{"k":0}]"#));
    for i in 0..MAX_ENTRIES {
        s.record(&format!("resp_other_{i:08}"), j(r#"[{"k":1}]"#));
    }
    assert_eq!(s.len(), MAX_ENTRIES);
    assert!(s.restore("resp_target_000001").is_none());
    let mut s = ResponseHistoryStore::new();
    s.record("resp_target_000001", j(r#"[{"k":0}]"#));
    for i in 0..MAX_ENTRIES - 1 {
        s.record(&format!("resp_other_{i:08}"), j(r#"[{"k":1}]"#));
    }
    assert!(s.restore("resp_target_000001").is_some());
}

#[test]
fn entry_evicted_by_records_of_ids_already_stored() {
    let mut s = ResponseHistoryStore::new();
    for i in 0..10 {
        s.record(&format!("resp_other_{i:08}"), j(r#"[{"k":1}]"#));
    }
    s.record("resp_target_000001", j(r#"[{"k":0}]"#));
    for i in 0..MAX_ENTRIES {
        s.record(&format!("resp_other_{i:08}"), j(r#"[{"k":2}]"#));
    }
    assert!(s.restore("resp_target_000001").is_none());
}

#[test]
fn snapshot_extracts_completed_output_only() {
    let ev = j(r#"{"type": "response.completed"}"#);
    assert!(snapshot_from_events(std::slice::from_ref(&ev)).is_none());
    let ev = j(r#"{"type": "response.output_text.delta"}"#);
    assert!(snapshot_from_events(std::slice::from_ref(&ev)).is_none());
    let evs = vec![
        j(r#"{"type": "response.output_text.delta", "delta": "x"}"#),
        j(r#"{"type": "response.incomplete", "response": {"id": "resp_1", "output": [{"type": "message"}]}}"#),
    ];
    let (id, out) = snapshot_from_events(&evs).unwrap();
    assert_eq!(id, "resp_1");
    assert_eq!(v(&out)[0]["type"], "message");
    let failed = j(r#"{"type": "response.failed", "response": {"id": "resp_1", "output": []}}"#);
    assert!(snapshot_from_events(std::slice::from_ref(&failed)).is_none());
}
