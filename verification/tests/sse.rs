use llm_gateway::sse::parse_web_search_query;
use llm_gateway::sse::extract_stream_error;
use llm_gateway::sse::{find_event_end, lines_exec, ChatSseParser, SseEvent};

#[test]
fn sse_parser_frames_events_and_done() {
    let mut parser = ChatSseParser::new();
    let mut out: Vec<SseEvent> = Vec::new();
    let done = parser.push(b"data: {\"a\":1}\n\ndata: {\"b\":2}\n\ndata: [DONE]\n\n", &mut out);
    assert!(done);
    assert_eq!(out.iter().map(|e| e.data.as_str()).collect::<Vec<_>>(), vec![r#"{"a":1}"#, r#"{"b":2}"#]);
    let mut parser = ChatSseParser::new();
    let mut out = Vec::new();
    assert!(!parser.push(b"data: {\"c\"", &mut out));
    assert!(!parser.push(b":3}\n\n", &mut out));
    assert_eq!(out.iter().map(|e| e.data.as_str()).collect::<Vec<_>>(), vec![r#"{"c":3}"#]);
    let mut parser = ChatSseParser::new();
    let mut out = Vec::new();
    let done = parser.push(b"event: ping\ndata: {}\n\n: keepalive\n\n", &mut out);
    assert!(!done);
    assert_eq!(out.len(), 1);
    assert_eq!(out[0].data, "{}");
    assert_eq!(out[0].event.as_deref(), Some("ping"));
}

#[test]
fn event_end_takes_earliest_blank_line() {
    assert_eq!(find_event_end(b"data: x\n\nrest"), Some(9));
    assert_eq!(find_event_end(b"data: x\r\n\r\nrest"), Some(11));
    assert_eq!(find_event_end(b"data: x\r\n\r\ny\n\n"), Some(11));
    assert_eq!(find_event_end(b"data: x\n\ny\r\n\r\n"), Some(9));
    assert_eq!(find_event_end(b"data: x\n"), None);
}

#[test]
fn mixed_separators_end_one_event_each() {
    let mut parser = ChatSseParser::new();
    let mut out = Vec::new();
    assert!(!parser.push(b"data: a\r\n\r\ndata: b\n\n", &mut out));
    assert_eq!(out.len(), 2);
    assert_eq!(out[0].data, "a");
    assert_eq!(out[1].data, "b");
}

#[test]
fn multi_line_data_joined_with_newline() {
    let mut parser = ChatSseParser::new();
    let mut out = Vec::new();
    assert!(!parser.push(b"data: a\r\ndata:  b \r\n\r\n", &mut out));
    assert_eq!(out.len(), 1);
    assert_eq!(out[0].data, "a\nb");
    assert!(out[0].event.is_none());
}

#[test]
fn lines_follow_str_lines() {
    let v: Vec<char> = "a\r\nb\n\nc".chars().collect();
    let ls: Vec<String> = lines_exec(&v).into_iter().map(|l| l.into_iter().collect()).collect();
    assert_eq!(ls, vec!["a", "b", "", "c"]);
    let v: Vec<char> = "x\n".chars().collect();
    assert_eq!(lines_exec(&v).len(), 1);
}

#[test]
fn web_search_query_from_complete_arguments() {
    assert_eq!(parse_web_search_query(r#"{"query":"Rust async"}"#).as_deref(), Some("Rust async"));
    assert_eq!(parse_web_search_query(r#"{"query":"Rust asyn"#), None);
    assert_eq!(parse_web_search_query(r#"{"q":"x"}"#), None);
}

#[test]
fn stream_errors_take_message_and_code() {
    let e = |text: &str| -> serde_json::Value {
        let j = llm_gateway::codec::parse_json(text.as_bytes()).unwrap();
        serde_json::from_slice(&llm_gateway::codec::to_json_bytes(&extract_stream_error(&j))).unwrap()
    };
    assert_eq!(e(r#"{"error":{"message":"boom","code":"rate_limit"}}"#), serde_json::from_str::<serde_json::Value>(r#"{"code":"rate_limit","message":"boom"}"#).unwrap());
    assert_eq!(e(r#"{"message":"m","code":5}"#), serde_json::from_str::<serde_json::Value>(r#"{"message":"m"}"#).unwrap());
    assert_eq!(e(r#""plain""#), serde_json::from_str::<serde_json::Value>(r#"{"message":"plain"}"#).unwrap());
    assert_eq!(e("42"), serde_json::from_str::<serde_json::Value>(r#"{"message":"upstream stream error"}"#).unwrap());
    assert_eq!(e(r#"{"detail":"d"}"#), serde_json::from_str::<serde_json::Value>(r#"{"message":"d"}"#).unwrap());
}
