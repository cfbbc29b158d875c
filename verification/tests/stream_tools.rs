use llm_gateway::codec::to_json_bytes;
use llm_gateway::dto::item_json;
use llm_gateway::stream::{tool_item_id, tool_output_item, ChatTool};
use serde_json::Value;

fn tool(id: &str, name: &str, arguments: &str) -> ChatTool {
    ChatTool {
        output_index: 0,
        id: id.to_string(),
        name: name.to_string(),
        arguments: arguments.to_string(),
        reasoning_content: String::new(),
        bridged: false,
        custom: false,
        tool_search: false,
        orig_name: None,
        namespace: None,
        started: false,
        released: false,
        pending_args: String::new(),
        done: false,
    }
}

fn item(t: &ChatTool, status: &str) -> Value {
    serde_json::from_slice(&to_json_bytes(&item_json(&tool_output_item(t, status)))).unwrap()
}

#[test]
fn function_call_item_with_canonical_arguments() {
    let mut t = tool("call_1", "mcp__s__q", "{\"b\": 1, \"a\": 2}");
    t.orig_name = Some("q".into());
    t.namespace = Some("mcp__s".into());
    t.reasoning_content = "  think  ".into();
    let v = item(&t, "completed");
    assert_eq!(v["type"], "function_call");
    assert_eq!(v["id"], "fc_call_1");
    assert_eq!(v["call_id"], "call_1");
    assert_eq!(v["name"], "q");
    assert_eq!(v["namespace"], "mcp__s");
    assert_eq!(v["arguments"], "{\"a\":2,\"b\":1}");
    assert_eq!(v["reasoning_content"], "think");
    assert_eq!(tool_item_id(&t), "fc_call_1");
}

#[test]
fn bridged_custom_and_search_items() {
    let mut t = tool("ws_1", "web_search", "{\"query\":\"rust\"}");
    t.bridged = true;
    let v = item(&t, "completed");
    assert_eq!(v["type"], "web_search_call");
    assert_eq!(v["id"], "ws_1");
    assert_eq!(v["query"], "rust");
    assert!(v.get("call_id").is_none());
    assert_eq!(tool_item_id(&t), "ws_1");

    let mut t = tool("c9", "apply_patch", "{\"input\":\"*** patch ***\"}");
    t.custom = true;
    let v = item(&t, "incomplete");
    assert_eq!(v["type"], "custom_tool_call");
    assert_eq!(v["id"], "ctc_c9");
    assert_eq!(v["status"], "incomplete");
    assert_eq!(v["input"], "*** patch ***");
    assert!(v.get("arguments").is_none());
    assert_eq!(tool_item_id(&t), "ctc_c9");

    let mut t = tool("c2", "tool_search", "{\"query\":\"gmail\"}");
    t.tool_search = true;
    let v = item(&t, "completed");
    assert_eq!(v["type"], "tool_search_call");
    assert!(v.get("id").is_none());
    assert_eq!(v["execution"], "client");
    assert_eq!(v["arguments"]["query"], "gmail");
}

use llm_gateway::stream::{
    next_stream_step, terminal_event, Closing, FailKind, StreamEvent, StreamGate, Terminal,
};

#[test]
fn terminal_event_rules() {
    assert_eq!(terminal_event(true, true, true, true, 3, true), Terminal::Failed(FailKind::Upstream));
    assert_eq!(terminal_event(false, true, false, true, 0, false), Terminal::Failed(FailKind::StreamTruncated));
    assert_eq!(terminal_event(false, true, true, false, 0, false), Terminal::Incomplete);
    assert_eq!(terminal_event(false, true, true, true, 0, false), Terminal::Completed);
    assert_eq!(terminal_event(false, false, false, true, 2, false), Terminal::Failed(FailKind::ToolCallDropped));
    assert_eq!(terminal_event(false, false, false, true, 2, true), Terminal::Incomplete);
    assert_eq!(terminal_event(false, false, true, true, 0, false), Terminal::Completed);
}

#[test]
fn stream_closes_and_bills_once() {
    let mut g = StreamGate { finished: false, recorded: false };
    let events = [
        StreamEvent::Frames { done: false, failed: false },
        StreamEvent::Frames { done: true, failed: false },
        StreamEvent::TransportError,
        StreamEvent::UpstreamEnded,
        StreamEvent::ClientGone,
    ];
    let mut closings = 0;
    let mut bills = 0;
    for (k, e) in events.iter().enumerate() {
        let (next, action) = next_stream_step(g, *e);
        if action.closing != Closing::Open {
            closings += 1;
            assert_eq!(k, 1);
            assert_eq!(action.closing, Closing::Normal);
            assert!(action.keep_history);
        }
        if action.bill {
            bills += 1;
        }
        g = next;
    }
    assert_eq!((closings, bills), (1, 1));
    let (g2, a) = next_stream_step(StreamGate { finished: false, recorded: false }, StreamEvent::ClientGone);
    assert!(a.bill && !g2.finished);
    let (_, a) = next_stream_step(g2, StreamEvent::UpstreamEnded);
    assert_eq!(a.closing, Closing::Truncated);
    assert!(!a.bill);
}
