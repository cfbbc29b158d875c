//! The streamed tool calls of a Chat stream, as Responses output items.
use vstd::prelude::*;

use crate::convert_resp::{
    arguments_object_v, call_item, canonical_args, canonicalize_json_string_if_parseable, empty_item,
    parse_tool_arguments_object,
};
use crate::dto::{opt_str, OutputItemV, ResponsesOutputOut};
use crate::json::{Json, JsonV};
use crate::text::{chars_of, push_all, string_from, trim, trim_chars};

verus! {

/// One Chat tool call gathered from a stream, by its chat index.
pub struct ChatTool {
    pub output_index: i64,
    pub id: String,
    pub name: String,
    pub arguments: String,
    /// Reasoning that belongs to this call.
    pub reasoning_content: String,
    /// The call stands for hosted web search.
    pub bridged: bool,
    /// The call is a custom tool sent as a function.
    pub custom: bool,
    /// The call is the tool-search proxy.
    pub tool_search: bool,
    /// A namespaced tool's own name and namespace.
    pub orig_name: Option<String>,
    pub namespace: Option<String>,
    /// Both id and name are known.
    pub started: bool,
    /// Its `output_item.added` event went out.
    pub released: bool,
    /// Argument text held back until the call is released.
    pub pending_args: String,
    /// Its done events went out.
    pub done: bool,
}

/// The reasoning of a call, trimmed, when it is not blank.
pub open spec fn call_reasoning(t: ChatTool) -> Option<Seq<char>> {
    if trim(t.reasoning_content@).len() > 0 {
        Some(trim(t.reasoning_content@))
    } else {
        None
    }
}

/// A streamed tool call as an output item: a bridged call is a
/// `web_search_call` with the query of its arguments; a custom call a
/// `custom_tool_call` with its input restored; the tool-search proxy a
/// `tool_search_call` with its arguments as an object; anything else a
/// `function_call` with the tool's own name and namespace and canonical
/// arguments.
pub open spec fn tool_output_item_v(t: ChatTool, status: Seq<char>) -> OutputItemV {
    let rc = call_reasoning(t);
    let args = canonical_args(t.arguments@);
    if t.bridged {
        OutputItemV {
            query: crate::sse::web_search_query_v(t.arguments@),
            reasoning_content: rc,
            ..empty_item("web_search_call"@, t.id@, status)
        }
    } else if t.custom {
        call_item(
            "custom_tool_call"@,
            "ctc_"@ + t.id@,
            status,
            t.id@,
            Some(t.name@),
            None,
            None,
            rc,
            Some(crate::dto::custom_tool_input(args)),
            None,
        )
    } else if t.tool_search {
        call_item(
            "tool_search_call"@,
            Seq::empty(),
            status,
            t.id@,
            None,
            None,
            Some(arguments_object_v(args)),
            rc,
            None,
            Some("client"@),
        )
    } else {
        call_item(
            "function_call"@,
            "fc_"@ + t.id@,
            status,
            t.id@,
            Some(
                match t.orig_name {
                    Some(n) => n@,
                    None => t.name@,
                },
            ),
            opt_str(t.namespace),
            Some(JsonV::Str(args)),
            rc,
            None,
            None,
        )
    }
}

/// The item id a streamed tool call's events use: the bare id for a
/// bridged call, `ctc_` before it for a custom call, else `fc_`.
pub open spec fn tool_item_id_v(t: ChatTool) -> Seq<char> {
    if t.bridged {
        t.id@
    } else if t.custom {
        "ctc_"@ + t.id@
    } else {
        "fc_"@ + t.id@
    }
}

fn prefixed(prefix: &str, s: &String) -> (r: String)
    ensures
        r@ == prefix@ + s@,
{
    let mut v = chars_of(prefix);
    push_all(&mut v, chars_of(s.as_str()).as_slice());
    string_from(v.as_slice())
}

fn clone_opt(o: &Option<String>) -> (r: Option<String>)
    ensures
        opt_str(r) == opt_str(*o),
{
    match o {
        Some(s) => Some(s.clone()),
        None => None,
    }
}

/// The item id of a streamed tool call (see `tool_item_id_v`).
pub fn tool_item_id(tool: &ChatTool) -> (r: String)
    ensures
        r@ == tool_item_id_v(*tool),
{
    if tool.bridged {
        tool.id.clone()
    } else if tool.custom {
        prefixed("ctc_", &tool.id)
    } else {
        prefixed("fc_", &tool.id)
    }
}

/// A streamed tool call as an output item (see `tool_output_item_v`).
pub fn tool_output_item(tool: &ChatTool, status: &str) -> (r: ResponsesOutputOut)
    ensures
        r@ == tool_output_item_v(*tool, status@),
{
    let t = trim_chars(chars_of(tool.reasoning_content.as_str()).as_slice());
    let reasoning_content = if t.len() > 0 {
        Some(string_from(t.as_slice()))
    } else {
        None
    };
    let ghost v = tool_output_item_v(*tool, status@);
    let r = if tool.bridged {
        ResponsesOutputOut {
            item_type: crate::text::owned("web_search_call"),
            id: tool.id.clone(),
            status: crate::text::owned(status),
            role: String::new(),
            content: Vec::new(),
            summary: Vec::new(),
            quality: String::new(),
            size: String::new(),
            call_id: None,
            name: None,
            namespace: None,
            arguments: None,
            reasoning_content,
            query: crate::sse::parse_web_search_query(tool.arguments.as_str()),
            input: None,
            execution: None,
        }
    } else if tool.custom {
        let args = canonicalize_json_string_if_parseable(tool.arguments.as_str());
        ResponsesOutputOut {
            item_type: crate::text::owned("custom_tool_call"),
            id: prefixed("ctc_", &tool.id),
            status: crate::text::owned(status),
            role: String::new(),
            content: Vec::new(),
            summary: Vec::new(),
            quality: String::new(),
            size: String::new(),
            call_id: Some(tool.id.clone()),
            name: Some(tool.name.clone()),
            namespace: None,
            arguments: None,
            reasoning_content,
            query: None,
            input: Some(crate::dto::custom_tool_input_from_chat_arguments(args.as_str())),
            execution: None,
        }
    } else if tool.tool_search {
        let args = canonicalize_json_string_if_parseable(tool.arguments.as_str());
        ResponsesOutputOut {
            item_type: crate::text::owned("tool_search_call"),
            id: String::new(),
            status: crate::text::owned(status),
            role: String::new(),
            content: Vec::new(),
            summary: Vec::new(),
            quality: String::new(),
            size: String::new(),
            call_id: Some(tool.id.clone()),
            name: None,
            namespace: None,
            arguments: Some(parse_tool_arguments_object(args.as_str())),
            reasoning_content,
            query: None,
            input: None,
            execution: Some(crate::text::owned("client")),
        }
    } else {
        let name = match &tool.orig_name {
            Some(n) => n.clone(),
            None => tool.name.clone(),
        };
        ResponsesOutputOut {
            item_type: crate::text::owned("function_call"),
            id: prefixed("fc_", &tool.id),
            status: crate::text::owned(status),
            role: String::new(),
            content: Vec::new(),
            summary: Vec::new(),
            quality: String::new(),
            size: String::new(),
            call_id: Some(tool.id.clone()),
            name: Some(name),
            namespace: clone_opt(&tool.namespace),
            arguments: Some(Json::Str(canonicalize_json_string_if_parseable(tool.arguments.as_str()))),
            reasoning_content,
            query: None,
            input: None,
            execution: None,
        }
    };
    assert(r@.content =~= v.content);
    assert(r@.summary =~= v.summary);
    assert(r@.role =~= v.role);
    assert(r@.quality =~= v.quality);
    assert(r@.size =~= v.size);
    r
}

} // verus!

verus! {

// ---------------------------------------------------------------------------
// Ending a converted stream
// ---------------------------------------------------------------------------
/// Why a converted stream fails.
#[derive(Clone, Copy, Debug, PartialEq, Eq, Structural)]
pub enum FailKind {
    /// The upstream sent an error frame.
    Upstream,
    /// The upstream ended before any output.
    StreamTruncated,
    /// Every tool call lacked a name and nothing else came out.
    ToolCallDropped,
}

/// The terminal event of a converted stream.
#[derive(Clone, Copy, Debug, PartialEq, Eq, Structural)]
pub enum Terminal {
    Failed(FailKind),
    Incomplete,
    Completed,
}

/// The terminal event, first rule first: an upstream error frame fails
/// the response; a stream cut off with no output fails as truncated; one
/// cut off before any finish reason is incomplete; dropped nameless tool
/// calls with no output fail unless the response was cut short; otherwise
/// the status of the finish reason decides.
pub open spec fn terminal_v(
    upstream_failed: bool,
    truncated: bool,
    has_output: bool,
    finish_reason_seen: bool,
    dropped_tools: nat,
    incomplete: bool,
) -> Terminal {
    if upstream_failed {
        Terminal::Failed(FailKind::Upstream)
    } else if truncated && !has_output {
        Terminal::Failed(FailKind::StreamTruncated)
    } else if truncated && !finish_reason_seen {
        Terminal::Incomplete
    } else if dropped_tools > 0 && !has_output && !incomplete {
        Terminal::Failed(FailKind::ToolCallDropped)
    } else if incomplete {
        Terminal::Incomplete
    } else {
        Terminal::Completed
    }
}

/// The terminal event of a converted stream (see `terminal_v`).
pub fn terminal_event(
    upstream_failed: bool,
    truncated: bool,
    has_output: bool,
    finish_reason_seen: bool,
    dropped_tools: usize,
    incomplete: bool,
) -> (r: Terminal)
    ensures
        r == terminal_v(upstream_failed, truncated, has_output, finish_reason_seen, dropped_tools as nat, incomplete),
{
    if upstream_failed {
        Terminal::Failed(FailKind::Upstream)
    } else if truncated && !has_output {
        Terminal::Failed(FailKind::StreamTruncated)
    } else if truncated && !finish_reason_seen {
        Terminal::Incomplete
    } else if dropped_tools > 0 && !has_output && !incomplete {
        Terminal::Failed(FailKind::ToolCallDropped)
    } else if incomplete {
        Terminal::Incomplete
    } else {
        Terminal::Completed
    }
}

/// What happens to a converted stream.
#[derive(Clone, Copy, Debug, PartialEq, Eq, Structural)]
pub enum StreamEvent {
    /// The upstream body failed to arrive.
    TransportError,
    /// A chunk was converted; `done` when it held `[DONE]`, `failed` when
    /// the conversion failed.
    Frames { done: bool, failed: bool },
    /// The upstream body ended.
    UpstreamEnded,
    /// The client went away before the stream ended.
    ClientGone,
}

/// How the stream is closed at a step.
#[derive(Clone, Copy, Debug, PartialEq, Eq, Structural)]
pub enum Closing {
    /// Nothing to close.
    Open,
    /// Close with a failure for the transport error.
    Transport,
    /// Close normally (`[DONE]` or an error frame).
    Normal,
    /// Close as cut off.
    Truncated,
}

/// Whether the stream was closed and whether usage was billed.
#[derive(Clone, Copy, Debug, PartialEq, Eq, Structural)]
pub struct StreamGate {
    pub finished: bool,
    pub recorded: bool,
}

/// What a step asks of the runtime: how to close the stream, whether to
/// keep the response in the history, and whether to bill.
#[derive(Clone, Copy, Debug, PartialEq, Eq, Structural)]
pub struct StreamAction {
    pub closing: Closing,
    pub keep_history: bool,
    pub bill: bool,
}

/// One step: the stream closes at most once, on the first transport
/// error, terminal chunk or end of the upstream body; usage is billed
/// with the closing, or when the client goes away first, and never twice.
pub open spec fn stream_step_v(s: StreamGate, e: StreamEvent) -> (StreamGate, StreamAction) {
    let closing = match e {
        StreamEvent::TransportError => if !s.finished { Closing::Transport } else { Closing::Open },
        StreamEvent::Frames { done, failed } => if (done || failed) && !s.finished {
            Closing::Normal
        } else {
            Closing::Open
        },
        StreamEvent::UpstreamEnded => if !s.finished { Closing::Truncated } else { Closing::Open },
        StreamEvent::ClientGone => Closing::Open,
    };
    let bill = !s.recorded && (closing != Closing::Open || e == StreamEvent::ClientGone);
    (
        StreamGate { finished: s.finished || closing != Closing::Open, recorded: s.recorded || bill },
        StreamAction {
            closing,
            keep_history: closing == Closing::Normal || closing == Closing::Truncated,
            bill,
        },
    )
}

/// The next gate and action of a converted stream (see `stream_step_v`).
pub fn next_stream_step(s: StreamGate, e: StreamEvent) -> (r: (StreamGate, StreamAction))
    ensures
        r == stream_step_v(s, e),
{
    let closing = match e {
        StreamEvent::TransportError => if !s.finished { Closing::Transport } else { Closing::Open },
        StreamEvent::Frames { done, failed } => if (done || failed) && !s.finished {
            Closing::Normal
        } else {
            Closing::Open
        },
        StreamEvent::UpstreamEnded => if !s.finished { Closing::Truncated } else { Closing::Open },
        StreamEvent::ClientGone => Closing::Open,
    };
    let open = match closing {
        Closing::Open => true,
        _ => false,
    };
    let gone = match e {
        StreamEvent::ClientGone => true,
        _ => false,
    };
    let bill = !s.recorded && (!open || gone);
    let keep = match closing {
        Closing::Normal => true,
        Closing::Truncated => true,
        _ => false,
    };
    (
        StreamGate { finished: s.finished || !open, recorded: s.recorded || bill },
        StreamAction { closing, keep_history: keep, bill },
    )
}

/// Gate, closings and bills after the given events.
pub open spec fn stream_run(s: StreamGate, es: Seq<StreamEvent>) -> (StreamGate, nat, nat)
    decreases es.len(),
{
    if es.len() == 0 {
        (s, 0, 0)
    } else {
        let p = stream_run(s, es.drop_last());
        let st = stream_step_v(p.0, es.last());
        (
            st.0,
            p.1 + if st.1.closing != Closing::Open { 1nat } else { 0nat },
            p.2 + if st.1.bill { 1nat } else { 0nat },
        )
    }
}

proof fn lemma_stream_run(es: Seq<StreamEvent>)
    ensures
        ({
            let r = stream_run(StreamGate { finished: false, recorded: false }, es);
            &&& r.1 <= 1 && r.2 <= 1
            &&& r.0.finished <==> r.1 == 1
            &&& r.0.recorded <==> r.2 == 1
            &&& (es.contains(StreamEvent::UpstreamEnded) || es.contains(StreamEvent::ClientGone) ==> r.0.recorded)
            &&& (es.contains(StreamEvent::UpstreamEnded) || es.contains(StreamEvent::TransportError) ==> r.0.finished)
            &&& (r.0.finished ==> r.0.recorded)
        }),
    decreases es.len(),
{
    if es.len() > 0 {
        let p = es.drop_last();
        lemma_stream_run(p);
        assert forall|x: StreamEvent| es.contains(x) implies p.contains(x) || es.last() == x by {
            let i = choose|i: int| 0 <= i < es.len() && es[i] == x;
            if i < es.len() - 1 {
                assert(p[i] == x);
            }
        }
        assert forall|x: StreamEvent| p.contains(x) implies es.contains(x) by {
            let i = choose|i: int| 0 <= i < p.len() && p[i] == x;
            assert(es[i] == x);
        }
    }
}

/// A converted stream is closed at most once and billed at most once,
/// whatever happens to it; once the upstream body ends or the client goes
/// away, usage has been billed; once the upstream body ends or fails, the
/// stream has been closed; and a closed stream has been billed.
pub proof fn law_stream_closes_and_bills_once(es: Seq<StreamEvent>)
    ensures
        ({
            let r = stream_run(StreamGate { finished: false, recorded: false }, es);
            &&& r.1 <= 1
            &&& r.2 <= 1
            &&& (es.contains(StreamEvent::UpstreamEnded) || es.contains(StreamEvent::ClientGone) ==> r.2 == 1)
            &&& (es.contains(StreamEvent::UpstreamEnded) || es.contains(StreamEvent::TransportError) ==> r.1 == 1)
            &&& (r.1 == 1 ==> r.2 == 1)
        }),
{
    lemma_stream_run(es);
}

} // verus!
