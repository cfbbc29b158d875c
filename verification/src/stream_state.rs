//! The incremental converter from a Chat completion stream to Responses
//! stream events: each chunk gives zero or more events; finishing gives the
//! done events still owed and exactly one terminal event.
use vstd::prelude::*;

use crate::json::{vget_str, Json, JsonNumber, JsonV};
use crate::text::{chars_of, find, has_prefix, owned, slice_range, starts_with, string_from, trim_bounds};

verus! {

// ---------------------------------------------------------------------------
// A leading think block in streamed content
// ---------------------------------------------------------------------------
/// Where the splitter stands.
#[derive(Clone, Copy, PartialEq, Eq, Structural)]
pub enum ThinkMode {
    /// Still deciding whether the content opens with `<think>`.
    Detect,
    /// Inside the opening think block.
    Think,
    /// Everything further is answer text.
    Pass,
}

/// Separates a `<think>…</think>` block that opens a streamed answer from
/// the answer text. Text is held back while undecided and while inside the
/// block; the block's text comes out once it closes.
pub struct InlineThinkState {
    pub mode: ThinkMode,
    pub buf: Vec<char>,
}

fn text_of(v: &[char]) -> (r: String)
    ensures
        r@ == v@,
{
    string_from(v)
}

impl InlineThinkState {
    pub fn new() -> (r: Self)
        ensures
            r.mode == ThinkMode::Detect,
    {
        InlineThinkState { mode: ThinkMode::Detect, buf: Vec::new() }
    }

    fn take_think(&mut self, think: &mut Vec<String>, text: &mut Vec<String>)
        ensures
            final(self).mode == ThinkMode::Think || final(self).mode == ThinkMode::Pass,
    {
        let close = chars_of("</think>");
        match find(self.buf.as_slice(), close.as_slice()) {
            Some(j) => {
                let n = self.buf.len();
                proof {
                    reveal_strlit("</think>");
                }
                let inner = slice_range(self.buf.as_slice(), 0, j);
                let rest = slice_range(self.buf.as_slice(), j + 8, n);
                if inner.len() > 0 {
                    think.push(text_of(inner.as_slice()));
                }
                if rest.len() > 0 {
                    text.push(text_of(rest.as_slice()));
                }
                self.buf = Vec::new();
                self.mode = ThinkMode::Pass;
            },
            None => {
                self.mode = ThinkMode::Think;
            },
        }
    }

    /// Feeds streamed content; returns the think text and the answer text
    /// that are ready.
    pub fn feed(&mut self, content: &str) -> (r: (Vec<String>, Vec<String>))
    {
        let mut think: Vec<String> = Vec::new();
        let mut text: Vec<String> = Vec::new();
        match self.mode {
            ThinkMode::Pass => {
                text.push(owned(content));
            },
            ThinkMode::Think => {
                crate::text::push_all(&mut self.buf, chars_of(content).as_slice());
                self.take_think(&mut think, &mut text);
            },
            ThinkMode::Detect => {
                crate::text::push_all(&mut self.buf, chars_of(content).as_slice());
                let (a, _) = trim_bounds(self.buf.as_slice());
                let n = self.buf.len();
                let t = slice_range(self.buf.as_slice(), a, n);
                let open = chars_of("<think>");
                proof {
                    reveal_strlit("<think>");
                }
                if starts_with(t.as_slice(), open.as_slice()) {
                    self.buf = slice_range(t.as_slice(), 7, t.len());
                    self.take_think(&mut think, &mut text);
                } else if t.len() < 7 && starts_with(open.as_slice(), t.as_slice()) {
                } else {
                    text.push(text_of(self.buf.as_slice()));
                    self.buf = Vec::new();
                    self.mode = ThinkMode::Pass;
                }
            },
        }
        (think, text)
    }

    /// At the end of the stream: an unclosed block is think text; undecided
    /// content is answer text.
    pub fn flush(&mut self) -> (r: (Vec<String>, Vec<String>))
        ensures
            final(self).mode == ThinkMode::Pass,
    {
        let mut think: Vec<String> = Vec::new();
        let mut text: Vec<String> = Vec::new();
        if self.buf.len() > 0 {
            match self.mode {
                ThinkMode::Think => think.push(text_of(self.buf.as_slice())),
                _ => text.push(text_of(self.buf.as_slice())),
            }
        }
        self.buf = Vec::new();
        self.mode = ThinkMode::Pass;
        (think, text)
    }
}

// ---------------------------------------------------------------------------
// Events
// ---------------------------------------------------------------------------
/// The events a chunk or the done step can give (never a terminal one).
#[derive(Clone, Copy, PartialEq, Eq, Structural)]
pub enum EventKind {
    Created,
    InProgress,
    ItemAdded,
    ItemDone,
    TextDelta,
    TextDone,
    PartAdded,
    PartDone,
    ReasoningDelta,
    ReasoningDone,
    SummaryPartAdded,
    SummaryPartDone,
    ArgsDelta,
    ArgsDone,
    CustomInputDelta,
    CustomInputDone,
}

pub open spec fn kind_name(k: EventKind) -> Seq<char> {
    match k {
        EventKind::Created => "response.created"@,
        EventKind::InProgress => "response.in_progress"@,
        EventKind::ItemAdded => "response.output_item.added"@,
        EventKind::ItemDone => "response.output_item.done"@,
        EventKind::TextDelta => "response.output_text.delta"@,
        EventKind::TextDone => "response.output_text.done"@,
        EventKind::PartAdded => "response.content_part.added"@,
        EventKind::PartDone => "response.content_part.done"@,
        EventKind::ReasoningDelta => "response.reasoning_summary_text.delta"@,
        EventKind::ReasoningDone => "response.reasoning_summary_text.done"@,
        EventKind::SummaryPartAdded => "response.reasoning_summary_part.added"@,
        EventKind::SummaryPartDone => "response.reasoning_summary_part.done"@,
        EventKind::ArgsDelta => "response.function_call_arguments.delta"@,
        EventKind::ArgsDone => "response.function_call_arguments.done"@,
        EventKind::CustomInputDelta => "response.custom_tool_call_input.delta"@,
        EventKind::CustomInputDone => "response.custom_tool_call_input.done"@,
    }
}

pub fn kind_str(k: EventKind) -> (r: &'static str)
    ensures
        r@ == kind_name(k),
{
    match k {
        EventKind::Created => "response.created",
        EventKind::InProgress => "response.in_progress",
        EventKind::ItemAdded => "response.output_item.added",
        EventKind::ItemDone => "response.output_item.done",
        EventKind::TextDelta => "response.output_text.delta",
        EventKind::TextDone => "response.output_text.done",
        EventKind::PartAdded => "response.content_part.added",
        EventKind::PartDone => "response.content_part.done",
        EventKind::ReasoningDelta => "response.reasoning_summary_text.delta",
        EventKind::ReasoningDone => "response.reasoning_summary_text.done",
        EventKind::SummaryPartAdded => "response.reasoning_summary_part.added",
        EventKind::SummaryPartDone => "response.reasoning_summary_part.done",
        EventKind::ArgsDelta => "response.function_call_arguments.delta",
        EventKind::ArgsDone => "response.function_call_arguments.done",
        EventKind::CustomInputDelta => "response.custom_tool_call_input.delta",
        EventKind::CustomInputDone => "response.custom_tool_call_input.done",
    }
}

/// The name of a terminal event.
pub open spec fn terminal_name(t: crate::stream::Terminal) -> Seq<char> {
    match t {
        crate::stream::Terminal::Failed(_) => "response.failed"@,
        crate::stream::Terminal::Incomplete => "response.incomplete"@,
        crate::stream::Terminal::Completed => "response.completed"@,
    }
}

pub open spec fn is_terminal_name(t: Seq<char>) -> bool {
    t == "response.failed"@ || t == "response.incomplete"@ || t == "response.completed"@
}

/// The `type` of an event.
pub open spec fn event_type(e: JsonV) -> Option<Seq<char>> {
    vget_str(e, "type"@)
}

/// None of the events is terminal.
pub open spec fn plain_event(e: JsonV) -> bool {
    event_type(e) is Some && !is_terminal_name(event_type(e).unwrap())
}

pub open spec fn nonterminal(evs: Seq<Json>) -> bool {
    forall|i: int| 0 <= i < evs.len() ==> plain_event(#[trigger] evs[i]@)
}

proof fn lemma_kind_not_terminal(k: EventKind)
    ensures
        !is_terminal_name(kind_name(k)),
{
    reveal_strlit("response.failed");
    reveal_strlit("response.incomplete");
    reveal_strlit("response.completed");
    reveal_strlit("response.created");
    reveal_strlit("response.in_progress");
    reveal_strlit("response.output_item.added");
    reveal_strlit("response.output_item.done");
    reveal_strlit("response.output_text.delta");
    reveal_strlit("response.output_text.done");
    reveal_strlit("response.content_part.added");
    reveal_strlit("response.content_part.done");
    reveal_strlit("response.reasoning_summary_text.delta");
    reveal_strlit("response.reasoning_summary_text.done");
    reveal_strlit("response.reasoning_summary_part.added");
    reveal_strlit("response.reasoning_summary_part.done");
    reveal_strlit("response.function_call_arguments.delta");
    reveal_strlit("response.function_call_arguments.done");
    reveal_strlit("response.custom_tool_call_input.delta");
    reveal_strlit("response.custom_tool_call_input.done");
    let n = kind_name(k);
    match k {
        EventKind::Created => assert(n.len() == 16),
        EventKind::InProgress => assert(n.len() == 20),
        EventKind::ItemAdded => assert(n.len() == 26),
        EventKind::ItemDone => assert(n.len() == 25),
        EventKind::TextDelta => assert(n.len() == 26),
        EventKind::TextDone => assert(n.len() == 25),
        EventKind::PartAdded => assert(n.len() == 27),
        EventKind::PartDone => assert(n.len() == 26),
        EventKind::ReasoningDelta => assert(n.len() == 37),
        EventKind::ReasoningDone => assert(n.len() == 36),
        EventKind::SummaryPartAdded => assert(n.len() == 37),
        EventKind::SummaryPartDone => assert(n.len() == 36),
        EventKind::ArgsDelta => assert(n.len() == 38),
        EventKind::ArgsDone => assert(n.len() == 37),
        EventKind::CustomInputDelta => assert(n.len() == 37),
        EventKind::CustomInputDone => assert(n.len() == 36),
    }
    assert("response.failed"@.len() == 15);
    assert("response.incomplete"@.len() == 19);
    assert("response.completed"@.len() == 18);
}

fn push_opt(f: &mut Vec<(String, Json)>, k: &str, v: Option<Json>)
    ensures
        old(f)@.len() >= 1 ==> final(f)@.len() >= 1 && crate::json::fields_view(final(f)@)[0]
            == crate::json::fields_view(old(f)@)[0],
{
    let ghost f0 = crate::json::fields_view(f@);
    match v {
        Some(x) => {
            crate::dto::push_field(f, k, x);
            proof {
                if f0.len() > 0 {
                    assert(crate::json::fields_view(f@)[0] == f0[0]);
                    assert(f@.len() == crate::json::fields_view(f@).len());
                }
            }
        },
        None => {},
    }
}

fn opt_str_json(v: Option<String>) -> (r: Option<Json>)
{
    match v {
        Some(s) => Some(Json::Str(s)),
        None => None,
    }
}

fn opt_int_json(v: Option<i64>) -> (r: Option<Json>)
{
    match v {
        Some(i) => Some(crate::dto::int_json_of(i)),
        None => None,
    }
}

proof fn lemma_type_first(f: Seq<(String, Json)>, name: Seq<char>)
    requires
        f.len() >= 1,
        crate::json::fields_view(f)[0] == ("type"@, JsonV::Str(name)),
    ensures
        event_type(JsonV::Object(crate::json::fields_view(f))) == Some(name),
{
    let fs = crate::json::fields_view(f);
    assert(fs[0].0 == "type"@);
    assert(crate::json::key_index(fs, "type"@) == 0);
}

/// An event: its `type`, then the fields it carries, in the order clients
/// receive them.
pub fn event(
    kind: EventKind,
    response: Option<Json>,
    delta: Option<String>,
    item: Option<Json>,
    output_index: Option<i64>,
    content_index: Option<i64>,
    summary_index: Option<i64>,
    item_id: Option<String>,
    part: Option<Json>,
    input: Option<String>,
    text: Option<String>,
    arguments: Option<String>,
) -> (r: Json)
    ensures
        event_type(r@) == Some(kind_name(kind)),
{
    let mut f: Vec<(String, Json)> = Vec::new();
    assert(crate::json::fields_view(f@) =~= Seq::<(Seq<char>, JsonV)>::empty());
    let ty = crate::json::jstr(kind_str(kind));
    crate::dto::push_field(&mut f, "type", ty);
    assert(crate::json::fields_view(f@) =~= seq![("type"@, ty@)]);
    assert(crate::json::fields_view(f@)[0] == ("type"@, JsonV::Str(kind_name(kind))));
    assert(f@.len() == 1);
    push_opt(&mut f, "response", response);
    push_opt(&mut f, "delta", opt_str_json(delta));
    push_opt(&mut f, "item", item);
    push_opt(&mut f, "output_index", opt_int_json(output_index));
    push_opt(&mut f, "content_index", opt_int_json(content_index));
    push_opt(&mut f, "summary_index", opt_int_json(summary_index));
    push_opt(&mut f, "item_id", opt_str_json(item_id));
    push_opt(&mut f, "part", part);
    push_opt(&mut f, "input", opt_str_json(input));
    push_opt(&mut f, "text", opt_str_json(text));
    push_opt(&mut f, "arguments", opt_str_json(arguments));
    proof {
        crate::json::lemma_object_view(f);
        lemma_type_first(f@, kind_name(kind));
    }
    Json::Object(f)
}

fn terminal_str(t: crate::stream::Terminal) -> (r: &'static str)
    ensures
        r@ == terminal_name(t),
{
    match t {
        crate::stream::Terminal::Failed(_) => "response.failed",
        crate::stream::Terminal::Incomplete => "response.incomplete",
        crate::stream::Terminal::Completed => "response.completed",
    }
}

/// The terminal event carrying the final response.
fn terminal_event_json(t: crate::stream::Terminal, response: Json) -> (r: Json)
    ensures
        event_type(r@) == Some(terminal_name(t)),
{
    let mut f: Vec<(String, Json)> = Vec::new();
    assert(crate::json::fields_view(f@) =~= Seq::<(Seq<char>, JsonV)>::empty());
    let ty = crate::json::jstr(terminal_str(t));
    crate::dto::push_field(&mut f, "type", ty);
    assert(crate::json::fields_view(f@) =~= seq![("type"@, ty@)]);
    assert(crate::json::fields_view(f@)[0] == ("type"@, JsonV::Str(terminal_name(t))));
    let ghost f1 = crate::json::fields_view(f@);
    crate::dto::push_field(&mut f, "response", response);
    assert(crate::json::fields_view(f@)[0] == f1[0]);
    assert(f@.len() == crate::json::fields_view(f@).len());
    proof {
        crate::json::lemma_object_view(f);
        lemma_type_first(f@, terminal_name(t));
    }
    Json::Object(f)
}

/// Appends events that are not terminal.
fn extend_events(out: &mut Vec<Json>, more: Vec<Json>)
    requires
        nonterminal(old(out)@),
        nonterminal(more@),
    ensures
        nonterminal(final(out)@),
        final(out)@ == old(out)@ + more@,
{
    let mut more = more;
    let ghost m = more@;
    let ghost o = out@;
    out.append(&mut more);
    assert(out@ =~= o + m);
    assert forall|i: int| 0 <= i < out@.len() implies plain_event(#[trigger] out@[i]@) by {
        if i < o.len() {
            assert(out@[i] == o[i]);
        } else {
            assert(out@[i] == m[i - o.len()]);
        }
    }
}

fn push_event(out: &mut Vec<Json>, e: Json, kind: EventKind)
    requires
        nonterminal(old(out)@),
        event_type(e@) == Some(kind_name(kind)),
    ensures
        nonterminal(final(out)@),
        final(out)@ == old(out)@.push(e),
{
    proof {
        lemma_kind_not_terminal(kind);
    }
    out.push(e);
    assert forall|i: int| 0 <= i < out@.len() implies plain_event(#[trigger] out@[i]@) by {
        if i < old(out)@.len() {
            assert(out@[i] == old(out)@[i]);
        }
    }
}

} // verus!

verus! {

// ---------------------------------------------------------------------------
// The state
// ---------------------------------------------------------------------------
/// The output items in the order they were opened.
#[derive(Clone, Copy, PartialEq, Eq, Structural)]
pub enum OutputRef {
    Message,
    Reasoning,
    Tool(i64),
}

/// The converter from a Chat completion stream to Responses events.
pub struct ChatToResponsesStreamState {
    pub id: String,
    pub model: String,
    pub created: i64,
    /// The upstream usage, from the last chunk that carried one.
    pub usage: Option<crate::dto::Usage>,
    pub status: String,
    pub incomplete_details: Option<String>,
    /// The upstream error (an error frame or a transport error).
    pub failed_error: Option<Json>,
    pub finish_reason_seen: bool,
    pub dropped_tools: usize,
    pub sent_created: bool,
    pub text_output_index: i64,
    pub text_started: bool,
    pub text_done: bool,
    pub reasoning_output_index: i64,
    pub reasoning_started: bool,
    pub reasoning_done: bool,
    pub finalized: bool,
    pub next_output_index: i64,
    /// Tool calls by chat index, each index once.
    pub tools: Vec<(i64, crate::stream::ChatTool)>,
    pub last_tool_key: Option<i64>,
    pub output_order: Vec<OutputRef>,
    pub text: String,
    pub reasoning: String,
    pub inline_think: InlineThinkState,
}

fn concat_str(a: &String, b: &str) -> (r: String)
    ensures
        r@ == a@ + b@,
{
    let mut v = chars_of(a.as_str());
    crate::text::push_all(&mut v, chars_of(b).as_slice());
    string_from(v.as_slice())
}

fn empty_json_array() -> (r: Json)
    ensures
        r@ == JsonV::Array(Seq::empty()),
{
    let v: Vec<Json> = Vec::new();
    proof {
        crate::json::lemma_array_view(v);
    }
    assert(crate::json::elems_view(v@) =~= Seq::<JsonV>::empty());
    Json::Array(v)
}

/// A summary or content part: `type`, `text`, and an empty `annotations`
/// list for a content part.
fn part_json(ty: &str, text: &String, annotations: bool) -> Json {
    let mut f: Vec<(String, Json)> = Vec::new();
    crate::dto::push_field(&mut f, "type", crate::json::jstr(ty));
    crate::dto::push_field(&mut f, "text", Json::Str(text.clone()));
    if annotations {
        crate::dto::push_field(&mut f, "annotations", empty_json_array());
    }
    Json::Object(f)
}

fn clone_usage(u: &crate::dto::Usage) -> crate::dto::Usage {
    crate::dto::Usage {
        prompt_tokens: u.prompt_tokens,
        completion_tokens: u.completion_tokens,
        total_tokens: u.total_tokens,
        input_tokens: u.input_tokens,
        output_tokens: u.output_tokens,
        prompt_tokens_details: clone_opt_json(&u.prompt_tokens_details),
        completion_tokens_details: clone_opt_json(&u.completion_tokens_details),
        input_tokens_details: clone_opt_json(&u.input_tokens_details),
        cache_read_input_tokens: u.cache_read_input_tokens,
        cache_creation_input_tokens: u.cache_creation_input_tokens,
        prompt_cache_hit_tokens: u.prompt_cache_hit_tokens,
    }
}

fn clone_opt_json(o: &Option<Json>) -> Option<Json> {
    match o {
        Some(j) => Some(crate::json::deep_clone(j)),
        None => None,
    }
}

fn clone_opt_string(o: &Option<String>) -> Option<String> {
    match o {
        Some(s) => Some(s.clone()),
        None => None,
    }
}

/// A response object: the stream's id, creation time and model with the
/// given status, error, incomplete reason, output and usage.
fn response_obj(
    id: &String,
    created: i64,
    status: &str,
    error: Option<Json>,
    incomplete: &Option<String>,
    model: &String,
    output: Vec<Json>,
    usage: Json,
) -> Json {
    let mut f: Vec<(String, Json)> = Vec::new();
    crate::dto::push_field(&mut f, "id", Json::Str(id.clone()));
    crate::dto::push_field(&mut f, "object", crate::json::jstr("response"));
    crate::dto::push_field(&mut f, "created_at", crate::dto::int_json_of(created));
    crate::dto::push_field(&mut f, "status", crate::json::jstr(status));
    push_opt(&mut f, "error", error);
    match incomplete {
        Some(r) => {
            let mut g: Vec<(String, Json)> = Vec::new();
            crate::dto::push_field(&mut g, "reason", Json::Str(r.clone()));
            crate::dto::push_field(&mut f, "incomplete_details", Json::Object(g));
        },
        None => {},
    }
    crate::dto::push_field(&mut f, "model", Json::Str(model.clone()));
    crate::dto::push_field(&mut f, "output", Json::Array(output));
    crate::dto::push_field(&mut f, "usage", usage);
    Json::Object(f)
}

fn is_lit(s: &String, lit: &str) -> (r: bool)
    ensures
        r == (s@ == lit@),
{
    crate::text::is(chars_of(s.as_str()).as_slice(), lit)
}

/// The tool at a chat index, if there is one.
fn find_tool(tools: &Vec<(i64, crate::stream::ChatTool)>, key: i64) -> (r: Option<usize>)
    ensures
        r matches Some(i) ==> i < tools@.len() && tools@[i as int].0 == key,
        r is None ==> forall|i: int| 0 <= i < tools@.len() ==> tools@[i].0 != key,
{
    let mut i: usize = 0;
    while i < tools.len()
        invariant
            i <= tools@.len(),
            forall|j: int| 0 <= j < i ==> tools@[j].0 != key,
        decreases tools@.len() - i,
    {
        if tools[i].0 == key {
            return Some(i);
        }
        i = i + 1;
    }
    None
}

fn new_tool() -> crate::stream::ChatTool {
    crate::stream::ChatTool {
        output_index: -1,
        id: String::new(),
        name: String::new(),
        arguments: String::new(),
        reasoning_content: String::new(),
        bridged: false,
        custom: false,
        tool_search: false,
        orig_name: None,
        namespace: None,
        started: false,
        released: false,
        pending_args: String::new(),
        done: false,
    }
}

fn item_event(item: &crate::dto::ResponsesOutputOut, output_index: i64, done: bool) -> (r: Json)
    ensures
        event_type(r@) == Some(kind_name(if done { EventKind::ItemDone } else { EventKind::ItemAdded })),
{
    let k = if done { EventKind::ItemDone } else { EventKind::ItemAdded };
    event(k, None, None, Some(crate::dto::item_json(item)), Some(output_index), None, None, None, None, None, None, None)
}

} // verus!

verus! {

/// Some output came out: text, reasoning, or a started tool call with a
/// name.
pub open spec fn has_output_v(s: ChatToResponsesStreamState) -> bool {
    s.text_started || s.reasoning_started || exists|i: int|
        0 <= i < s.tools@.len() && (#[trigger] s.tools@[i]).1.started && s.tools@[i].1.name@.len() > 0
}

impl ChatToResponsesStreamState {
    /// A converter for the response `id` of `model`, created at `created`.
    pub fn new(id: String, model: String, created: i64) -> (s: Self)
        ensures
            s.id == id,
            s.model == model,
            s.created == created,
            !s.finalized,
            s.failed_error is None,
            !s.finish_reason_seen,
            s.dropped_tools == 0,
            s.status@ == "completed"@,
            !s.text_started && !s.reasoning_started && s.tools@.len() == 0,
    {
        ChatToResponsesStreamState {
            id,
            model,
            created,
            usage: None,
            status: owned("completed"),
            incomplete_details: None,
            failed_error: None,
            finish_reason_seen: false,
            dropped_tools: 0,
            sent_created: false,
            text_output_index: -1,
            text_started: false,
            text_done: false,
            reasoning_output_index: -1,
            reasoning_started: false,
            reasoning_done: false,
            finalized: false,
            next_output_index: 0,
            tools: Vec::new(),
            last_tool_key: None,
            output_order: Vec::new(),
            text: String::new(),
            reasoning: String::new(),
            inline_think: InlineThinkState::new(),
        }
    }

    /// Whether an upstream error has been recorded.
    pub fn has_failed(&self) -> (r: bool)
        ensures
            r == self.failed_error is Some,
    {
        self.failed_error.is_some()
    }

    fn next_index(&mut self, kind: OutputRef) -> (r: i64)
        ensures
            final(self).incomplete_details == old(self).incomplete_details,
            final(self).finalized == old(self).finalized,
            final(self).failed_error == old(self).failed_error,
            final(self).text_started == old(self).text_started,
            final(self).reasoning_started == old(self).reasoning_started,
            final(self).tools == old(self).tools,
            final(self).status == old(self).status,
            final(self).finish_reason_seen == old(self).finish_reason_seen,
            final(self).dropped_tools == old(self).dropped_tools,
    {
        let index = self.next_output_index;
        if self.next_output_index < i64::MAX {
            self.next_output_index = self.next_output_index + 1;
        }
        self.output_order.push(kind);
        index
    }

    fn output_status(&self) -> (r: &'static str) {
        if is_lit(&self.status, "incomplete") {
            "incomplete"
        } else {
            "completed"
        }
    }

    fn message_id(&self) -> String {
        concat_str(&self.id, "_msg_0")
    }

    fn reasoning_id(&self) -> String {
        concat_str(&self.id, "_reasoning_0")
    }

    fn created_response(&self, status: &str) -> Json {
        response_obj(&self.id, self.created, status, None, &None, &self.model, Vec::new(), Json::Null)
    }

    fn message_output(&self, status: &str) -> crate::dto::ResponsesOutputOut {
        let mut parts: Vec<crate::dto::ResponsesOutputContentOut> = Vec::new();
        parts.push(crate::dto::ResponsesOutputContentOut {
            content_type: owned("output_text"),
            text: self.text.clone(),
            refusal: String::new(),
            annotations: crate::dto::empty_annotations(),
        });
        let mut item = crate::dto::output_item("message", self.message_id(), status, parts);
        item.role = owned("assistant");
        item
    }

    fn reasoning_output(&self, status: &str) -> crate::dto::ResponsesOutputOut {
        let mut item = crate::dto::output_item("reasoning", self.reasoning_id(), status, Vec::new());
        let mut summary: Vec<crate::dto::SummaryPartOut> = Vec::new();
        summary.push(crate::dto::summary_part("summary_text", self.reasoning.as_str()));
        item.summary = summary;
        item
    }

    fn append_text_delta(&mut self, delta: &str) -> (evs: Vec<Json>)
        ensures
            nonterminal(evs@),
            final(self).finalized == old(self).finalized,
            final(self).failed_error == old(self).failed_error,
            final(self).text_started,
            final(self).reasoning_started == old(self).reasoning_started,
            final(self).tools == old(self).tools,
            final(self).status == old(self).status,
            final(self).incomplete_details == old(self).incomplete_details,
            final(self).finish_reason_seen == old(self).finish_reason_seen,
            final(self).dropped_tools == old(self).dropped_tools,
    {
        let mut events: Vec<Json> = Vec::new();
        if !self.text_started {
            self.text_started = true;
            self.text_output_index = self.next_index(OutputRef::Message);
            let mut item = crate::dto::output_item("message", self.message_id(), "in_progress", Vec::new());
            item.role = owned("assistant");
            push_event(&mut events, item_event(&item, self.text_output_index, false), EventKind::ItemAdded);
            let part = part_json("output_text", &String::new(), true);
            let e = event(
                EventKind::PartAdded,
                None,
                None,
                None,
                Some(self.text_output_index),
                Some(0),
                None,
                Some(self.message_id()),
                Some(part),
                None,
                None,
                None,
            );
            push_event(&mut events, e, EventKind::PartAdded);
        }
        self.text = concat_str(&self.text, delta);
        let e = event(
            EventKind::TextDelta,
            None,
            Some(owned(delta)),
            None,
            Some(self.text_output_index),
            Some(0),
            None,
            Some(self.message_id()),
            None,
            None,
            None,
            None,
        );
        push_event(&mut events, e, EventKind::TextDelta);
        events
    }

    fn append_reasoning_delta(&mut self, delta: &str) -> (evs: Vec<Json>)
        ensures
            nonterminal(evs@),
            final(self).finalized == old(self).finalized,
            final(self).failed_error == old(self).failed_error,
            final(self).text_started == old(self).text_started,
            final(self).reasoning_started,
            final(self).tools@.len() == old(self).tools@.len(),
            forall|i: int| 0 <= i < old(self).tools@.len() ==> (#[trigger] final(self).tools@[i]).0 == old(self).tools@[i].0
                && final(self).tools@[i].1.started == old(self).tools@[i].1.started
                && final(self).tools@[i].1.name == old(self).tools@[i].1.name,
            final(self).status == old(self).status,
            final(self).incomplete_details == old(self).incomplete_details,
            final(self).finish_reason_seen == old(self).finish_reason_seen,
            final(self).dropped_tools == old(self).dropped_tools,
    {
        let mut events: Vec<Json> = Vec::new();
        let reopen = self.reasoning_done;
        if !self.reasoning_started || reopen {
            self.reasoning_started = true;
            self.reasoning_done = false;
            if !reopen {
                self.reasoning_output_index = self.next_index(OutputRef::Reasoning);
            }
            let item = crate::dto::output_item("reasoning", self.reasoning_id(), "in_progress", Vec::new());
            push_event(&mut events, item_event(&item, self.reasoning_output_index, false), EventKind::ItemAdded);
            let e = event(
                EventKind::SummaryPartAdded,
                None,
                None,
                None,
                Some(self.reasoning_output_index),
                None,
                Some(0),
                Some(self.reasoning_id()),
                Some(part_json("summary_text", &String::new(), false)),
                None,
                None,
                None,
            );
            push_event(&mut events, e, EventKind::SummaryPartAdded);
        }
        self.reasoning = concat_str(&self.reasoning, delta);
        let ghost t0 = self.tools@;
        let mut i: usize = 0;
        while i < self.tools.len()
            invariant
                i <= self.tools@.len(),
                self.tools@.len() == t0.len(),
                self.finalized == old(self).finalized,
                self.failed_error == old(self).failed_error,
                self.text_started == old(self).text_started,
                self.reasoning_started,
                self.status == old(self).status,
                self.incomplete_details == old(self).incomplete_details,
                self.finish_reason_seen == old(self).finish_reason_seen,
                self.dropped_tools == old(self).dropped_tools,
                forall|j: int| 0 <= j < t0.len() ==> (#[trigger] self.tools@[j]).0 == t0[j].0
                    && self.tools@[j].1.started == t0[j].1.started
                    && self.tools@[j].1.name == t0[j].1.name,
            decreases t0.len() - i,
        {
            if self.tools[i].1.started {
                let (k, mut t) = self.tools.remove(i);
                t.reasoning_content = concat_str(&t.reasoning_content, delta);
                self.tools.insert(i, (k, t));
            }
            i = i + 1;
        }
        let e = event(
            EventKind::ReasoningDelta,
            None,
            Some(owned(delta)),
            None,
            Some(self.reasoning_output_index),
            None,
            Some(0),
            Some(self.reasoning_id()),
            None,
            None,
            None,
            None,
        );
        push_event(&mut events, e, EventKind::ReasoningDelta);
        events
    }
}

} // verus!

verus! {

/// A finish reason that cuts the answer short (length or content filter).
pub open spec fn cut_short(f: Seq<char>) -> bool {
    crate::bridge::finish_status(f).0 == "incomplete"@
}

proof fn lemma_cut_short_nonblank(f: Seq<char>)
    requires
        cut_short(f),
    ensures
        f.len() > 0,
{
    reveal_strlit("incomplete");
    reveal_strlit("completed");
    reveal_strlit("length");
    reveal_strlit("max_tokens");
    reveal_strlit("token_limit");
    reveal_strlit("content_filter");
    if f.len() == 0 {
        assert(crate::text::trim(f) =~= Seq::<char>::empty());
        assert("incomplete"@.len() != "completed"@.len());
    }
}

/// What the helpers of the converter leave alone.
pub open spec fn kept(a: ChatToResponsesStreamState, b: ChatToResponsesStreamState) -> bool {
    &&& a.finalized == b.finalized
    &&& a.failed_error == b.failed_error
    &&& a.status == b.status
    &&& a.incomplete_details == b.incomplete_details
}

impl ChatToResponsesStreamState {
    fn reasoning_done_events(&mut self, status: &str) -> (evs: Vec<Json>)
        ensures
            nonterminal(evs@),
            kept(*old(self), *final(self)),
            final(self).tools == old(self).tools,
            final(self).text_started == old(self).text_started,
            final(self).reasoning_started == old(self).reasoning_started,
            final(self).dropped_tools == old(self).dropped_tools,
            final(self).finish_reason_seen == old(self).finish_reason_seen,
    {
        let mut events: Vec<Json> = Vec::new();
        self.reasoning_done = true;
        let e = event(
            EventKind::ReasoningDone,
            None,
            None,
            None,
            Some(self.reasoning_output_index),
            None,
            Some(0),
            Some(self.reasoning_id()),
            Some(part_json("summary_text", &self.reasoning, false)),
            None,
            Some(self.reasoning.clone()),
            None,
        );
        push_event(&mut events, e, EventKind::ReasoningDone);
        let e = event(
            EventKind::SummaryPartDone,
            None,
            None,
            None,
            Some(self.reasoning_output_index),
            None,
            Some(0),
            Some(self.reasoning_id()),
            Some(part_json("summary_text", &self.reasoning, false)),
            None,
            None,
            None,
        );
        push_event(&mut events, e, EventKind::SummaryPartDone);
        let item = self.reasoning_output(status);
        push_event(&mut events, item_event(&item, self.reasoning_output_index, true), EventKind::ItemDone);
        events
    }

    /// A tool call closes the reasoning item; its text (trimmed, when not
    /// blank) goes with the call.
    fn close_reasoning_for_tool_call(&mut self) -> (r: (Vec<Json>, Option<String>))
        ensures
            nonterminal(r.0@),
            kept(*old(self), *final(self)),
            final(self).tools == old(self).tools,
            final(self).text_started == old(self).text_started,
            final(self).reasoning_started == old(self).reasoning_started,
            final(self).dropped_tools == old(self).dropped_tools,
            final(self).finish_reason_seen == old(self).finish_reason_seen,
    {
        if !self.reasoning_started || self.reasoning_done {
            return (Vec::new(), None);
        }
        let events = self.reasoning_done_events("completed");
        let t = crate::text::trim_chars(chars_of(self.reasoning.as_str()).as_slice());
        let text = if t.len() > 0 {
            Some(string_from(t.as_slice()))
        } else {
            None
        };
        (events, text)
    }

    /// Releases, in chat-index order, the started calls whose turn has
    /// come: `output_item.added`, then the held-back arguments. With
    /// `force`, calls that never started do not hold the others back.
    fn release_ready_tools(&mut self, force: bool) -> (evs: Vec<Json>)
        ensures
            nonterminal(evs@),
            kept(*old(self), *final(self)),
            final(self).tools@.len() == old(self).tools@.len(),
            forall|i: int| 0 <= i < old(self).tools@.len() ==> (#[trigger] final(self).tools@[i]).0 == old(self).tools@[i].0
                && final(self).tools@[i].1.started == old(self).tools@[i].1.started
                && final(self).tools@[i].1.name == old(self).tools@[i].1.name,
            final(self).text_started == old(self).text_started,
            final(self).reasoning_started == old(self).reasoning_started,
            final(self).dropped_tools == old(self).dropped_tools,
            final(self).finish_reason_seen == old(self).finish_reason_seen,
    {
        let mut events: Vec<Json> = Vec::new();
        let ghost t0 = self.tools@;
        let n = self.tools.len();
        let mut round: usize = 0;
        while round < n
            invariant
                n == self.tools@.len(),
                self.tools@.len() == t0.len(),
                forall|j: int| 0 <= j < t0.len() ==> (#[trigger] self.tools@[j]).0 == t0[j].0
                    && self.tools@[j].1.started == t0[j].1.started
                    && self.tools@[j].1.name == t0[j].1.name,
                kept(*old(self), *self),
                self.text_started == old(self).text_started,
                self.reasoning_started == old(self).reasoning_started,
                self.dropped_tools == old(self).dropped_tools,
                self.finish_reason_seen == old(self).finish_reason_seen,
                nonterminal(events@),
            decreases n - round,
        {
            let mut best: Option<usize> = None;
            let mut i: usize = 0;
            while i < n
                invariant
                    n == self.tools@.len(),
                    i <= n,
                    best matches Some(b) ==> b < n,
                decreases n - i,
            {
                let t = &self.tools[i].1;
                if !t.released && (!force || t.started) {
                    match best {
                        Some(b) => if self.tools[i].0 < self.tools[b].0 {
                            best = Some(i);
                        },
                        None => best = Some(i),
                    }
                }
                i = i + 1;
            }
            let b = match best {
                Some(b) => b,
                None => break,
            };
            if !self.tools[b].1.started {
                break;
            }
            let key = self.tools[b].0;
            let output_index = self.next_index(OutputRef::Tool(key));
            let (k, mut tool) = self.tools.remove(b);
            tool.output_index = output_index;
            tool.released = true;
            let item = crate::stream::tool_output_item(&tool, "in_progress");
            push_event(&mut events, item_event(&item, output_index, false), EventKind::ItemAdded);
            if !tool.pending_args.as_str().is_empty() {
                let flushed = tool.pending_args.clone();
                tool.pending_args = String::new();
                tool.arguments = concat_str(&tool.arguments, flushed.as_str());
                if !tool.bridged && !tool.custom && !tool.tool_search {
                    let e = event(
                        EventKind::ArgsDelta,
                        None,
                        Some(flushed),
                        None,
                        Some(output_index),
                        None,
                        None,
                        Some(crate::stream::tool_item_id(&tool)),
                        None,
                        None,
                        None,
                        None,
                    );
                    push_event(&mut events, e, EventKind::ArgsDelta);
                }
            }
            self.tools.insert(b, (k, tool));
            round = round + 1;
        }
        events
    }
}

} // verus!

verus! {

fn trimmed_nonempty(o: &Option<String>) -> (r: Option<String>)
    ensures
        r matches Some(t) ==> o matches Some(x) && t@ == crate::text::trim(x@) && t@.len() > 0,
        r is None ==> (o matches Some(x) ==> crate::text::trim(x@).len() == 0),
{
    match o {
        Some(s) => {
            let t = crate::text::trim_chars(chars_of(s.as_str()).as_slice());
            if t.len() > 0 {
                Some(string_from(t.as_slice()))
            } else {
                None
            }
        },
        None => None,
    }
}

impl ChatToResponsesStreamState {
    /// The chat index of a fragment without `index`: a new id opens a new
    /// call, a known id goes back to its call, no id joins the last call.
    fn no_index_key(&self, id: &Option<String>) -> i64 {
        let key_for_id = match trimmed_nonempty(id) {
            Some(t) => {
                let mut found: Option<i64> = None;
                let mut i: usize = 0;
                while i < self.tools.len()
                    decreases self.tools@.len() - i,
                {
                    if found.is_none() && is_lit(&self.tools[i].1.id, t.as_str()) {
                        found = Some(self.tools[i].0);
                    }
                    i = i + 1;
                }
                found
            },
            None => None,
        };
        let mut max_key: Option<i64> = None;
        let mut i: usize = 0;
        while i < self.tools.len()
            decreases self.tools@.len() - i,
        {
            let k = self.tools[i].0;
            max_key = match max_key {
                Some(m) => if k > m {
                    Some(k)
                } else {
                    Some(m)
                },
                None => Some(k),
            };
            i = i + 1;
        }
        let id_str: Option<&str> = match id {
            Some(s) => Some(s.as_str()),
            None => None,
        };
        crate::bridge::resolve_no_index_tool_key(id_str, key_for_id, self.last_tool_key, max_key)
    }

    /// A tool-call fragment: the call is found (or opened) by chat index,
    /// takes the fragment's id, name and arguments, and starts once it has
    /// both id and name; arguments wait until the call is released.
    fn append_tool_call_delta(
        &mut self,
        tc: &crate::bridge::ToolCallDelta,
        reasoning: &Option<String>,
        tool_ctx: &crate::tool_ctx::ToolContext,
    ) -> (evs: Vec<Json>)
        ensures
            nonterminal(evs@),
            kept(*old(self), *final(self)),
            final(self).text_started == old(self).text_started,
            final(self).reasoning_started == old(self).reasoning_started,
            final(self).dropped_tools == old(self).dropped_tools,
            final(self).finish_reason_seen == old(self).finish_reason_seen,
    {
        let chat_index = match tc.index {
            Some(i) => i,
            None => self.no_index_key(&tc.id),
        };
        self.last_tool_key = Some(chat_index);
        let mut events: Vec<Json> = Vec::new();
        let pos = match find_tool(&self.tools, chat_index) {
            Some(p) => p,
            None => {
                self.tools.push((chat_index, new_tool()));
                self.tools.len() - 1
            },
        };
        let (k, mut tool) = self.tools.remove(pos);
        match trimmed_nonempty(&tc.id) {
            Some(id) => tool.id = id,
            None => {},
        }
        match &tc.function {
            Some(f) => match trimmed_nonempty(&f.name) {
                Some(name) => {
                    tool.name = name;
                    tool.bridged = tool_ctx.bridges_web() && is_lit(&tool.name, "web_search");
                    match tool_ctx.lookup(tool.name.as_str()) {
                        Some(spec) => match spec.kind {
                            crate::tool_ctx::ToolKind::Custom => tool.custom = true,
                            crate::tool_ctx::ToolKind::ToolSearch => tool.tool_search = true,
                            crate::tool_ctx::ToolKind::Namespace => {
                                tool.orig_name = Some(spec.name.clone());
                                tool.namespace = clone_opt_string(&spec.namespace);
                            },
                            crate::tool_ctx::ToolKind::Function => {},
                        },
                        None => {},
                    }
                },
                None => {},
            },
            None => {},
        }
        let args: Option<String> = match &tc.function {
            Some(f) => match &f.arguments {
                Some(a) => if a.as_str().is_empty() {
                    None
                } else {
                    Some(a.clone())
                },
                None => None,
            },
            None => None,
        };
        match reasoning {
            Some(r) => if !r.as_str().is_empty() && tool.reasoning_content.as_str().is_empty() {
                tool.reasoning_content = r.clone();
            },
            None => {},
        }
        if !tool.started && !tool.id.as_str().is_empty() && !tool.name.as_str().is_empty() {
            tool.started = true;
        }
        match args {
            Some(a) => {
                if tool.started && tool.released {
                    tool.arguments = concat_str(&tool.arguments, a.as_str());
                    if !tool.bridged && !tool.custom && !tool.tool_search {
                        let e = event(
                            EventKind::ArgsDelta,
                            None,
                            Some(a),
                            None,
                            Some(tool.output_index),
                            None,
                            None,
                            Some(crate::stream::tool_item_id(&tool)),
                            None,
                            None,
                            None,
                            None,
                        );
                        push_event(&mut events, e, EventKind::ArgsDelta);
                    }
                } else {
                    tool.pending_args = concat_str(&tool.pending_args, a.as_str());
                }
            },
            None => {},
        }
        self.tools.insert(pos, (k, tool));
        let more = self.release_ready_tools(false);
        extend_events(&mut events, more);
        events
    }

    /// A finish reason: seen; a cut-short one makes the response incomplete.
    fn apply_finish_reason(&mut self, finish_reason: &str)
        ensures
            final(self).finalized == old(self).finalized,
            final(self).failed_error == old(self).failed_error,
            final(self).finish_reason_seen,
            cut_short(finish_reason@) ==> final(self).status@ == "incomplete"@ && (final(self).incomplete_details
                matches Some(d) && crate::bridge::finish_status(finish_reason@).1 == Some(d@)),
            !cut_short(finish_reason@) ==> final(self).status == old(self).status
                && final(self).incomplete_details == old(self).incomplete_details,
    {
        self.finish_reason_seen = true;
        proof {
            reveal_strlit("incomplete");
            reveal_strlit("completed");
            assert("incomplete"@ != "completed"@) by {
                assert("incomplete"@.len() != "completed"@.len());
            }
        }
        let (status, details) = crate::bridge::finish_reason_to_status(finish_reason);
        if is_lit(&status, "incomplete") {
            self.status = status;
            self.incomplete_details = match details {
                Some(d) => Some(d.reason),
                None => None,
            };
        }
    }
}

} // verus!

verus! {

impl ChatToResponsesStreamState {
    /// The done events still owed: calls released in order (forcing past
    /// calls that never started), the text and the reasoning closed, then
    /// each open call in chat-index order; a call without a name is dropped
    /// and counted, a call without an id gets `<id>_call_<index>`.
    fn done_delta_events(&mut self) -> (evs: Vec<Json>)
        ensures
            nonterminal(evs@),
            kept(*old(self), *final(self)),
    {
        let mut events = self.release_ready_tools(false);
        let more = self.release_ready_tools(true);
        extend_events(&mut events, more);
        let status = self.output_status();
        if self.text_started && !self.text_done {
            self.text_done = true;
            let e = event(
                EventKind::TextDone,
                None,
                None,
                None,
                Some(self.text_output_index),
                Some(0),
                None,
                Some(self.message_id()),
                None,
                None,
                Some(self.text.clone()),
                None,
            );
            push_event(&mut events, e, EventKind::TextDone);
            let e = event(
                EventKind::PartDone,
                None,
                None,
                None,
                Some(self.text_output_index),
                Some(0),
                None,
                Some(self.message_id()),
                Some(part_json("output_text", &self.text, true)),
                None,
                None,
                None,
            );
            push_event(&mut events, e, EventKind::PartDone);
            let item = self.message_output(status);
            push_event(&mut events, item_event(&item, self.text_output_index, true), EventKind::ItemDone);
        }
        if self.reasoning_started && !self.reasoning_done {
            let more = self.reasoning_done_events(status);
            extend_events(&mut events, more);
        }
        let n = self.tools.len();
        let mut last: Option<i64> = None;
        let mut round: usize = 0;
        while round < n
            invariant
                n == self.tools@.len(),
                kept(*old(self), *self),
                nonterminal(events@),
            decreases n - round,
        {
            let mut best: Option<usize> = None;
            let mut i: usize = 0;
            while i < n
                invariant
                    n == self.tools@.len(),
                    i <= n,
                    best matches Some(b) ==> b < n,
                decreases n - i,
            {
                let k = self.tools[i].0;
                let after = match last {
                    Some(l) => k > l,
                    None => true,
                };
                if after {
                    match best {
                        Some(b) => if k < self.tools[b].0 {
                            best = Some(i);
                        },
                        None => best = Some(i),
                    }
                }
                i = i + 1;
            }
            let b = match best {
                Some(b) => b,
                None => break,
            };
            let chat_index = self.tools[b].0;
            last = Some(chat_index);
            if !self.tools[b].1.done {
                let (k, mut tool) = self.tools.remove(b);
                tool.done = true;
                if tool.name.as_str().is_empty() {
                    if self.dropped_tools < usize::MAX {
                        self.dropped_tools = self.dropped_tools + 1;
                    }
                    self.tools.insert(b, (k, tool));
                } else {
                    if tool.id.as_str().is_empty() {
                        let mut v = chars_of(self.id.as_str());
                        crate::text::push_str(&mut v, "_call_");
                        crate::text::push_all(&mut v, crate::text::i64_decimal(chat_index).as_slice());
                        tool.id = string_from(v.as_slice());
                    }
                    let output_index = tool.output_index;
                    let item = crate::stream::tool_output_item(&tool, status);
                    if tool.bridged || tool.tool_search {
                    } else if tool.custom {
                        let input: String = match &item.input {
                            Some(x) => x.clone(),
                            None => String::new(),
                        };
                        if !input.as_str().is_empty() {
                            let e = event(
                                EventKind::CustomInputDelta,
                                None,
                                Some(input.clone()),
                                None,
                                Some(output_index),
                                None,
                                None,
                                Some(item.id.clone()),
                                None,
                                None,
                                None,
                                None,
                            );
                            push_event(&mut events, e, EventKind::CustomInputDelta);
                        }
                        let e = event(
                            EventKind::CustomInputDone,
                            None,
                            None,
                            None,
                            Some(output_index),
                            None,
                            None,
                            Some(item.id.clone()),
                            None,
                            Some(input),
                            None,
                            None,
                        );
                        push_event(&mut events, e, EventKind::CustomInputDone);
                    } else {
                        let args = crate::convert_resp::canonicalize_json_string_if_parseable(tool.arguments.as_str());
                        let e = event(
                            EventKind::ArgsDone,
                            None,
                            None,
                            None,
                            Some(output_index),
                            None,
                            None,
                            Some(crate::stream::tool_item_id(&tool)),
                            None,
                            None,
                            None,
                            Some(args),
                        );
                        push_event(&mut events, e, EventKind::ArgsDone);
                    }
                    push_event(&mut events, item_event(&item, output_index, true), EventKind::ItemDone);
                    self.tools.insert(b, (k, tool));
                }
            }
            round = round + 1;
        }
        events
    }

    /// Whether any output came out (see `has_output_v`).
    fn has_any_output(&self) -> (r: bool)
        ensures
            r == has_output_v(*self),
    {
        if self.text_started || self.reasoning_started {
            return true;
        }
        let mut i: usize = 0;
        while i < self.tools.len()
            invariant
                i <= self.tools@.len(),
                forall|j: int| 0 <= j < i ==> !((#[trigger] self.tools@[j]).1.started && self.tools@[j].1.name@.len() > 0),
            decreases self.tools@.len() - i,
        {
            if self.tools[i].1.started && !self.tools[i].1.name.as_str().is_empty() {
                return true;
            }
            i = i + 1;
        }
        false
    }

    /// The output items of the final response, in the order they opened
    /// (a call without a name left out).
    pub fn final_output(&self) -> (r: Json)
        ensures
            r@ is Array,
    {
        let status = self.output_status();
        let mut output: Vec<Json> = Vec::new();
        let mut i: usize = 0;
        while i < self.output_order.len()
            decreases self.output_order@.len() - i,
        {
            match self.output_order[i] {
                OutputRef::Message => output.push(crate::dto::item_json(&self.message_output(status))),
                OutputRef::Reasoning => output.push(crate::dto::item_json(&self.reasoning_output(status))),
                OutputRef::Tool(idx) => match find_tool(&self.tools, idx) {
                    Some(p) => if !self.tools[p].1.name.as_str().is_empty() {
                        output.push(crate::dto::item_json(&crate::stream::tool_output_item(&self.tools[p].1, status)));
                    },
                    None => {},
                },
            }
            i = i + 1;
        }
        proof {
            crate::json::lemma_array_view(output);
        }
        Json::Array(output)
    }

    /// The final response: the output items, the status, and the usage
    /// (zero when the upstream gave none).
    fn final_response(&self, error: Option<Json>) -> Json {
        let output = match self.final_output() {
            Json::Array(v) => v,
            _ => Vec::new(),
        };
        let usage = match &self.usage {
            Some(u) => crate::dto::usage_from_chat(u),
            None => crate::dto::zero_usage(),
        };
        let usage_json = crate::dto::usage_out_json(&usage);
        response_obj(
            &self.id,
            self.created,
            self.status.as_str(),
            error,
            &self.incomplete_details,
            &self.model,
            output,
            usage_json,
        )
    }
}

} // verus!

verus! {

fn error_obj(code: &str, message: &str) -> Json {
    let mut f: Vec<(String, Json)> = Vec::new();
    crate::dto::push_field(&mut f, "code", crate::json::jstr(code));
    crate::dto::push_field(&mut f, "message", crate::json::jstr(message));
    Json::Object(f)
}

/// The terminal the stream's state calls for (see `stream::terminal_v`).
pub open spec fn stream_terminal(s: ChatToResponsesStreamState, truncated: bool, incomplete: bool) -> crate::stream::Terminal {
    crate::stream::terminal_v(
        s.failed_error is Some,
        truncated,
        has_output_v(s),
        s.finish_reason_seen,
        s.dropped_tools as nat,
        incomplete,
    )
}

impl ChatToResponsesStreamState {
    /// Ends the stream once: the think text still held back, the done
    /// events still owed, then one terminal event chosen by
    /// `stream::terminal_v`; later calls give nothing.
    fn finalize_inner(&mut self, truncated: bool) -> (evs: Vec<Json>)
        ensures
            final(self).finalized,
            final(self).failed_error == old(self).failed_error,
            !old(self).finalized && !truncated && old(self).failed_error is None && old(self).status@ == "incomplete"@
                ==> final(self).status@ == "incomplete"@ && final(self).incomplete_details == old(self).incomplete_details,
            old(self).finalized ==> evs@.len() == 0,
            !old(self).finalized ==> evs@.len() > 0 && nonterminal(evs@.drop_last()) && event_type(
                evs@.last()@,
            ) == Some(terminal_name(stream_terminal(*final(self), truncated, old(self).status@ == "incomplete"@))),
    {
        if self.finalized {
            return Vec::new();
        }
        let ghost st0 = self.status;
        let (think, text) = self.inline_think.flush();
        let mut events: Vec<Json> = Vec::new();
        let mut i: usize = 0;
        while i < think.len()
            invariant
                kept(*old(self), *self),
                !self.finalized,
                st0 == old(self).status,
                nonterminal(events@),
            decreases think@.len() - i,
        {
            let more = self.append_reasoning_delta(think[i].as_str());
            extend_events(&mut events, more);
            i = i + 1;
        }
        let mut i: usize = 0;
        while i < text.len()
            invariant
                kept(*old(self), *self),
                !self.finalized,
                nonterminal(events@),
            decreases text@.len() - i,
        {
            let more = self.append_text_delta(text[i].as_str());
            extend_events(&mut events, more);
            i = i + 1;
        }
        let more = self.done_delta_events();
        extend_events(&mut events, more);
        let incomplete = is_lit(&self.status, "incomplete");
        let has_output = self.has_any_output();
        let t = crate::stream::terminal_event(
            self.failed_error.is_some(),
            truncated,
            has_output,
            self.finish_reason_seen,
            self.dropped_tools,
            incomplete,
        );
        let error: Option<Json> = match t {
            crate::stream::Terminal::Failed(crate::stream::FailKind::Upstream) => {
                self.status = owned("failed");
                match &self.failed_error {
                    Some(e) => Some(crate::json::deep_clone(e)),
                    None => None,
                }
            },
            crate::stream::Terminal::Failed(crate::stream::FailKind::StreamTruncated) => {
                self.status = owned("failed");
                Some(error_obj("stream_truncated", "upstream stream ended before completion"))
            },
            crate::stream::Terminal::Failed(crate::stream::FailKind::ToolCallDropped) => {
                self.status = owned("failed");
                Some(error_obj("upstream_tool_call_dropped", "upstream returned tool_calls without function name and no other output"))
            },
            crate::stream::Terminal::Incomplete => {
                if truncated && !self.finish_reason_seen {
                    self.status = owned("incomplete");
                    self.incomplete_details = Some(owned("max_output_tokens"));
                }
                None
            },
            crate::stream::Terminal::Completed => None,
        };
        let resp = self.final_response(error);
        let ghost before = events@;
        events.push(terminal_event_json(t, resp));
        assert(events@.drop_last() =~= before);
        self.finalized = true;
        events
    }

    /// The stream ended with `[DONE]`: the owed done events and the
    /// terminal event, once.
    pub fn finalize(&mut self) -> (evs: Vec<Json>)
        ensures
            final(self).finalized,
            !old(self).finalized && old(self).failed_error is None && old(self).status@ == "incomplete"@
                ==> final(self).status@ == "incomplete"@ && final(self).incomplete_details == old(self).incomplete_details,
            old(self).finalized ==> evs@.len() == 0,
            !old(self).finalized ==> evs@.len() > 0 && nonterminal(evs@.drop_last()) && event_type(
                evs@.last()@,
            ) == Some(terminal_name(stream_terminal(*final(self), false, old(self).status@ == "incomplete"@))),
    {
        self.finalize_inner(false)
    }

    /// The stream broke off without `[DONE]`: with no output it fails as
    /// truncated; cut before any finish reason it is incomplete.
    pub fn finalize_truncated(&mut self) -> (evs: Vec<Json>)
        ensures
            final(self).finalized,
            old(self).finalized ==> evs@.len() == 0,
            !old(self).finalized ==> evs@.len() > 0 && nonterminal(evs@.drop_last()) && event_type(
                evs@.last()@,
            ) == Some(terminal_name(stream_terminal(*final(self), true, old(self).status@ == "incomplete"@))),
    {
        self.finalize_inner(true)
    }

    /// A transport error: recorded as the upstream failure, then the stream
    /// ends as `finalize` ends it (failed, unless it had ended already).
    pub fn record_transport_error(&mut self, message: &str) -> (evs: Vec<Json>)
        ensures
            final(self).finalized,
            final(self).failed_error is Some,
            old(self).finalized ==> evs@.len() == 0,
            !old(self).finalized ==> evs@.len() > 0 && event_type(evs@.last()@) == Some("response.failed"@),
    {
        if self.failed_error.is_none() {
            self.failed_error = Some(error_obj("stream_error", message));
        }
        let evs = self.finalize_inner(false);
        evs
    }
}

} // verus!

verus! {

impl ChatToResponsesStreamState {
    /// One Chat chunk: the first gives `response.created` and
    /// `response.in_progress`; reasoning, text (a leading think block
    /// split off), refusals and tool-call fragments give their events; a
    /// finish reason gives the done events. An error chunk records the
    /// failure; after a failure chunks give nothing.
    pub fn process_chunk(
        &mut self,
        chunk: &crate::dto::ChatStreamChunk,
        tool_ctx: &crate::tool_ctx::ToolContext,
    ) -> (evs: Vec<Json>)
        ensures
            nonterminal(evs@),
            final(self).finalized == old(self).finalized,
            old(self).failed_error is Some ==> evs@.len() == 0 && *final(self) == *old(self),
            old(self).failed_error is None && chunk.error is Some ==> evs@.len() == 0
                && final(self).failed_error is Some && final(self).failed_error->Some_0@
                == crate::sse::stream_error_v(chunk.error->Some_0@),
            old(self).failed_error is Some || chunk.error is Some ==> final(self).failed_error is Some,
            old(self).failed_error is None && chunk.error is None && chunk.choices@.len() == 1 && (
            chunk.choices@[0].finish_reason matches Some(f) && cut_short(crate::text::trim(f@)))
                ==> final(self).status@ == "incomplete"@ && (final(self).incomplete_details matches Some(d)
                && crate::bridge::finish_status(crate::text::trim(chunk.choices@[0].finish_reason->Some_0@)).1
                == Some(d@)),
    {
        if self.failed_error.is_some() {
            return Vec::new();
        }
        match &chunk.error {
            Some(err) => {
                self.failed_error = Some(crate::sse::extract_stream_error(err));
                return Vec::new();
            },
            None => {},
        }
        if self.id.as_str().is_empty() && !chunk.id.as_str().is_empty() {
            self.id = chunk.id.clone();
        }
        if self.model.as_str().is_empty() && !chunk.model.as_str().is_empty() {
            self.model = chunk.model.clone();
        }
        if self.created == 0 {
            match chunk.created {
                Some(c) => self.created = c,
                None => {},
            }
        }
        match &chunk.usage {
            Some(u) => self.usage = Some(clone_usage(u)),
            None => {},
        }
        let mut events: Vec<Json> = Vec::new();
        if !self.sent_created {
            self.sent_created = true;
            let e = event(EventKind::Created, Some(self.created_response("in_progress")), None, None, None, None, None, None, None, None, None, None);
            push_event(&mut events, e, EventKind::Created);
            let e = event(EventKind::InProgress, Some(self.created_response("in_progress")), None, None, None, None, None, None, None, None, None, None);
            push_event(&mut events, e, EventKind::InProgress);
        }
        let mut c: usize = 0;
        while c < chunk.choices.len()
            invariant
                nonterminal(events@),
                self.finalized == old(self).finalized,
                self.failed_error is None,
                chunk.error is None,
                c >= 1 && chunk.choices@.len() == 1 && (chunk.choices@[0].finish_reason matches Some(f)
                    && cut_short(crate::text::trim(f@))) ==> self.status@ == "incomplete"@ && (
                self.incomplete_details matches Some(d) && crate::bridge::finish_status(
                    crate::text::trim(chunk.choices@[0].finish_reason->Some_0@),
                ).1 == Some(d@)),
            decreases chunk.choices@.len() - c,
        {
            let choice = &chunk.choices[c];
            let r: Option<String> = match &choice.delta.reasoning_content {
                Some(x) => Some(x.clone()),
                None => clone_opt_string(&choice.delta.reasoning),
            };
            match r {
                Some(x) => if !x.as_str().is_empty() {
                    let more = self.append_reasoning_delta(x.as_str());
                    extend_events(&mut events, more);
                },
                None => {},
            }
            let content: Option<String> = match &choice.delta.content {
                Some(v) => crate::dto::delta_content_text(v),
                None => None,
            };
            match content {
                Some(ct) => if !ct.as_str().is_empty() {
                    let (think, text) = self.inline_think.feed(ct.as_str());
                    let mut i: usize = 0;
                    while i < think.len()
                        invariant
                            nonterminal(events@),
                            self.finalized == old(self).finalized,
                            self.failed_error is None,
                        decreases think@.len() - i,
                    {
                        let more = self.append_reasoning_delta(think[i].as_str());
                        extend_events(&mut events, more);
                        i = i + 1;
                    }
                    let mut i: usize = 0;
                    while i < text.len()
                        invariant
                            nonterminal(events@),
                            self.finalized == old(self).finalized,
                            self.failed_error is None,
                        decreases text@.len() - i,
                    {
                        let more = self.append_text_delta(text[i].as_str());
                        extend_events(&mut events, more);
                        i = i + 1;
                    }
                },
                None => {},
            }
            match trimmed_nonempty(&choice.delta.refusal) {
                Some(rf) => {
                    let more = self.append_text_delta(rf.as_str());
                    extend_events(&mut events, more);
                },
                None => {},
            }
            let mut t: usize = 0;
            while t < choice.delta.tool_calls.len()
                invariant
                    nonterminal(events@),
                    self.finalized == old(self).finalized,
                    self.failed_error is None,
                decreases choice.delta.tool_calls@.len() - t,
            {
                let (close, reasoning_text) = self.close_reasoning_for_tool_call();
                extend_events(&mut events, close);
                let more = self.append_tool_call_delta(&choice.delta.tool_calls[t], &reasoning_text, tool_ctx);
                extend_events(&mut events, more);
                t = t + 1;
            }
            proof {
                if chunk.choices@.len() == 1 && (chunk.choices@[0].finish_reason matches Some(f) && cut_short(
                    crate::text::trim(f@),
                )) {
                    lemma_cut_short_nonblank(crate::text::trim(chunk.choices@[0].finish_reason->Some_0@));
                }
            }
            match trimmed_nonempty(&choice.finish_reason) {
                Some(fr) => {
                    self.apply_finish_reason(fr.as_str());
                    let more = self.done_delta_events();
                    extend_events(&mut events, more);
                },
                None => {},
            }
            c = c + 1;
        }
        events
    }
}

/// An SSE frame: `event: <type>`, `data: <JSON>` (fields in event
/// order), and a blank line.
pub open spec fn sse_frame_v(ev: JsonV) -> Seq<char> {
    "event: "@ + match event_type(ev) {
        Some(t) => t,
        None => Seq::empty(),
    } + "\ndata: "@ + crate::codec::ordered_text(ev) + "\n\n"@
}

pub fn sse_frame(ev: &Json) -> (r: String)
    ensures
        r@ == sse_frame_v(ev@),
{
    let mut v = chars_of("event: ");
    match ev.get_str("type") {
        Some(t) => crate::text::push_all(&mut v, chars_of(t.as_str()).as_slice()),
        None => {},
    }
    crate::text::push_str(&mut v, "\ndata: ");
    crate::text::push_all(&mut v, crate::codec::to_ordered_text(ev).as_slice());
    crate::text::push_str(&mut v, "\n\n");
    string_from(v.as_slice())
}

/// The bytes are UTF-8 text.
pub open spec fn valid_utf8(b: Seq<u8>) -> bool {
    exists|s: Seq<char>| crate::text::utf8(s) == b
}

/// An upstream body that can stand in for a stream: UTF-8 text of one
/// JSON chunk with choices and without an error.
pub open spec fn synthesizable(body: Seq<u8>) -> bool {
    &&& valid_utf8(body)
    &&& crate::codec::json_parse(body) is Some
    &&& match crate::json::vget_arr(crate::codec::json_parse(body).unwrap(), "choices"@) {
        Some(cs) => cs.len() > 0,
        None => false,
    }
    &&& match crate::json::vget(crate::codec::json_parse(body).unwrap(), "error"@) {
        Some(JsonV::Null) => true,
        None => true,
        _ => false,
    }
}

/// Calls `std::str::from_utf8`: the text exactly when the bytes are UTF-8.
#[verifier::external_body]
fn utf8_text(b: &[u8]) -> (r: Option<String>)
    ensures
        r matches Some(s) ==> crate::text::utf8(s@) == b@,
        r is None ==> forall|s: Seq<char>| crate::text::utf8(s) != b@,
{
    match std::str::from_utf8(b) {
        Ok(s) => Some(s.to_string()),
        Err(_) => None,
    }
}

/// A whole Chat completion body sent for a streamed request, turned into
/// the Responses event stream it stands for: the chunk's events, then the
/// done and terminal events, as SSE frames. `None` when the body is not a
/// chunk with choices and without an error.
pub fn synthesize_sse_from_chat_body(
    body: &[u8],
    response_id: &str,
    model: &str,
    tool_ctx: &crate::tool_ctx::ToolContext,
    created: i64,
) -> (r: Option<String>)
    ensures
        r is Some <==> synthesizable(body@),
{
    let raw = match utf8_text(body) {
        Some(s) => s,
        None => return None,
    };
    let chunk = match crate::dto::ChatStreamChunk::from_json_str(raw.as_str()) {
        Some(c) => c,
        None => return None,
    };
    proof {
        let v = crate::codec::json_parse(body@).unwrap();
        assert(crate::dto::chunk_of(raw@) == crate::codec::json_parse(body@));
        assert(chunk.choices@.len() == chunk.choices@.map_values(|x: crate::dto::ChatStreamChoice| crate::dto::choice_view(x)).len());
    }
    if chunk.choices.len() == 0 || chunk.error.is_some() {
        return None;
    }
    let mut state = ChatToResponsesStreamState::new(owned(response_id), owned(model), created);
    let mut out: Vec<char> = Vec::new();
    let evs = state.process_chunk(&chunk, tool_ctx);
    let mut i: usize = 0;
    while i < evs.len()
        decreases evs@.len() - i,
    {
        crate::text::push_all(&mut out, chars_of(sse_frame(&evs[i]).as_str()).as_slice());
        i = i + 1;
    }
    let evs = state.finalize();
    let mut i: usize = 0;
    while i < evs.len()
        decreases evs@.len() - i,
    {
        crate::text::push_all(&mut out, chars_of(sse_frame(&evs[i]).as_str()).as_slice());
        i = i + 1;
    }
    Some(string_from(out.as_slice()))
}

} // verus!

verus! {

/// The chunk an SSE frame of an upstream stream carries: its data read as
/// a chunk; a frame named `error` whose chunk has no error of its own
/// stands for the error `{"message": <data>}`. `None` for data that is not
/// JSON.
pub fn chunk_of_frame(frame: &crate::sse::SseEvent) -> (r: Option<crate::dto::ChatStreamChunk>)
    ensures
        r is None <==> crate::dto::chunk_of(frame.data@) is None,
        r matches Some(c) ==> (c.error is Some <==> (crate::dto::chunk_of(frame.data@) matches Some(v) && (match crate::json::vget(v, "error"@) {
            Some(JsonV::Null) => false,
            Some(_) => true,
            None => false,
        } || crate::bridge::opt_view(frame.event) == Some("error"@)))),
{
    let mut c = match crate::dto::ChatStreamChunk::from_json_str(frame.data.as_str()) {
        Some(c) => c,
        None => return None,
    };
    let named_error = match &frame.event {
        Some(e) => is_lit(e, "error"),
        None => false,
    };
    if c.error.is_none() && named_error {
        let mut f: Vec<(String, Json)> = Vec::new();
        crate::dto::push_field(&mut f, "message", Json::Str(frame.data.clone()));
        c.error = Some(Json::Object(f));
    }
    Some(c)
}

} // verus!

verus! {

/// Finish reasons that cut an answer short: `length`, `max_tokens` and
/// `token_limit` make it incomplete for `max_output_tokens`,
/// `content_filter` incomplete for `content_filter`; any other reason
/// leaves it complete.
pub proof fn law_cut_short_reasons(f: Seq<char>)
    ensures
        crate::text::trim(f) == "content_filter"@ ==> crate::bridge::finish_status(f) == (
            "incomplete"@,
            Some("content_filter"@),
        ),
        (crate::text::trim(f) == "length"@ || crate::text::trim(f) == "max_tokens"@ || crate::text::trim(f)
            == "token_limit"@) ==> crate::bridge::finish_status(f) == ("incomplete"@, Some("max_output_tokens"@)),
        !(crate::text::trim(f) == "content_filter"@ || crate::text::trim(f) == "length"@ || crate::text::trim(f)
            == "max_tokens"@ || crate::text::trim(f) == "token_limit"@) ==> crate::bridge::finish_status(f).0
            == "completed"@,
{
    reveal_strlit("content_filter");
    reveal_strlit("length");
    reveal_strlit("max_tokens");
    reveal_strlit("token_limit");
    assert("content_filter"@.len() == 14 && "length"@.len() == 6 && "max_tokens"@.len() == 10
        && "token_limit"@.len() == 11);
}

/// A stream whose answer was cut short ends with `response.incomplete`
/// (when it ends normally and the upstream sent no error).
pub proof fn law_cut_short_stream_ends_incomplete(s: ChatToResponsesStreamState)
    requires
        s.failed_error is None,
    ensures
        terminal_name(stream_terminal(s, false, true)) == "response.incomplete"@,
{
}

} // verus!
