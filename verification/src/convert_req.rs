//! Pieces of the Responses → Chat request conversion: refusing stateful
//! fields, instructions text, call ids, reasoning text carried by input
//! items, reasoning attachment and media flushing on the message list,
//! content parts, function tool definitions, `tool_choice` and
//! `text.format`.
use vstd::prelude::*;

use crate::codec::{json_string, to_json_string};
use crate::dto::{
    detail_texts, messages_view, nonblank, nonblank_exec, object_reasoning, opt_jv, present,
    present_v, str_field_nonblank, value_string, value_to_string, FunctionOut, FunctionOutV,
    MessageOut, MessageV, ToolCallOut, ToolCallOutV,
};
use crate::tool_ctx::{chat_name_of, CtxV, ToolContext};
use crate::json::{deep_clone, elems_view, fields_view, lemma_object_view, vget, vget_arr, vget_str, vset, Json, JsonV};
use crate::text::{
    chars_of, is, join, join_exec, owned, push_all, push_str, string_from, trim, trim_chars,
};

verus! {

// ---------------------------------------------------------------------------
// Stateful fields
// ---------------------------------------------------------------------------
/// The stateful fields a request carries, in the order they are named.
pub open spec fn stateful_fields(req: JsonV) -> Seq<Seq<char>> {
    let a: Seq<Seq<char>> = if present_v(vget(req, "conversation"@)) {
        seq!["conversation"@]
    } else {
        Seq::empty()
    };
    let b: Seq<Seq<char>> = match vget_str(req, "previous_response_id"@) {
        Some(p) => if trim(p).len() > 0 {
            seq!["previous_response_id"@]
        } else {
            Seq::empty()
        },
        None => Seq::empty(),
    };
    let c: Seq<Seq<char>> = if present_v(vget(req, "prompt"@)) {
        seq!["prompt"@]
    } else {
        Seq::empty()
    };
    let d: Seq<Seq<char>> = if present_v(vget(req, "context_management"@)) {
        seq!["context_management"@]
    } else {
        Seq::empty()
    };
    a + b + c + d
}

pub open spec fn stateful_error(fields: Seq<Seq<char>>) -> Seq<char> {
    "responses to chat conversion does not support stateful fields: "@ + join(fields, ", "@)
        + ". The Chat upstream is stateless: resend the full conversation history instead of referencing a previous response (codex clients: disable server-side storage, e.g. 'store' 'false' in model args)"@
}

/// A stateless Chat upstream cannot serve `conversation`, a non-blank
/// `previous_response_id`, `prompt` or `context_management`: the request
/// is refused, naming them.
pub fn validate_unsupported_fields(req: &Json) -> (r: Result<(), String>)
    ensures
        match r {
            Ok(()) => stateful_fields(req@).len() == 0,
            Err(e) => stateful_fields(req@).len() > 0 && e@ == stateful_error(stateful_fields(req@)),
        },
{
    let mut names: Vec<Vec<char>> = Vec::new();
    if present(req.get("conversation")) {
        names.push(chars_of("conversation"));
    }
    let ghost a = names@.map_values(|w: Vec<char>| w@);
    match req.get_str("previous_response_id") {
        Some(p) => if trim_chars(chars_of(p.as_str()).as_slice()).len() > 0 {
            names.push(chars_of("previous_response_id"));
        },
        None => {},
    }
    let ghost b = names@.map_values(|w: Vec<char>| w@);
    if present(req.get("prompt")) {
        names.push(chars_of("prompt"));
    }
    let ghost c = names@.map_values(|w: Vec<char>| w@);
    if present(req.get("context_management")) {
        names.push(chars_of("context_management"));
    }
    assert(names@.map_values(|w: Vec<char>| w@) =~= stateful_fields(req@));
    if names.len() == 0 {
        return Ok(());
    }
    let mut msg: Vec<char> = Vec::new();
    push_str(&mut msg, "responses to chat conversion does not support stateful fields: ");
    push_all(&mut msg, join_exec(&names, chars_of(", ").as_slice()).as_slice());
    push_str(
        &mut msg,
        ". The Chat upstream is stateless: resend the full conversation history instead of referencing a previous response (codex clients: disable server-side storage, e.g. 'store' 'false' in model args)",
    );
    Err(string_from(msg.as_slice()))
}

// ---------------------------------------------------------------------------
// Instructions and call ids
// ---------------------------------------------------------------------------
/// The `text` strings of parts, in order.
pub open spec fn part_texts(ps: Seq<JsonV>) -> Seq<Seq<char>>
    decreases ps.len(),
{
    if ps.len() == 0 {
        Seq::empty()
    } else {
        let r = part_texts(ps.drop_last());
        match vget_str(ps.last(), "text"@) {
            Some(t) => r.push(t),
            None => r,
        }
    }
}

/// Instructions as text: a string as it is; the `text` strings of an
/// array's parts joined by blank lines; other values as compact JSON.
pub open spec fn instructions_v(v: JsonV) -> Seq<char> {
    match v {
        JsonV::Str(s) => s,
        JsonV::Array(ps) => join(part_texts(ps), "\n\n"@),
        _ => json_string(v),
    }
}

pub fn instructions_text(v: &Json) -> (r: String)
    ensures
        r@ == instructions_v(v@),
{
    match v {
        Json::Str(s) => s.clone(),
        Json::Array(ps) => {
            proof {
                crate::json::lemma_array_view(*ps);
            }
            let ghost pv = elems_view(ps@);
            let mut texts: Vec<Vec<char>> = Vec::new();
            let mut i: usize = 0;
            while i < ps.len()
                invariant
                    i <= ps@.len(),
                    pv == elems_view(ps@),
                    texts@.map_values(|w: Vec<char>| w@) == part_texts(pv.take(i as int)),
                decreases ps@.len() - i,
            {
                proof {
                    assert(pv.take(i + 1).drop_last() =~= pv.take(i as int));
                    assert(pv.take(i + 1).last() == ps@[i as int]@);
                }
                let ghost before = texts@.map_values(|w: Vec<char>| w@);
                match ps[i].get_str("text") {
                    Some(t) => {
                        texts.push(chars_of(t.as_str()));
                        assert(texts@.map_values(|w: Vec<char>| w@) =~= before.push(t@));
                    },
                    None => {},
                }
                i = i + 1;
            }
            assert(pv.take(ps@.len() as int) =~= pv);
            string_from(join_exec(&texts, chars_of("\n\n").as_slice()).as_slice())
        },
        _ => to_json_string(v),
    }
}

/// The trimmed string at `k` when it is not empty.
pub open spec fn trimmed_nonempty(o: JsonV, k: Seq<char>) -> Option<Seq<char>> {
    match vget_str(o, k) {
        Some(s) => if trim(s).len() > 0 {
            Some(trim(s))
        } else {
            None
        },
        None => None,
    }
}

fn trimmed_nonempty_exec(o: &Json, k: &str) -> (r: Option<Vec<char>>)
    ensures
        match r {
            Some(v) => trimmed_nonempty(o@, k@) == Some(v@),
            None => trimmed_nonempty(o@, k@) is None,
        },
{
    match o.get_str(k) {
        Some(s) => {
            let t = trim_chars(chars_of(s.as_str()).as_slice());
            if t.len() > 0 {
                Some(t)
            } else {
                None
            }
        },
        None => None,
    }
}

/// An item's call id: its trimmed `call_id`, else its trimmed `id`, else
/// empty.
pub open spec fn call_id_v(item: JsonV) -> Seq<char> {
    match trimmed_nonempty(item, "call_id"@) {
        Some(s) => s,
        None => match trimmed_nonempty(item, "id"@) {
            Some(s) => s,
            None => Seq::empty(),
        },
    }
}

pub fn call_id(item: &Json) -> (r: String)
    ensures
        r@ == call_id_v(item@),
{
    match trimmed_nonempty_exec(item, "call_id") {
        Some(s) => string_from(s.as_slice()),
        None => match trimmed_nonempty_exec(item, "id") {
            Some(s) => string_from(s.as_slice()),
            None => String::new(),
        },
    }
}

// ---------------------------------------------------------------------------
// Reasoning carried by input items
// ---------------------------------------------------------------------------
/// The text of a summary part: a string, or an object's `text` (else
/// `content`) when that is a string.
pub open spec fn summary_part_text(p: JsonV) -> Option<Seq<char>> {
    match p {
        JsonV::Str(s) => Some(s),
        JsonV::Object(_) => {
            let x = if vget(p, "text"@) is Some {
                vget(p, "text"@)
            } else {
                vget(p, "content"@)
            };
            match x {
                Some(JsonV::Str(s)) => Some(s),
                _ => None,
            }
        },
        _ => None,
    }
}

/// The non-blank summary part texts, in order.
pub open spec fn summary_texts(ps: Seq<JsonV>) -> Seq<Seq<char>>
    decreases ps.len(),
{
    if ps.len() == 0 {
        Seq::empty()
    } else {
        let r = summary_texts(ps.drop_last());
        if nonblank(summary_part_text(ps.last())) {
            r.push(summary_part_text(ps.last()).unwrap())
        } else {
            r
        }
    }
}

/// Text of a `reasoning` input item: the first non-blank string among
/// `reasoning_content`, `content`, `text`; else its `summary` (a
/// non-blank string, or the non-blank part texts joined by blank lines).
pub open spec fn reasoning_item_v(item: JsonV) -> Option<Seq<char>> {
    if nonblank(vget_str(item, "reasoning_content"@)) {
        vget_str(item, "reasoning_content"@)
    } else if nonblank(vget_str(item, "content"@)) {
        vget_str(item, "content"@)
    } else if nonblank(vget_str(item, "text"@)) {
        vget_str(item, "text"@)
    } else {
        match vget(item, "summary"@) {
            Some(JsonV::Str(s)) => if trim(s).len() > 0 {
                Some(s)
            } else {
                None
            },
            Some(JsonV::Array(ps)) => if summary_texts(ps).len() > 0 {
                Some(join(summary_texts(ps), "\n\n"@))
            } else {
                None
            },
            _ => None,
        }
    }
}

fn summary_part_text_exec(p: &Json) -> (r: Option<String>)
    ensures
        match r {
            Some(s) => summary_part_text(p@) == Some(s@),
            None => summary_part_text(p@) is None,
        },
{
    match p {
        Json::Str(s) => Some(s.clone()),
        Json::Object(_) => {
            let x = if p.get("text").is_some() {
                p.get("text")
            } else {
                p.get("content")
            };
            match x {
                Some(Json::Str(s)) => Some(s.clone()),
                _ => None,
            }
        },
        _ => None,
    }
}

pub fn reasoning_item_text(item: &Json) -> (r: Option<String>)
    ensures
        match r {
            Some(s) => reasoning_item_v(item@) == Some(s@),
            None => reasoning_item_v(item@) is None,
        },
{
    if let Some(s) = str_field_nonblank(item, "reasoning_content") {
        return Some(s);
    }
    if let Some(s) = str_field_nonblank(item, "content") {
        return Some(s);
    }
    if let Some(s) = str_field_nonblank(item, "text") {
        return Some(s);
    }
    match item.get("summary") {
        Some(Json::Str(s)) => if nonblank_exec(s) {
            Some(s.clone())
        } else {
            None
        },
        Some(Json::Array(ps)) => {
            proof {
                crate::json::lemma_array_view(*ps);
            }
            let ghost pv = elems_view(ps@);
            let mut texts: Vec<Vec<char>> = Vec::new();
            let mut i: usize = 0;
            while i < ps.len()
                invariant
                    i <= ps@.len(),
                    pv == elems_view(ps@),
                    texts@.map_values(|w: Vec<char>| w@) == summary_texts(pv.take(i as int)),
                decreases ps@.len() - i,
            {
                proof {
                    assert(pv.take(i + 1).drop_last() =~= pv.take(i as int));
                    assert(pv.take(i + 1).last() == ps@[i as int]@);
                }
                let ghost before = texts@.map_values(|w: Vec<char>| w@);
                match summary_part_text_exec(&ps[i]) {
                    Some(t) => if nonblank_exec(&t) {
                        texts.push(chars_of(t.as_str()));
                        assert(texts@.map_values(|w: Vec<char>| w@) =~= before.push(t@));
                    },
                    None => {},
                }
                i = i + 1;
            }
            assert(pv.take(ps@.len() as int) =~= pv);
            if texts.len() > 0 {
                Some(string_from(join_exec(&texts, chars_of("\n\n").as_slice()).as_slice()))
            } else {
                None
            }
        },
        _ => None,
    }
}

/// Reasoning an item carries in its field `key`: a non-blank string, or
/// an object's first non-blank `content` / `text` / `summary`.
pub open spec fn reasoning_field(item: JsonV, key: Seq<char>) -> Option<Seq<char>> {
    match vget(item, key) {
        Some(JsonV::Str(s)) => if trim(s).len() > 0 {
            Some(s)
        } else {
            None
        },
        Some(JsonV::Object(f)) => object_reasoning(JsonV::Object(f)),
        _ => None,
    }
}

/// Reasoning embedded in a function call, custom tool call or message
/// item: `reasoning_content`, then `reasoning`, then the non-blank `text`
/// strings of `reasoning_details` joined by newlines.
pub open spec fn embedded_reasoning_v(item: JsonV) -> Option<Seq<char>> {
    if reasoning_field(item, "reasoning_content"@) is Some {
        reasoning_field(item, "reasoning_content"@)
    } else if reasoning_field(item, "reasoning"@) is Some {
        reasoning_field(item, "reasoning"@)
    } else {
        match vget_arr(item, "reasoning_details"@) {
            Some(ps) => if detail_texts(ps).len() > 0 {
                Some(join(detail_texts(ps), "\n"@))
            } else {
                None
            },
            None => None,
        }
    }
}

fn reasoning_field_exec(item: &Json, key: &str) -> (r: Option<String>)
    ensures
        match r {
            Some(s) => reasoning_field(item@, key@) == Some(s@),
            None => reasoning_field(item@, key@) is None,
        },
{
    match item.get(key) {
        Some(Json::Str(s)) => if nonblank_exec(s) {
            Some(s.clone())
        } else {
            None
        },
        Some(o) => {
            if o.is_object() {
                if let Some(s) = str_field_nonblank(o, "content") {
                    return Some(s);
                }
                if let Some(s) = str_field_nonblank(o, "text") {
                    return Some(s);
                }
                if let Some(s) = str_field_nonblank(o, "summary") {
                    return Some(s);
                }
            }
            None
        },
        None => None,
    }
}

pub fn item_embedded_reasoning(item: &Json) -> (r: Option<String>)
    ensures
        match r {
            Some(s) => embedded_reasoning_v(item@) == Some(s@),
            None => embedded_reasoning_v(item@) is None,
        },
{
    if let Some(s) = reasoning_field_exec(item, "reasoning_content") {
        return Some(s);
    }
    if let Some(s) = reasoning_field_exec(item, "reasoning") {
        return Some(s);
    }
    match item.get("reasoning_details") {
        Some(Json::Array(ps)) => {
            proof {
                crate::json::lemma_array_view(*ps);
            }
            let ghost pv = elems_view(ps@);
            let mut texts: Vec<Vec<char>> = Vec::new();
            let mut i: usize = 0;
            while i < ps.len()
                invariant
                    i <= ps@.len(),
                    pv == elems_view(ps@),
                    texts@.map_values(|w: Vec<char>| w@) == detail_texts(pv.take(i as int)),
                decreases ps@.len() - i,
            {
                proof {
                    assert(pv.take(i + 1).drop_last() =~= pv.take(i as int));
                    assert(pv.take(i + 1).last() == ps@[i as int]@);
                }
                let ghost before = texts@.map_values(|w: Vec<char>| w@);
                match str_field_nonblank(&ps[i], "text") {
                    Some(t) => {
                        texts.push(chars_of(t.as_str()));
                        assert(texts@.map_values(|w: Vec<char>| w@) =~= before.push(t@));
                    },
                    None => {},
                }
                i = i + 1;
            }
            assert(pv.take(ps@.len() as int) =~= pv);
            if texts.len() > 0 {
                Some(string_from(join_exec(&texts, chars_of("\n").as_slice()).as_slice()))
            } else {
                None
            }
        },
        _ => None,
    }
}

} // verus!

verus! {

// ---------------------------------------------------------------------------
// The message list
// ---------------------------------------------------------------------------
fn role_is(m: &MessageOut, lit: &str) -> (r: bool)
    ensures
        r == (m@.role == lit@),
{
    is(chars_of(m.role.as_str()).as_slice(), lit)
}

/// Index of the last assistant message.
pub open spec fn last_assistant(ms: Seq<MessageV>) -> Option<int>
    decreases ms.len(),
{
    if ms.len() == 0 {
        None
    } else if ms.last().role == "assistant"@ {
        Some(ms.len() - 1)
    } else {
        last_assistant(ms.drop_last())
    }
}

pub open spec fn with_reasoning_v(m: MessageV, r: Option<Seq<char>>) -> MessageV {
    MessageV {
        role: m.role,
        content: m.content,
        tool_calls: m.tool_calls,
        tool_call_id: m.tool_call_id,
        reasoning_content: r,
    }
}

/// Non-blank reasoning goes to the last assistant message: appended on a
/// new line to reasoning it already has, else set; without an assistant
/// message it is dropped.
pub open spec fn reasoning_attached(ms: Seq<MessageV>, r: Option<Seq<char>>) -> Seq<MessageV> {
    if nonblank(r) && last_assistant(ms) is Some {
        let i = last_assistant(ms).unwrap();
        let t = r.unwrap();
        let merged = if nonblank(ms[i].reasoning_content) {
            ms[i].reasoning_content.unwrap() + "\n"@ + t
        } else {
            t
        };
        ms.update(i, with_reasoning_v(ms[i], Some(merged)))
    } else {
        ms
    }
}

proof fn lemma_last_assistant(ms: Seq<MessageV>, i: int)
    requires
        0 <= i < ms.len(),
        ms[i].role == "assistant"@,
        forall|j: int| i < j < ms.len() ==> ms[j].role != "assistant"@,
    ensures
        last_assistant(ms) == Some(i),
    decreases ms.len(),
{
    if i < ms.len() - 1 {
        assert forall|j: int| i < j < ms.len() - 1 implies ms.drop_last()[j].role != "assistant"@ by {
            assert(ms.drop_last()[j] == ms[j]);
        }
        lemma_last_assistant(ms.drop_last(), i);
    }
}

proof fn lemma_no_assistant(ms: Seq<MessageV>)
    requires
        forall|j: int| 0 <= j < ms.len() ==> ms[j].role != "assistant"@,
    ensures
        last_assistant(ms) is None,
    decreases ms.len(),
{
    if ms.len() > 0 {
        assert forall|j: int| 0 <= j < ms.len() - 1 implies ms.drop_last()[j].role
            != "assistant"@ by {
            assert(ms.drop_last()[j] == ms[j]);
        }
        lemma_no_assistant(ms.drop_last());
    }
}

fn set_reasoning(messages: &mut Vec<MessageOut>, i: usize, r: Option<String>)
    requires
        i < old(messages)@.len(),
    ensures
        messages_view(final(messages)@) == messages_view(old(messages)@).update(
            i as int,
            with_reasoning_v(old(messages)@[i as int]@, crate::dto::opt_str(r)),
        ),
        final(messages)@.len() == old(messages)@.len(),
        forall|j: int| 0 <= j < old(messages)@.len() && j != i ==> final(messages)@[j] == old(messages)@[j],
        final(messages)@[i as int]@ == with_reasoning_v(old(messages)@[i as int]@, crate::dto::opt_str(r)),
{
    let ghost v0 = messages_view(messages@);
    let mut m = messages.remove(i);
    m.reasoning_content = r;
    messages.insert(i, m);
    assert(messages@ =~= old(messages)@.update(i as int, m));
    assert(messages_view(messages@) =~= v0.update(i as int, m@));
}

pub fn attach_reasoning_to_last_assistant(messages: &mut Vec<MessageOut>, reasoning: Option<String>)
    ensures
        messages_view(final(messages)@) == reasoning_attached(
            messages_view(old(messages)@),
            crate::dto::opt_str(reasoning),
        ),
{
    let ghost v0 = messages_view(messages@);
    let ghost rv = crate::dto::opt_str(reasoning);
    let r = match reasoning {
        Some(r) => r,
        None => return,
    };
    if !nonblank_exec(&r) {
        return;
    }
    let mut i: usize = messages.len();
    while i > 0
        invariant
            i <= messages@.len(),
            v0 == messages_view(messages@),
            forall|j: int| i <= j < v0.len() ==> v0[j].role != "assistant"@,
            trim(r@).len() > 0,
            rv == Some(r@),
            rv == crate::dto::opt_str(reasoning),
            v0 == messages_view(old(messages)@),
        decreases i,
    {
        if role_is(&messages[i - 1], "assistant") {
            let k = i - 1;
            proof {
                assert(v0[k as int] == messages@[k as int]@);
                lemma_last_assistant(v0, k as int);
            }
            let merged = match &messages[k].reasoning_content {
                Some(e) => if nonblank_exec(e) {
                    let mut v = chars_of(e.as_str());
                    push_str(&mut v, "\n");
                    push_all(&mut v, chars_of(r.as_str()).as_slice());
                    string_from(v.as_slice())
                } else {
                    r
                },
                None => r,
            };
            assert(merged@ == (if nonblank(v0[k as int].reasoning_content) {
                v0[k as int].reasoning_content.unwrap() + "\n"@ + r@
            } else {
                r@
            }));
            let ghost mv = merged@;
            set_reasoning(messages, k, Some(merged));
            assert(reasoning_attached(v0, Some(r@)) == v0.update(
                k as int,
                with_reasoning_v(v0[k as int], Some(mv)),
            ));
            return;
        }
        proof {
            assert(v0[i - 1] == messages@[i - 1]@);
        }
        i = i - 1;
    }
    proof {
        lemma_no_assistant(v0);
    }
}

pub open spec fn media_message_v(parts: Seq<JsonV>) -> MessageV {
    MessageV {
        role: "user"@,
        content: Some(JsonV::Array(parts)),
        tool_calls: Seq::empty(),
        tool_call_id: None,
        reasoning_content: None,
    }
}

/// Media held back from tool results goes out as one user message whose
/// content is the media parts; nothing happens when none is held.
pub fn flush_pending_media(messages: &mut Vec<MessageOut>, pending_media: &mut Vec<Json>)
    ensures
        old(pending_media)@.len() == 0 ==> messages_view(final(messages)@) == messages_view(
            old(messages)@,
        ),
        old(pending_media)@.len() > 0 ==> messages_view(final(messages)@) == messages_view(
            old(messages)@,
        ).push(media_message_v(elems_view(old(pending_media)@))),
        final(pending_media)@.len() == 0,
{
    if pending_media.len() == 0 {
        return;
    }
    let mut parts: Vec<Json> = Vec::new();
    std::mem::swap(&mut parts, pending_media);
    let ghost pv = elems_view(parts@);
    proof {
        crate::json::lemma_array_view(parts);
    }
    let ghost v0 = messages_view(messages@);
    let m = MessageOut {
        role: owned("user"),
        content: Some(Json::Array(parts)),
        tool_calls: Vec::new(),
        tool_call_id: None,
        reasoning_content: None,
    };
    assert(m@.tool_calls =~= Seq::<ToolCallOutV>::empty());
    messages.push(m);
    assert(messages_view(messages@) =~= v0.push(media_message_v(pv)));
}

/// An assistant message with tool calls and blank (or no) reasoning gets
/// the placeholder reasoning `tool call`; other messages stay as they are.
pub open spec fn backfilled_v(m: MessageV) -> MessageV {
    if m.role == "assistant"@ && m.tool_calls.len() > 0 && !nonblank(m.reasoning_content) {
        with_reasoning_v(m, Some("tool call"@))
    } else {
        m
    }
}

pub fn backfill_tool_call_reasoning_placeholders(messages: &mut Vec<MessageOut>)
    ensures
        messages_view(final(messages)@) == messages_view(old(messages)@).map_values(
            |m: MessageV| backfilled_v(m),
        ),
{
    let ghost v0 = messages_view(messages@);
    let mut i: usize = 0;
    while i < messages.len()
        invariant
            i <= messages@.len(),
            messages@.len() == v0.len(),
            forall|j: int| 0 <= j < i ==> (#[trigger] messages@[j])@ == backfilled_v(v0[j]),
            forall|j: int| i <= j < v0.len() ==> (#[trigger] messages@[j])@ == v0[j],
        decreases v0.len() - i,
    {
        let needs = role_is(&messages[i], "assistant") && messages[i].tool_calls.len() > 0 && match &messages[i].reasoning_content {
            Some(e) => !nonblank_exec(e),
            None => true,
        };
        assert(messages@[i as int]@.tool_calls.len() == messages@[i as int].tool_calls@.len());
        if needs {
            set_reasoning(messages, i, Some(owned("tool call")));
        }
        i = i + 1;
    }
    assert(messages_view(messages@) =~= v0.map_values(|m: MessageV| backfilled_v(m)));
}

pub open spec fn empty_assistant_v() -> MessageV {
    MessageV {
        role: "assistant"@,
        content: None,
        tool_calls: Seq::empty(),
        tool_call_id: None,
        reasoning_content: None,
    }
}

/// The tool call joins the last message when that is an assistant
/// message; otherwise a new assistant message carries it.
pub open spec fn tool_call_appended(ms: Seq<MessageV>, t: ToolCallOutV) -> Seq<MessageV> {
    let ms1 = if ms.len() > 0 && ms.last().role == "assistant"@ {
        ms
    } else {
        ms.push(empty_assistant_v())
    };
    let last = ms1.last();
    ms1.update(
        ms1.len() - 1,
        MessageV {
            role: last.role,
            content: last.content,
            tool_calls: last.tool_calls.push(t),
            tool_call_id: last.tool_call_id,
            reasoning_content: last.reasoning_content,
        },
    )
}

pub fn append_tool_call_to_last_assistant(messages: &mut Vec<MessageOut>, tool: ToolCallOut)
    ensures
        messages_view(final(messages)@) == tool_call_appended(messages_view(old(messages)@), tool@),
{
    let ghost v0 = messages_view(messages@);
    let last_is_assistant = messages.len() > 0 && role_is(&messages[messages.len() - 1], "assistant");
    if !last_is_assistant {
        let m = MessageOut {
            role: owned("assistant"),
            content: None,
            tool_calls: Vec::new(),
            tool_call_id: None,
            reasoning_content: None,
        };
        assert(m@.tool_calls =~= Seq::<ToolCallOutV>::empty());
        messages.push(m);
        assert(messages_view(messages@) =~= v0.push(empty_assistant_v()));
    } else {
        assert(v0.last() == messages@.last()@);
    }
    let ghost v1 = messages_view(messages@);
    let ghost tv = tool@;
    let mut last = messages.pop().unwrap();
    let ghost lv = last@;
    last.tool_calls.push(tool);
    assert(crate::dto::calls_view(last.tool_calls@) =~= lv.tool_calls.push(tv));
    messages.push(last);
    assert(messages_view(messages@) =~= v1.update(
        v1.len() - 1,
        MessageV {
            role: lv.role,
            content: lv.content,
            tool_calls: lv.tool_calls.push(tv),
            tool_call_id: lv.tool_call_id,
            reasoning_content: lv.reasoning_content,
        },
    ));
}

} // verus!

verus! {

// ---------------------------------------------------------------------------
// Content parts
// ---------------------------------------------------------------------------
/// `{"type": "text", "text": t}`.
pub open spec fn text_part_v(t: Seq<char>) -> JsonV {
    JsonV::Object(seq![("type"@, JsonV::Str("text"@)), ("text"@, JsonV::Str(t))])
}

pub open spec fn is_text_kind(ty: Seq<char>) -> bool {
    ty == "input_text"@ || ty == "output_text"@ || ty == "text"@ || ty == "refusal"@
}

pub open spec fn is_media_kind(ty: Seq<char>) -> bool {
    ty == "input_image"@ || ty == "input_file"@ || ty == "input_audio"@ || ty == "input_video"@
        || ty == "image_url"@ || ty == "file"@
}

/// The text of a text-like part: a refusal's `refusal` (else `text`)
/// field, another part's `text`, when a string; else empty.
pub open spec fn text_of_part(p: JsonV, ty: Seq<char>) -> Seq<char> {
    let x = if ty == "refusal"@ {
        if vget(p, "refusal"@) is Some {
            vget(p, "refusal"@)
        } else {
            vget(p, "text"@)
        }
    } else {
        vget(p, "text"@)
    };
    match x {
        Some(JsonV::Str(s)) => s,
        _ => Seq::empty(),
    }
}

/// Converting parts: the Chat parts so far, the texts so far (joined by
/// newlines), and whether only text was seen.
pub struct PartsAcc {
    pub parts: Seq<JsonV>,
    pub text: Seq<char>,
    pub only_text: bool,
}

/// One part: a non-object is kept and ends text-only; a non-empty text,
/// output text or refusal becomes a text part and adds to the text; a
/// media part becomes its Chat form (and is dropped when it has none);
/// anything else is kept as it is.
pub open spec fn parts_step(acc: PartsAcc, p: JsonV) -> PartsAcc {
    if !(p is Object) {
        PartsAcc { parts: acc.parts.push(p), text: acc.text, only_text: false }
    } else {
        let ty = crate::tool_media::str_or(vget_str(p, "type"@), Seq::empty());
        if is_text_kind(ty) {
            let t = text_of_part(p, ty);
            if t.len() > 0 {
                PartsAcc {
                    parts: acc.parts.push(text_part_v(t)),
                    text: if acc.text.len() > 0 {
                        acc.text + "\n"@ + t
                    } else {
                        t
                    },
                    only_text: acc.only_text,
                }
            } else {
                acc
            }
        } else if is_media_kind(ty) {
            match crate::tool_media::media_part_v(p) {
                Some(m) => PartsAcc { parts: acc.parts.push(m), text: acc.text, only_text: false },
                None => acc,
            }
        } else {
            PartsAcc { parts: acc.parts.push(p), text: acc.text, only_text: false }
        }
    }
}

pub open spec fn parts_fold(ps: Seq<JsonV>) -> PartsAcc
    decreases ps.len(),
{
    if ps.len() == 0 {
        PartsAcc { parts: Seq::empty(), text: Seq::empty(), only_text: true }
    } else {
        parts_step(parts_fold(ps.drop_last()), ps.last())
    }
}

/// Content parts as Chat content: the joined text when only text was
/// seen, else the Chat parts.
pub open spec fn chat_content_of_parts(ps: Seq<JsonV>) -> JsonV {
    let acc = parts_fold(ps);
    if acc.only_text {
        JsonV::Str(acc.text)
    } else {
        JsonV::Array(acc.parts)
    }
}

fn text_part(t: &String) -> (r: Json)
    ensures
        r@ == text_part_v(t@),
{
    let mut f: Vec<(String, Json)> = Vec::new();
    f.push((owned("type"), Json::Str(owned("text"))));
    f.push((owned("text"), Json::Str(t.clone())));
    proof {
        lemma_object_view(f);
    }
    assert(fields_view(f@) =~= seq![("type"@, JsonV::Str("text"@)), ("text"@, JsonV::Str(t@))]);
    Json::Object(f)
}

pub fn content_parts_to_chat_content(parts: &[Json]) -> (r: Result<Json, String>)
    ensures
        r matches Ok(c) && c@ == chat_content_of_parts(parts@.map_values(|p: Json| p@)),
{
    let ghost pv = parts@.map_values(|p: Json| p@);
    let mut chat_parts: Vec<Json> = Vec::new();
    let mut text_only: Vec<char> = Vec::new();
    let mut only_text = true;
    let mut i: usize = 0;
    while i < parts.len()
        invariant
            i <= parts@.len(),
            pv == parts@.map_values(|p: Json| p@),
            ({
                let acc = parts_fold(pv.take(i as int));
                &&& elems_view(chat_parts@) == acc.parts
                &&& text_only@ == acc.text
                &&& only_text == acc.only_text
            }),
        decreases parts@.len() - i,
    {
        proof {
            assert(pv.take(i + 1).drop_last() =~= pv.take(i as int));
            assert(pv.take(i + 1).last() == parts@[i as int]@);
        }
        let ghost cp0 = elems_view(chat_parts@);
        let p = &parts[i];
        if !p.is_object() {
            only_text = false;
            chat_parts.push(deep_clone(p));
            assert(elems_view(chat_parts@) =~= cp0.push(p@));
        } else {
            let ty: String = match p.get_str("type") {
                Some(t) => t.clone(),
                None => String::new(),
            };
            let tc = chars_of(ty.as_str());
            let t = tc.as_slice();
            if is(t, "input_text") || is(t, "output_text") || is(t, "text") || is(t, "refusal") {
                let x = if is(t, "refusal") {
                    if p.get("refusal").is_some() {
                        p.get("refusal")
                    } else {
                        p.get("text")
                    }
                } else {
                    p.get("text")
                };
                let text: String = match x {
                    Some(Json::Str(s)) => s.clone(),
                    _ => String::new(),
                };
                if chars_of(text.as_str()).len() > 0 {
                    if text_only.len() > 0 {
                        push_str(&mut text_only, "\n");
                    }
                    push_all(&mut text_only, chars_of(text.as_str()).as_slice());
                    chat_parts.push(text_part(&text));
                    assert(elems_view(chat_parts@) =~= cp0.push(text_part_v(text@)));
                }
            } else if is(t, "input_image") || is(t, "input_file") || is(t, "input_audio") || is(
                t,
                "input_video",
            ) || is(t, "image_url") || is(t, "file") {
                match crate::tool_media::chat_media_part(p) {
                    Some(m) => {
                        only_text = false;
                        let ghost mv = m@;
                        chat_parts.push(m);
                        assert(elems_view(chat_parts@) =~= cp0.push(mv));
                    },
                    None => {},
                }
            } else {
                only_text = false;
                chat_parts.push(deep_clone(p));
                assert(elems_view(chat_parts@) =~= cp0.push(p@));
            }
        }
        i = i + 1;
    }
    assert(pv.take(parts@.len() as int) =~= pv);
    if only_text {
        Ok(Json::Str(string_from(text_only.as_slice())))
    } else {
        proof {
            crate::json::lemma_array_view(chat_parts);
        }
        Ok(Json::Array(chat_parts))
    }
}

/// Input content as Chat content: missing content is the empty string;
/// parts convert; any other value passes as it is.
pub open spec fn input_content_v(content: Option<JsonV>) -> JsonV {
    match content {
        None => JsonV::Str(Seq::empty()),
        Some(JsonV::Array(ps)) => chat_content_of_parts(ps),
        Some(c) => c,
    }
}

pub fn input_content_to_chat_content(content: Option<&Json>) -> (r: Result<Json, String>)
    ensures
        r matches Ok(c) && c@ == input_content_v(
            match content {
                Some(x) => Some(x@),
                None => None,
            },
        ),
{
    match content {
        None => Ok(Json::Str(String::new())),
        Some(Json::Array(ps)) => {
            proof {
                crate::json::lemma_array_view(*ps);
                assert(ps@.map_values(|p: Json| p@) =~= elems_view(ps@));
            }
            content_parts_to_chat_content(ps.as_slice())
        },
        Some(c) => Ok(deep_clone(c)),
    }
}

} // verus!

verus! {

// ---------------------------------------------------------------------------
// Function tools, tool_choice, text.format
// ---------------------------------------------------------------------------
/// `{"type": "object", "properties": {}}`.
pub open spec fn empty_object_schema() -> JsonV {
    JsonV::Object(
        seq![("type"@, JsonV::Str("object"@)), ("properties"@, JsonV::Object(Seq::empty()))],
    )
}

/// Function parameters as an object schema: an object gets `type` set to
/// `object`; anything else becomes the empty object schema.
pub open spec fn normalized_params(p: Option<JsonV>) -> JsonV {
    match p {
        Some(JsonV::Object(f)) => vset(JsonV::Object(f), "type"@, JsonV::Str("object"@)),
        _ => empty_object_schema(),
    }
}

pub fn normalize_function_parameters(parameters: Option<Json>) -> (r: Json)
    ensures
        r@ == normalized_params(opt_jv(parameters)),
{
    match parameters {
        Some(v) => if v.is_object() {
            let mut v = v;
            v.set("type", Json::Str(owned("object")));
            v
        } else {
            empty_schema()
        },
        None => empty_schema(),
    }
}

fn empty_schema() -> (r: Json)
    ensures
        r@ == empty_object_schema(),
{
    let props: Vec<(String, Json)> = Vec::new();
    proof {
        lemma_object_view(props);
    }
    assert(fields_view(props@) =~= Seq::<(Seq<char>, JsonV)>::empty());
    let mut f: Vec<(String, Json)> = Vec::new();
    f.push((owned("type"), Json::Str(owned("object"))));
    f.push((owned("properties"), Json::Object(props)));
    proof {
        lemma_object_view(f);
    }
    assert(fields_view(f@) =~= seq![
        ("type"@, JsonV::Str("object"@)),
        ("properties"@, JsonV::Object(Seq::empty())),
    ]);
    Json::Object(f)
}

/// The nested `function` object of a Chat-style tool definition.
pub open spec fn nested_function(t: JsonV) -> Option<JsonV> {
    match vget(t, "function"@) {
        Some(JsonV::Object(f)) => Some(JsonV::Object(f)),
        _ => None,
    }
}

/// Field `key` of a tool definition, from its nested `function` object
/// first.
pub open spec fn tool_field(t: JsonV, key: Seq<char>) -> Option<JsonV> {
    match nested_function(t) {
        Some(n) => if vget(n, key) is Some {
            vget(n, key)
        } else {
            vget(t, key)
        },
        None => vget(t, key),
    }
}

pub open spec fn field_text_or_empty(v: Option<JsonV>) -> Seq<char> {
    match v {
        Some(x) => value_string(x),
        None => Seq::empty(),
    }
}

/// A function tool definition as a Chat tool: `None` without a name;
/// otherwise the chat name (flattened with the namespace), the
/// description, the parameters as an object schema and `strict`.
pub open spec fn function_tool_v(c: CtxV, t: JsonV, namespace: Option<Seq<char>>) -> Option<
    ToolCallOutV,
> {
    let name = trim(field_text_or_empty(tool_field(t, "name"@)));
    if name.len() == 0 {
        None
    } else {
        Some(
            ToolCallOutV {
                id: Seq::empty(),
                call_type: "function"@,
                function: Some(
                    FunctionOutV {
                        description: field_text_or_empty(tool_field(t, "description"@)),
                        name: chat_name_of(c, name, namespace),
                        parameters: Some(normalized_params(tool_field(t, "parameters"@))),
                        strict: tool_field(t, "strict"@),
                        arguments: Seq::empty(),
                    },
                ),
            },
        )
    }
}

fn tool_field_exec<'a>(t: &'a Json, key: &str) -> (r: Option<&'a Json>)
    ensures
        match r {
            Some(x) => tool_field(t@, key@) == Some(x@),
            None => tool_field(t@, key@) is None,
        },
{
    match t.get("function") {
        Some(n) => if n.is_object() {
            match n.get(key) {
                Some(x) => Some(x),
                None => t.get(key),
            }
        } else {
            t.get(key)
        },
        None => t.get(key),
    }
}

fn field_text_exec(v: Option<&Json>) -> (r: String)
    ensures
        r@ == field_text_or_empty(
            match v {
                Some(x) => Some(x@),
                None => None,
            },
        ),
{
    match v {
        Some(x) => value_to_string(x),
        None => String::new(),
    }
}

fn opt_clone(v: Option<&Json>) -> (r: Option<Json>)
    ensures
        opt_jv(r) == match v {
            Some(x) => Some(x@),
            None => None,
        },
{
    match v {
        Some(x) => Some(deep_clone(x)),
        None => None,
    }
}

pub fn function_tool_to_chat(t: &Json, namespace: Option<&str>, tool_ctx: &ToolContext) -> (r: Option<ToolCallOut>)
    ensures
        match r {
            Some(x) => function_tool_v(
                tool_ctx@,
                t@,
                match namespace {
                    Some(n) => Some(n@),
                    None => None,
                },
            ) == Some(x@),
            None => function_tool_v(
                tool_ctx@,
                t@,
                match namespace {
                    Some(n) => Some(n@),
                    None => None,
                },
            ) is None,
        },
{
    let name_raw = field_text_exec(tool_field_exec(t, "name"));
    let name = string_from(trim_chars(chars_of(name_raw.as_str()).as_slice()).as_slice());
    if chars_of(name.as_str()).len() == 0 {
        return None;
    }
    let chat_name = tool_ctx.chat_name_for(name.as_str(), namespace);
    let description = field_text_exec(tool_field_exec(t, "description"));
    let parameters = normalize_function_parameters(opt_clone(tool_field_exec(t, "parameters")));
    let strict = opt_clone(tool_field_exec(t, "strict"));
    Some(
        ToolCallOut {
            id: String::new(),
            call_type: owned("function"),
            function: Some(
                FunctionOut {
                    description,
                    name: chat_name,
                    parameters: Some(parameters),
                    strict,
                    arguments: String::new(),
                },
            ),
        },
    )
}

/// `{"type": "function", "function": {"name": n}}`.
pub open spec fn named_choice_v(n: Seq<char>) -> JsonV {
    JsonV::Object(
        seq![
            ("type"@, JsonV::Str("function"@)),
            ("function"@, JsonV::Object(seq![("name"@, JsonV::Str(n))])),
        ],
    )
}

/// `tool_choice` for Chat: absent (or null) stays absent; a string passes;
/// a `function` choice names its chat name (flattened with a non-blank
/// namespace), a `custom` choice its name, a `tool_search` choice the
/// proxy tool; a nameless or unknown object passes as it is; anything else
/// is refused.
pub open spec fn tool_choice_v(c: CtxV, tc: Option<JsonV>) -> Result<Option<JsonV>, Seq<char>> {
    if !present_v(tc) {
        Ok(None)
    } else {
        let v = tc.unwrap();
        match v {
            JsonV::Str(_) => Ok(Some(v)),
            JsonV::Object(_) => {
                let ty = crate::tool_media::str_or(vget_str(v, "type"@), Seq::empty());
                let name = trim(crate::tool_media::str_or(vget_str(v, "name"@), Seq::empty()));
                if ty == "function"@ {
                    if name.len() > 0 {
                        Ok(
                            Some(
                                named_choice_v(
                                    chat_name_of(c, name, trimmed_nonempty(v, "namespace"@)),
                                ),
                            ),
                        )
                    } else {
                        Ok(Some(v))
                    }
                } else if ty == "custom"@ {
                    if name.len() > 0 {
                        Ok(Some(named_choice_v(name)))
                    } else {
                        Ok(Some(v))
                    }
                } else if ty == "tool_search"@ {
                    Ok(Some(named_choice_v("tool_search"@)))
                } else {
                    Ok(Some(v))
                }
            },
            _ => Err("invalid tool_choice"@),
        }
    }
}

fn named_choice(n: String) -> (r: Json)
    ensures
        r@ == named_choice_v(n@),
{
    let ghost nv = n@;
    let mut inner: Vec<(String, Json)> = Vec::new();
    inner.push((owned("name"), Json::Str(n)));
    proof {
        lemma_object_view(inner);
    }
    assert(fields_view(inner@) =~= seq![("name"@, JsonV::Str(nv))]);
    let mut f: Vec<(String, Json)> = Vec::new();
    f.push((owned("type"), Json::Str(owned("function"))));
    f.push((owned("function"), Json::Object(inner)));
    proof {
        lemma_object_view(f);
    }
    assert(fields_view(f@) =~= seq![
        ("type"@, JsonV::Str("function"@)),
        ("function"@, JsonV::Object(seq![("name"@, JsonV::Str(nv))])),
    ]);
    Json::Object(f)
}

pub fn request_tool_choice_to_chat(tool_choice: Option<&Json>, tool_ctx: &ToolContext) -> (r: Result<Option<Json>, String>)
    ensures
        match r {
            Ok(x) => tool_choice_v(
                tool_ctx@,
                match tool_choice {
                    Some(v) => Some(v@),
                    None => None,
                },
            ) == Ok::<Option<JsonV>, Seq<char>>(opt_jv(x)),
            Err(e) => tool_choice_v(
                tool_ctx@,
                match tool_choice {
                    Some(v) => Some(v@),
                    None => None,
                },
            ) == Err::<Option<JsonV>, Seq<char>>(e@),
        },
{
    if !present(tool_choice) {
        return Ok(None);
    }
    let tc = tool_choice.unwrap();
    match tc {
        Json::Str(s) => Ok(Some(Json::Str(s.clone()))),
        Json::Object(_) => {
            let ty: String = match tc.get_str("type") {
                Some(t) => t.clone(),
                None => String::new(),
            };
            let name_raw: String = match tc.get_str("name") {
                Some(t) => t.clone(),
                None => String::new(),
            };
            let name = string_from(trim_chars(chars_of(name_raw.as_str()).as_slice()).as_slice());
            let tyc = chars_of(ty.as_str());
            let has_name = chars_of(name.as_str()).len() > 0;
            if is(tyc.as_slice(), "function") {
                if has_name {
                    let ns = trimmed_nonempty_exec(tc, "namespace");
                    let chat = match ns {
                        Some(n) => {
                            let ns_s = string_from(n.as_slice());
                            tool_ctx.chat_name_for(name.as_str(), Some(ns_s.as_str()))
                        },
                        None => tool_ctx.chat_name_for(name.as_str(), None),
                    };
                    Ok(Some(named_choice(chat)))
                } else {
                    Ok(Some(deep_clone(tc)))
                }
            } else if is(tyc.as_slice(), "custom") {
                if has_name {
                    Ok(Some(named_choice(name)))
                } else {
                    Ok(Some(deep_clone(tc)))
                }
            } else if is(tyc.as_slice(), "tool_search") {
                Ok(Some(named_choice(owned("tool_search"))))
            } else {
                Ok(Some(deep_clone(tc)))
            }
        },
        _ => Err(owned("invalid tool_choice")),
    }
}

/// `text.format` as a Chat `response_format`: absent (or null) text, or
/// text without a `format` object or with a blank format type, gives
/// none; a `json_schema` format is nested whole under `json_schema`;
/// another type gives `{"type": <type>}`; text that is not an object is
/// refused.
pub open spec fn response_format_v(text: Option<JsonV>) -> Result<Option<JsonV>, Seq<char>> {
    if !present_v(text) {
        Ok(None)
    } else {
        let t = text.unwrap();
        if !(t is Object) {
            Err("invalid text config"@)
        } else {
            match vget(t, "format"@) {
                Some(JsonV::Object(ff)) => {
                    let f = JsonV::Object(ff);
                    let ft = trim(crate::tool_media::str_or(vget_str(f, "type"@), Seq::empty()));
                    if ft.len() == 0 {
                        Ok(None)
                    } else if ft == "json_schema"@ {
                        Ok(
                            Some(
                                JsonV::Object(
                                    seq![
                                        ("type"@, JsonV::Str("json_schema"@)),
                                        ("json_schema"@, f),
                                    ],
                                ),
                            ),
                        )
                    } else {
                        Ok(Some(JsonV::Object(seq![("type"@, JsonV::Str(ft))])))
                    }
                },
                _ => Ok(None),
            }
        }
    }
}

pub fn request_text_to_chat_response_format(text: Option<&Json>) -> (r: Result<Option<Json>, String>)
    ensures
        match r {
            Ok(x) => response_format_v(
                match text {
                    Some(v) => Some(v@),
                    None => None,
                },
            ) == Ok::<Option<JsonV>, Seq<char>>(opt_jv(x)),
            Err(e) => response_format_v(
                match text {
                    Some(v) => Some(v@),
                    None => None,
                },
            ) == Err::<Option<JsonV>, Seq<char>>(e@),
        },
{
    if !present(text) {
        return Ok(None);
    }
    let t = text.unwrap();
    if !t.is_object() {
        return Err(owned("invalid text config"));
    }
    match t.get("format") {
        Some(f) => {
            if !f.is_object() {
                return Ok(None);
            }
            let ft_raw: String = match f.get_str("type") {
                Some(s) => s.clone(),
                None => String::new(),
            };
            let ft = trim_chars(chars_of(ft_raw.as_str()).as_slice());
            if ft.len() == 0 {
                return Ok(None);
            }
            let ghost fv = f@;
            if is(ft.as_slice(), "json_schema") {
                let mut o: Vec<(String, Json)> = Vec::new();
                o.push((owned("type"), Json::Str(owned("json_schema"))));
                o.push((owned("json_schema"), deep_clone(f)));
                proof {
                    lemma_object_view(o);
                }
                assert(fields_view(o@) =~= seq![
                    ("type"@, JsonV::Str("json_schema"@)),
                    ("json_schema"@, fv),
                ]);
                Ok(Some(Json::Object(o)))
            } else {
                let ghost ftv = ft@;
                let mut o: Vec<(String, Json)> = Vec::new();
                o.push((owned("type"), Json::Str(string_from(ft.as_slice()))));
                proof {
                    lemma_object_view(o);
                }
                assert(fields_view(o@) =~= seq![("type"@, JsonV::Str(ftv))]);
                Ok(Some(Json::Object(o)))
            }
        },
        None => Ok(None),
    }
}

} // verus!

verus! {

// ---------------------------------------------------------------------------
// Request tools as Chat tools
// ---------------------------------------------------------------------------
pub open spec fn str_v(s: Seq<char>) -> JsonV {
    JsonV::Str(s)
}

/// `{"type": <ty>, "description": <d>}`.
pub open spec fn typed_prop_v(ty: Seq<char>, d: Seq<char>) -> JsonV {
    JsonV::Object(seq![("type"@, str_v(ty)), ("description"@, str_v(d))])
}

/// An object schema with the given properties and one required property.
pub open spec fn schema_v(props: Seq<(Seq<char>, JsonV)>, required: Seq<char>) -> JsonV {
    JsonV::Object(
        seq![
            ("type"@, str_v("object"@)),
            ("properties"@, JsonV::Object(props)),
            ("required"@, JsonV::Array(seq![str_v(required)])),
        ],
    )
}

/// A Chat function tool with the given description, name and parameters.
pub open spec fn function_out_v(description: Seq<char>, name: Seq<char>, parameters: JsonV) -> ToolCallOutV {
    ToolCallOutV {
        id: Seq::empty(),
        call_type: "function"@,
        function: Some(
            FunctionOutV {
                description,
                name,
                parameters: Some(parameters),
                strict: None,
                arguments: Seq::empty(),
            },
        ),
    }
}

/// Hosted web search, bridged to a `web_search` function with one `query`.
pub open spec fn web_search_tool_v(t: JsonV) -> ToolCallOutV {
    function_out_v(
        match vget(t, "description"@) {
            Some(d) => value_string(d),
            None => "Web search tool"@,
        },
        "web_search"@,
        schema_v(seq![("query"@, typed_prop_v("string"@, "Search query"@))], "query"@),
    )
}

/// The tool-search proxy function (`query`, `limit`).
pub open spec fn tool_search_tool_v() -> ToolCallOutV {
    function_out_v(
        "Search and load Codex tools, plugins, connectors, and MCP namespaces for the current task."@,
        "tool_search"@,
        schema_v(
            seq![
                ("query"@, typed_prop_v("string"@, "Search query for tools or connectors to load."@)),
                ("limit"@, typed_prop_v("integer"@, "Maximum number of tool groups to return."@)),
            ],
            "query"@,
        ),
    )
}

/// A custom tool sent as a function with one raw string `input`; its
/// definition, as canonical JSON text, is kept in the description (after
/// the original description, when that is not blank).
pub open spec fn custom_tool_out_v(name: Seq<char>, original_desc: Seq<char>, tool: JsonV) -> ToolCallOutV {
    let kept = "Original tool definition:\n```json\n"@ + json_string(tool) + "```"@;
    function_out_v(
        if trim(original_desc).len() == 0 {
            kept
        } else {
            original_desc + "\n\n"@ + kept
        },
        name,
        schema_v(
            seq![
                ("input"@, typed_prop_v(
                    "string"@,
                    "Raw string input for the original custom tool. Preserve formatting exactly and follow the original tool definition embedded in the description."@,
                )),
            ],
            "input"@,
        ),
    )
}

pub open spec fn opt_seq<A>(o: Option<A>) -> Seq<A> {
    match o {
        Some(x) => seq![x],
        None => Seq::empty(),
    }
}

/// The functions of a namespace's children, from the first `k`.
pub open spec fn ns_children_out(c: CtxV, children: Seq<JsonV>, ns: Seq<char>, k: int) -> Seq<ToolCallOutV>
    decreases k,
{
    if k <= 0 {
        Seq::empty()
    } else {
        let p = ns_children_out(c, children, ns, k - 1);
        let ch = children[k - 1];
        if ch is Object {
            p + opt_seq(function_tool_v(c, ch, Some(ns)))
        } else {
            p
        }
    }
}

/// The Chat tools one request tool gives (`None` for an invalid entry): a
/// string names a custom tool; `web_search` and `tool_search` become their
/// proxy functions; a namespace gives its children, flattened; a function
/// (or untyped) tool itself; a custom tool its function form; other hosted
/// tools nothing.
pub open spec fn tool_outs_v(c: CtxV, tool: JsonV) -> Option<Seq<ToolCallOutV>> {
    match tool {
        JsonV::Str(name) => Some(
            if trim(name).len() > 0 {
                seq![custom_tool_out_v(trim(name), Seq::empty(), tool)]
            } else {
                Seq::empty()
            },
        ),
        JsonV::Object(_) => {
            let ty = trim(
                match vget_str(tool, "type"@) {
                    Some(x) => x,
                    None => Seq::empty(),
                },
            );
            Some(
                if ty == "web_search"@ {
                    seq![web_search_tool_v(tool)]
                } else if ty == "tool_search"@ {
                    seq![tool_search_tool_v()]
                } else if ty == "namespace"@ {
                    let ns = trim(
                        match vget_str(tool, "name"@) {
                            Some(x) => x,
                            None => Seq::empty(),
                        },
                    );
                    let children = if vget(tool, "tools"@) is Some {
                        vget(tool, "tools"@)
                    } else {
                        vget(tool, "children"@)
                    };
                    if ns.len() == 0 {
                        Seq::empty()
                    } else {
                        match children {
                            Some(JsonV::Array(a)) => ns_children_out(c, a, ns, a.len() as int),
                            _ => Seq::empty(),
                        }
                    }
                } else if ty == "function"@ || ty.len() == 0 {
                    opt_seq(function_tool_v(c, tool, None))
                } else if ty == "custom"@ {
                    let name = trim(field_text_or_empty(vget(tool, "name"@)));
                    if name.len() == 0 {
                        Seq::empty()
                    } else {
                        seq![custom_tool_out_v(name, field_text_or_empty(vget(tool, "description"@)), tool)]
                    }
                } else {
                    Seq::empty()
                },
            )
        },
        _ => None,
    }
}

/// The Chat tools of the first `k` request tools; the first invalid entry
/// refuses the request.
pub open spec fn tools_fold(c: CtxV, tools: Seq<JsonV>, k: int) -> Result<Seq<ToolCallOutV>, Seq<char>>
    decreases k,
{
    if k <= 0 {
        Ok(Seq::empty())
    } else {
        match tools_fold(c, tools, k - 1) {
            Err(e) => Err(e),
            Ok(p) => match tool_outs_v(c, tools[k - 1]) {
                Some(o) => Ok(p + o),
                None => Err("invalid tools"@),
            },
        }
    }
}

/// The request's `tools` as Chat tools: none when absent or null; an
/// array is converted entry by entry; anything else is refused.
pub open spec fn request_tools_v(c: CtxV, tools: Option<JsonV>) -> Result<Seq<ToolCallOutV>, Seq<char>> {
    if !present_v(tools) {
        Ok(Seq::empty())
    } else {
        match tools {
            Some(JsonV::Array(a)) => tools_fold(c, a, a.len() as int),
            _ => Err("invalid tools"@),
        }
    }
}

} // verus!

verus! {

fn typed_prop(ty: &str, d: &str) -> (r: Json)
    ensures
        r@ == typed_prop_v(ty@, d@),
{
    let mut f: Vec<(String, Json)> = Vec::new();
    crate::dto::push_field(&mut f, "type", crate::json::jstr(ty));
    crate::dto::push_field(&mut f, "description", crate::json::jstr(d));
    proof {
        lemma_object_view(f);
    }
    assert(fields_view(f@) =~= seq![("type"@, str_v(ty@)), ("description"@, str_v(d@))]);
    Json::Object(f)
}

fn schema(props: Vec<(String, Json)>, required: &str) -> (r: Json)
    ensures
        r@ == schema_v(fields_view(props@), required@),
{
    proof {
        lemma_object_view(props);
    }
    let mut req: Vec<Json> = Vec::new();
    req.push(crate::json::jstr(required));
    proof {
        crate::json::lemma_array_view(req);
    }
    assert(elems_view(req@) =~= seq![str_v(required@)]);
    let mut f: Vec<(String, Json)> = Vec::new();
    crate::dto::push_field(&mut f, "type", crate::json::jstr("object"));
    crate::dto::push_field(&mut f, "properties", Json::Object(props));
    crate::dto::push_field(&mut f, "required", Json::Array(req));
    proof {
        lemma_object_view(f);
    }
    assert(fields_view(f@) =~= match schema_v(fields_view(props@), required@) {
        JsonV::Object(fs) => fs,
        _ => Seq::empty(),
    });
    Json::Object(f)
}

fn function_out(description: String, name: String, parameters: Json) -> (r: ToolCallOut)
    ensures
        r@ == function_out_v(description@, name@, parameters@),
{
    ToolCallOut {
        id: String::new(),
        call_type: owned("function"),
        function: Some(
            FunctionOut { description, name, parameters: Some(parameters), strict: None, arguments: String::new() },
        ),
    }
}

fn web_search_tool(t: &Json) -> (r: ToolCallOut)
    ensures
        r@ == web_search_tool_v(t@),
{
    let description = match t.get("description") {
        Some(d) => value_to_string(d),
        None => owned("Web search tool"),
    };
    let mut props: Vec<(String, Json)> = Vec::new();
    crate::dto::push_field(&mut props, "query", typed_prop("string", "Search query"));
    assert(fields_view(props@) =~= seq![("query"@, typed_prop_v("string"@, "Search query"@))]);
    function_out(description, owned("web_search"), schema(props, "query"))
}

fn tool_search_tool() -> (r: ToolCallOut)
    ensures
        r@ == tool_search_tool_v(),
{
    let mut props: Vec<(String, Json)> = Vec::new();
    crate::dto::push_field(
        &mut props,
        "query",
        typed_prop("string", "Search query for tools or connectors to load."),
    );
    crate::dto::push_field(
        &mut props,
        "limit",
        typed_prop("integer", "Maximum number of tool groups to return."),
    );
    assert(fields_view(props@) =~= seq![
        ("query"@, typed_prop_v("string"@, "Search query for tools or connectors to load."@)),
        ("limit"@, typed_prop_v("integer"@, "Maximum number of tool groups to return."@)),
    ]);
    function_out(
        owned(
            "Search and load Codex tools, plugins, connectors, and MCP namespaces for the current task.",
        ),
        owned("tool_search"),
        schema(props, "query"),
    )
}

/// A custom tool as a Chat function (see `custom_tool_out_v`).
pub fn custom_tool_to_chat(name: &str, original_desc: &str, tool: &Json) -> (r: ToolCallOut)
    ensures
        r@ == custom_tool_out_v(name@, original_desc@, tool@),
{
    let mut kept = chars_of("Original tool definition:\n```json\n");
    push_all(&mut kept, chars_of(to_json_string(tool).as_str()).as_slice());
    push_str(&mut kept, "```");
    let description = if trim_chars(chars_of(original_desc).as_slice()).len() == 0 {
        string_from(kept.as_slice())
    } else {
        let mut d = chars_of(original_desc);
        push_str(&mut d, "\n\n");
        push_all(&mut d, kept.as_slice());
        string_from(d.as_slice())
    };
    let mut props: Vec<(String, Json)> = Vec::new();
    crate::dto::push_field(
        &mut props,
        "input",
        typed_prop(
            "string",
            "Raw string input for the original custom tool. Preserve formatting exactly and follow the original tool definition embedded in the description.",
        ),
    );
    assert(fields_view(props@) =~= seq![
        ("input"@, typed_prop_v(
            "string"@,
            "Raw string input for the original custom tool. Preserve formatting exactly and follow the original tool definition embedded in the description."@,
        )),
    ]);
    function_out(description, owned(name), schema(props, "input"))
}

fn push_call(out: &mut Vec<ToolCallOut>, t: ToolCallOut)
    ensures
        crate::dto::calls_view(final(out)@) == crate::dto::calls_view(old(out)@).push(t@),
{
    out.push(t);
    assert(crate::dto::calls_view(out@) =~= crate::dto::calls_view(old(out)@).push(t@));
}

fn push_opt_call(out: &mut Vec<ToolCallOut>, t: Option<ToolCallOut>)
    ensures
        crate::dto::calls_view(final(out)@) == crate::dto::calls_view(old(out)@) + opt_seq(
            match t {
                Some(x) => Some(x@),
                None => None,
            },
        ),
{
    match t {
        Some(x) => push_call(out, x),
        None => {},
    }
    assert(crate::dto::calls_view(out@) =~= crate::dto::calls_view(old(out)@) + opt_seq(
        match t {
            Some(x) => Some(x@),
            None => None,
        },
    ));
}

fn push_ns_children(out: &mut Vec<ToolCallOut>, children: &Vec<Json>, ns: &str, tool_ctx: &ToolContext)
    ensures
        crate::dto::calls_view(final(out)@) == crate::dto::calls_view(old(out)@) + ns_children_out(
            tool_ctx@,
            elems_view(children@),
            ns@,
            children@.len() as int,
        ),
{
    let ghost o0 = crate::dto::calls_view(out@);
    let ghost cv = elems_view(children@);
    let mut i: usize = 0;
    while i < children.len()
        invariant
            i <= children@.len(),
            cv == elems_view(children@),
            crate::dto::calls_view(out@) == o0 + ns_children_out(tool_ctx@, cv, ns@, i as int),
        decreases children@.len() - i,
    {
        let ch = &children[i];
        assert(cv[i as int] == ch@);
        if ch.is_object() {
            let ghost before = crate::dto::calls_view(out@);
            push_opt_call(out, function_tool_to_chat(ch, Some(ns), tool_ctx));
            let ghost p = ns_children_out(tool_ctx@, cv, ns@, i as int);
            assert(o0 + p + opt_seq(function_tool_v(tool_ctx@, ch@, Some(ns@))) =~= o0 + (p + opt_seq(
                function_tool_v(tool_ctx@, ch@, Some(ns@)),
            )));
        }
        i = i + 1;
    }
}

fn str_or_empty(o: Option<&String>) -> (r: String)
    ensures
        r@ == match o {
            Some(s) => s@,
            None => Seq::<char>::empty(),
        },
{
    match o {
        Some(s) => s.clone(),
        None => String::new(),
    }
}

/// Appends the Chat tools of one request tool; `false` for an invalid
/// entry (see `tool_outs_v`).
fn push_tool_outs(out: &mut Vec<ToolCallOut>, tool: &Json, tool_ctx: &ToolContext) -> (ok: bool)
    ensures
        match tool_outs_v(tool_ctx@, tool@) {
            Some(o) => ok && crate::dto::calls_view(final(out)@) == crate::dto::calls_view(old(out)@) + o,
            None => !ok && final(out)@ == old(out)@,
        },
{
    let ghost o0 = crate::dto::calls_view(out@);
    match tool {
        Json::Str(name) => {
            let t = trim_chars(chars_of(name.as_str()).as_slice());
            if t.len() > 0 {
                proof {
                    reveal_strlit("");
                }
                push_call(out, custom_tool_to_chat(string_from(t.as_slice()).as_str(), "", tool));
                assert(crate::dto::calls_view(out@) =~= o0 + seq![
                    custom_tool_out_v(trim(name@), Seq::empty(), tool@),
                ]);
            } else {
                assert(crate::dto::calls_view(out@) =~= o0 + Seq::<ToolCallOutV>::empty());
            }
            true
        },
        Json::Object(_) => {
            let ty = trim_chars(chars_of(str_or_empty(tool.get_str("type")).as_str()).as_slice());
            let tys = ty.as_slice();
            if is(tys, "web_search") {
                push_call(out, web_search_tool(tool));
                assert(crate::dto::calls_view(out@) =~= o0 + seq![web_search_tool_v(tool@)]);
            } else if is(tys, "tool_search") {
                push_call(out, tool_search_tool());
                assert(crate::dto::calls_view(out@) =~= o0 + seq![tool_search_tool_v()]);
            } else if is(tys, "namespace") {
                let ns = trim_chars(chars_of(str_or_empty(tool.get_str("name")).as_str()).as_slice());
                let children = match tool.get("tools") {
                    Some(x) => Some(x),
                    None => tool.get("children"),
                };
                if ns.len() == 0 {
                    assert(crate::dto::calls_view(out@) =~= o0 + Seq::<ToolCallOutV>::empty());
                } else {
                    match children {
                        Some(x) => match x.as_array() {
                            Some(a) => {
                                let nss = string_from(ns.as_slice());
                                push_ns_children(out, a, nss.as_str(), tool_ctx);
                            },
                            None => {
                                assert(crate::dto::calls_view(out@) =~= o0 + Seq::<ToolCallOutV>::empty());
                            },
                        },
                        None => {
                            assert(crate::dto::calls_view(out@) =~= o0 + Seq::<ToolCallOutV>::empty());
                        },
                    }
                }
            } else if is(tys, "function") || ty.len() == 0 {
                push_opt_call(out, function_tool_to_chat(tool, None, tool_ctx));
            } else if is(tys, "custom") {
                let name = trim_chars(chars_of(field_text_exec(tool.get("name")).as_str()).as_slice());
                if name.len() == 0 {
                    assert(crate::dto::calls_view(out@) =~= o0 + Seq::<ToolCallOutV>::empty());
                } else {
                    let desc = field_text_exec(tool.get("description"));
                    push_call(
                        out,
                        custom_tool_to_chat(string_from(name.as_slice()).as_str(), desc.as_str(), tool),
                    );
                    assert(crate::dto::calls_view(out@) =~= o0 + seq![
                        custom_tool_out_v(name@, desc@, tool@),
                    ]);
                }
            } else {
                assert(crate::dto::calls_view(out@) =~= o0 + Seq::<ToolCallOutV>::empty());
            }
            true
        },
        _ => false,
    }
}

/// The request's `tools` as Chat tools (see `request_tools_v`).
pub fn request_tools_to_chat(tools: Option<&Json>, tool_ctx: &ToolContext) -> (r: Result<Vec<ToolCallOut>, String>)
    ensures
        match r {
            Ok(v) => request_tools_v(
                tool_ctx@,
                match tools {
                    Some(t) => Some(t@),
                    None => None,
                },
            ) == Ok::<Seq<ToolCallOutV>, Seq<char>>(crate::dto::calls_view(v@)),
            Err(e) => request_tools_v(
                tool_ctx@,
                match tools {
                    Some(t) => Some(t@),
                    None => None,
                },
            ) == Err::<Seq<ToolCallOutV>, Seq<char>>(e@),
        },
{
    let mut out: Vec<ToolCallOut> = Vec::new();
    if !present(tools) {
        assert(crate::dto::calls_view(out@) =~= Seq::<ToolCallOutV>::empty());
        return Ok(out);
    }
    let arr = match tools {
        Some(t) => match t.as_array() {
            Some(a) => a,
            None => return Err(owned("invalid tools")),
        },
        None => return Err(owned("invalid tools")),
    };
    let ghost av = elems_view(arr@);
    assert(crate::dto::calls_view(out@) =~= Seq::<ToolCallOutV>::empty());
    let mut i: usize = 0;
    while i < arr.len()
        invariant
            i <= arr@.len(),
            av == elems_view(arr@),
            tools matches Some(t) && t@ == JsonV::Array(av),
            tools_fold(tool_ctx@, av, i as int) == Ok::<Seq<ToolCallOutV>, Seq<char>>(
                crate::dto::calls_view(out@),
            ),
        decreases arr@.len() - i,
    {
        assert(av[i as int] == arr@[i as int]@);
        if !push_tool_outs(&mut out, &arr[i], tool_ctx) {
            proof {
                lemma_tools_fold_err(tool_ctx@, av, i as int + 1, av.len() as int);
                assert(tools matches Some(t) && t@ == JsonV::Array(av));
                assert(present_v(Some(JsonV::Array(av))));
            }
            return Err(owned("invalid tools"));
        }
        i = i + 1;
    }
    assert(tools matches Some(t) && t@ == JsonV::Array(av));
    assert(av.len() == arr@.len());
    Ok(out)
}

/// Once the fold has failed, it stays failed with the same message.
proof fn lemma_tools_fold_err(c: CtxV, tools: Seq<JsonV>, k: int, n: int)
    requires
        k <= n,
        tools_fold(c, tools, k) == Err::<Seq<ToolCallOutV>, Seq<char>>("invalid tools"@),
    ensures
        tools_fold(c, tools, n) == Err::<Seq<ToolCallOutV>, Seq<char>>("invalid tools"@),
    decreases n - k,
{
    if k < n {
        lemma_tools_fold_err(c, tools, k + 1, n);
    }
}

} // verus!

verus! {

// ---------------------------------------------------------------------------
// Input items as Chat messages
// ---------------------------------------------------------------------------
/// What converting the input carries from item to item: the messages so
/// far, reasoning waiting for the next assistant turn, and media held back
/// from tool results.
pub struct ConvState {
    pub messages: Seq<MessageV>,
    pub pending: Option<Seq<char>>,
    pub media: Seq<JsonV>,
}

/// Held media goes out as one user message.
pub open spec fn flushed(s: ConvState) -> ConvState {
    ConvState {
        messages: if s.media.len() > 0 {
            s.messages.push(crate::convert_req::media_message_v(s.media))
        } else {
            s.messages
        },
        pending: s.pending,
        media: Seq::empty(),
    }
}

/// Pending reasoning goes back to the last assistant message.
pub open spec fn reasoning_released(s: ConvState) -> ConvState {
    ConvState { messages: reasoning_attached(s.messages, s.pending), pending: None, media: s.media }
}

/// A tool call joins the last assistant turn: the item's own reasoning
/// joins the pending reasoning, held media goes out first, and the pending
/// reasoning then goes to that turn.
pub open spec fn with_tool_call(s: ConvState, tool: ToolCallOutV, own: Option<Seq<char>>) -> ConvState {
    let s1 = flushed(ConvState { pending: crate::bridge::pending_after(s.pending, own), ..s });
    reasoning_released(ConvState { messages: tool_call_appended(s1.messages, tool), ..s1 })
}

pub open spec fn plain_message(role: Seq<char>, content: JsonV, tool_call_id: Option<Seq<char>>) -> MessageV {
    MessageV { role, content: Some(content), tool_calls: Seq::empty(), tool_call_id, reasoning_content: None }
}

pub open spec fn str_field_or_empty(item: JsonV, k: Seq<char>) -> Seq<char> {
    match vget_str(item, k) {
        Some(s) => s,
        None => Seq::empty(),
    }
}

/// A `function_call` item as a Chat tool call: the chat name of its name
/// and namespace, its arguments canonical (`{}` when blank).
pub open spec fn function_call_tool_v(item: JsonV, c: CtxV) -> ToolCallOutV {
    let name = trim(str_field_or_empty(item, "name"@));
    let ns = trim(str_field_or_empty(item, "namespace"@));
    let args = crate::convert_resp::canonical_args(
        crate::dto::args_string(
            match vget(item, "arguments"@) {
                Some(a) => a,
                None => JsonV::Null,
            },
        ),
    );
    ToolCallOutV {
        id: call_id_v(item),
        call_type: "function"@,
        function: Some(
            FunctionOutV {
                description: Seq::empty(),
                name: chat_name_of(c, name, if ns.len() > 0 { Some(ns) } else { None }),
                parameters: None,
                strict: None,
                arguments: if trim(args).len() == 0 { "{}"@ } else { args },
            },
        ),
    }
}

/// A call of the given function name with the given arguments text.
pub open spec fn call_out_v(id: Seq<char>, name: Seq<char>, arguments: Seq<char>) -> ToolCallOutV {
    ToolCallOutV {
        id,
        call_type: "function"@,
        function: Some(
            FunctionOutV { description: Seq::empty(), name, parameters: None, strict: None, arguments },
        ),
    }
}

/// A `tool_search_call` item as a call of the proxy function.
pub open spec fn tool_search_call_tool_v(item: JsonV) -> ToolCallOutV {
    call_out_v(
        call_id_v(item),
        "tool_search"@,
        match vget(item, "arguments"@) {
            Some(a) => json_string(a),
            None => "{}"@,
        },
    )
}

/// A `custom_tool_call` item as a function call with `{"input": <input>}`.
pub open spec fn custom_call_tool_v(item: JsonV) -> ToolCallOutV {
    call_out_v(
        call_id_v(item),
        trim(str_field_or_empty(item, "name"@)),
        json_string(
            JsonV::Object(
                seq![("input"@, match vget(item, "input"@) {
                    Some(i) => i,
                    None => JsonV::Str(Seq::empty()),
                })],
            ),
        ),
    )
}

/// `{"type": "text", "text": <label>}` for the media of a tool call.
pub open spec fn label_part_v(call_id: Seq<char>) -> JsonV {
    JsonV::Object(seq![("type"@, JsonV::Str("text"@)), ("text"@, JsonV::Str(crate::tool_media::label(call_id)))])
}

/// A tool result's text and media (nothing for a missing or null result).
pub open spec fn tool_output_v(output: Option<JsonV>) -> (Seq<char>, Seq<JsonV>) {
    match output {
        Some(JsonV::Null) => (Seq::empty(), Seq::empty()),
        Some(o) => crate::tool_media::split_v(o),
        None => (Seq::empty(), Seq::empty()),
    }
}

/// Held media after a tool result's media joins it, after a label naming
/// the call when the call id is not blank.
pub open spec fn held_media(held: Seq<JsonV>, call_id: Seq<char>, media: Seq<JsonV>) -> Seq<JsonV> {
    if media.len() > 0 {
        held + (if trim(call_id).len() > 0 {
            seq![label_part_v(call_id)]
        } else {
            Seq::empty()
        }) + media
    } else {
        held
    }
}

/// A tool result as a tool message: its text, with its media held back.
pub open spec fn tool_result_v(s: ConvState, output: Option<JsonV>, call_id: Seq<char>) -> ConvState {
    let t = tool_output_v(output);
    ConvState {
        messages: s.messages.push(plain_message("tool"@, JsonV::Str(t.0), Some(call_id))),
        pending: s.pending,
        media: held_media(s.media, call_id, t.1),
    }
}

pub open spec fn is_bare_part_type(t: Seq<char>) -> bool {
    t == "input_text"@ || t == "output_text"@ || t == "input_image"@ || t == "input_file"@ || t
        == "input_audio"@ || t == "input_video"@
}

/// One input item applied to the conversion state (an `Err` refuses the
/// request).
#[verifier::opaque]
pub open spec fn input_item_step(s: ConvState, item: JsonV, c: CtxV) -> Result<ConvState, Seq<char>> {
    let ty = trim(str_field_or_empty(item, "type"@));
    if ty == "reasoning"@ {
        Ok(ConvState { pending: crate::bridge::pending_after(s.pending, reasoning_item_v(item)), ..s })
    } else if ty == "function_call"@ {
        if trim(str_field_or_empty(item, "name"@)).len() == 0 {
            Err("function_call item is missing name"@)
        } else {
            Ok(with_tool_call(s, function_call_tool_v(item, c), embedded_reasoning_v(item)))
        }
    } else if ty == "web_search_call"@ {
        let query = JsonV::Object(seq![("query"@, JsonV::Str(str_field_or_empty(item, "query"@)))]);
        let s1 = reasoning_released(
            ConvState {
                messages: tool_call_appended(
                    flushed(s).messages,
                    call_out_v(call_id_v(item), "web_search"@, json_string(query)),
                ),
                ..flushed(s)
            },
        );
        let results = match vget(item, "results"@) {
            Some(r) => json_string(r),
            None => Seq::empty(),
        };
        Ok(
            ConvState {
                messages: s1.messages.push(plain_message("tool"@, JsonV::Str(results), Some(call_id_v(item)))),
                ..s1
            },
        )
    } else if ty == "custom_tool_call"@ {
        Ok(with_tool_call(s, custom_call_tool_v(item), embedded_reasoning_v(item)))
    } else if ty == "tool_search_call"@ {
        Ok(with_tool_call(s, tool_search_call_tool_v(item), embedded_reasoning_v(item)))
    } else if ty == "function_call_output"@ {
        Ok(tool_result_v(s, vget(item, "output"@), trim(str_field_or_empty(item, "call_id"@))))
    } else if ty == "custom_tool_call_output"@ || ty == "tool_search_output"@ {
        Ok(tool_result_v(s, Some(item), trim(str_field_or_empty(item, "call_id"@))))
    } else if is_bare_part_type(ty) {
        let s1 = flushed(reasoning_released(s));
        Ok(
            ConvState {
                messages: s1.messages.push(
                    plain_message(
                        crate::bridge::input_role(vget_str(item, "role"@)),
                        chat_content_of_parts(seq![item]),
                        None,
                    ),
                ),
                ..s1
            },
        )
    } else {
        match vget(item, "content"@) {
            None => Ok(s),
            Some(content) => {
                let role = crate::bridge::input_role(vget_str(item, "role"@));
                let body = input_content_v(Some(content));
                if role == "assistant"@ {
                    Ok(
                        ConvState {
                            messages: s.messages.push(
                                MessageV {
                                    role: "assistant"@,
                                    content: Some(body),
                                    tool_calls: Seq::empty(),
                                    tool_call_id: None,
                                    reasoning_content: if nonblank(s.pending) {
                                        s.pending
                                    } else {
                                        None
                                    },
                                },
                            ),
                            pending: None,
                            media: s.media,
                        },
                    )
                } else {
                    let s1 = flushed(reasoning_released(s));
                    Ok(ConvState { messages: s1.messages.push(plain_message(role, body, None)), ..s1 })
                }
            },
        }
    }
}

} // verus!

verus! {

pub open spec fn conv_view(messages: Seq<MessageOut>, pending: Option<String>, media: Seq<Json>) -> ConvState {
    ConvState { messages: messages_view(messages), pending: crate::bridge::opt_view(pending), media: elems_view(media) }
}

fn str_field_exec(item: &Json, k: &str) -> (r: String)
    ensures
        r@ == str_field_or_empty(item@, k@),
{
    match item.get_str(k) {
        Some(s) => s.clone(),
        None => String::new(),
    }
}

fn trimmed(s: &String) -> (r: String)
    ensures
        r@ == trim(s@),
{
    string_from(trim_chars(chars_of(s.as_str()).as_slice()).as_slice())
}

fn call_out(id: String, name: String, arguments: String) -> (r: ToolCallOut)
    ensures
        r@ == call_out_v(id@, name@, arguments@),
{
    ToolCallOut {
        id,
        call_type: owned("function"),
        function: Some(FunctionOut { description: String::new(), name, parameters: None, strict: None, arguments }),
    }
}

/// A `function_call` item as a Chat tool call (see `function_call_tool_v`);
/// refused without a name.
pub fn function_call_item_to_chat_tool_call(item: &Json, tool_ctx: &ToolContext) -> (r: Result<ToolCallOut, String>)
    ensures
        match r {
            Ok(t) => trim(str_field_or_empty(item@, "name"@)).len() > 0 && t@ == function_call_tool_v(item@, tool_ctx@),
            Err(e) => trim(str_field_or_empty(item@, "name"@)).len() == 0 && e@ == "function_call item is missing name"@,
        },
{
    let name = trimmed(&str_field_exec(item, "name"));
    if name.as_str().is_empty() {
        return Err(owned("function_call item is missing name"));
    }
    let ns = trimmed(&str_field_exec(item, "namespace"));
    let chat_name = if ns.as_str().is_empty() {
        tool_ctx.chat_name_for(name.as_str(), None)
    } else {
        tool_ctx.chat_name_for(name.as_str(), Some(ns.as_str()))
    };
    let raw = match item.get("arguments") {
        Some(a) => crate::dto::arguments_string(a),
        None => String::new(),
    };
    let args = crate::convert_resp::canonicalize_json_string_if_parseable(raw.as_str());
    let arguments = if trim_chars(chars_of(args.as_str()).as_slice()).len() == 0 {
        owned("{}")
    } else {
        args
    };
    let t = ToolCallOut {
        id: call_id(item),
        call_type: owned("function"),
        function: Some(
            FunctionOut { description: String::new(), name: chat_name, parameters: None, strict: None, arguments },
        ),
    };
    Ok(t)
}

/// A `tool_search_call` item as a call of the proxy function.
pub fn tool_search_call_item_to_chat_tool_call(item: &Json) -> (r: ToolCallOut)
    ensures
        r@ == tool_search_call_tool_v(item@),
{
    let arguments = match item.get("arguments") {
        Some(a) => to_json_string(a),
        None => owned("{}"),
    };
    call_out(call_id(item), owned("tool_search"), arguments)
}

/// A `custom_tool_call` item as a function call with `{"input": ...}`.
pub fn custom_tool_call_item_to_chat_tool_call(item: &Json) -> (r: ToolCallOut)
    ensures
        r@ == custom_call_tool_v(item@),
{
    let name = trimmed(&str_field_exec(item, "name"));
    let input = match item.get("input") {
        Some(i) => deep_clone(i),
        None => Json::Str(String::new()),
    };
    let mut f: Vec<(String, Json)> = Vec::new();
    crate::dto::push_field(&mut f, "input", input);
    proof {
        lemma_object_view(f);
    }
    assert(fields_view(f@) =~= seq![("input"@, match vget(item@, "input"@) {
        Some(i) => i,
        None => JsonV::Str(Seq::empty()),
    })]);
    let wrapped = Json::Object(f);
    call_out(call_id(item), name, to_json_string(&wrapped))
}

fn label_part(call_id: &String) -> (r: Json)
    ensures
        r@ == label_part_v(call_id@),
{
    let mut f: Vec<(String, Json)> = Vec::new();
    crate::dto::push_field(&mut f, "type", crate::json::jstr("text"));
    crate::dto::push_field(&mut f, "text", Json::Str(crate::tool_media::media_label(call_id.as_str())));
    proof {
        lemma_object_view(f);
    }
    assert(fields_view(f@) =~= seq![
        ("type"@, JsonV::Str("text"@)),
        ("text"@, JsonV::Str(crate::tool_media::label(call_id@))),
    ]);
    Json::Object(f)
}

/// A tool result's text as Chat content; its media is held back in
/// `pending_media` (see `tool_result_v`).
pub fn tool_output_to_chat_content(output: Option<&Json>, call_id: &String, pending_media: &mut Vec<Json>) -> (r: Json)
    ensures
        ({
            let t = tool_output_v(
                match output {
                    Some(o) => Some(o@),
                    None => None,
                },
            );
            &&& r@ == JsonV::Str(t.0)
            &&& elems_view(final(pending_media)@) == held_media(elems_view(old(pending_media)@), call_id@, t.1)
        }),
{
    let ghost m0 = elems_view(pending_media@);
    let o = match output {
        Some(o) => o,
        None => {
            return Json::Str(String::new());
        },
    };
    if let Json::Null = o {
        return Json::Str(String::new());
    }
    let split = crate::tool_media::split_tool_output(o);
    let ghost sv = crate::tool_media::split_v(o@);
    if split.media.len() > 0 {
        if trim_chars(chars_of(call_id.as_str()).as_slice()).len() > 0 {
            pending_media.push(label_part(call_id));
            assert(elems_view(pending_media@) =~= m0 + seq![label_part_v(call_id@)]);
        } else {
            assert(elems_view(pending_media@) =~= m0 + Seq::<JsonV>::empty());
        }
        let ghost m1 = elems_view(pending_media@);
        let mut i: usize = 0;
        while i < split.media.len()
            invariant
                i <= split.media@.len(),
                elems_view(pending_media@) == m1 + elems_view(split.media@).take(i as int),
            decreases split.media@.len() - i,
        {
            let ghost before = elems_view(pending_media@);
            let c = deep_clone(&split.media[i]);
            pending_media.push(c);
            assert(elems_view(pending_media@) =~= before.push(c@));
            assert(elems_view(split.media@).take(i + 1) =~= elems_view(split.media@).take(i as int).push(
                split.media@[i as int]@,
            ));
            assert(elems_view(pending_media@) =~= m1 + elems_view(split.media@).take(i + 1));
            i = i + 1;
        }
        assert(elems_view(split.media@).take(split.media@.len() as int) =~= elems_view(split.media@));
    }
    Json::Str(split.text)
}

} // verus!

verus! {

fn release_reasoning(messages: &mut Vec<MessageOut>, pending: &mut Option<String>)
    ensures
        messages_view(final(messages)@) == reasoning_attached(messages_view(old(messages)@), crate::bridge::opt_view(*old(pending))),
        *final(pending) is None,
{
    let p = pending.take();
    attach_reasoning_to_last_assistant(messages, p);
}

fn flush(messages: &mut Vec<MessageOut>, pending_media: &mut Vec<Json>)
    ensures
        messages_view(final(messages)@) == flushed(conv_view(old(messages)@, None, old(pending_media)@)).messages,
        final(pending_media)@.len() == 0,
{
    flush_pending_media(messages, pending_media);
}

fn push_tool_turn(
    messages: &mut Vec<MessageOut>,
    pending: &mut Option<String>,
    pending_media: &mut Vec<Json>,
    tool: ToolCallOut,
    own: Option<String>,
)
    ensures
        conv_view(final(messages)@, *final(pending), final(pending_media)@) == with_tool_call(
            conv_view(old(messages)@, *old(pending), old(pending_media)@),
            tool@,
            crate::bridge::opt_view(own),
        ),
{
    crate::bridge::append_pending_reasoning(pending, own);
    flush(messages, pending_media);
    append_tool_call_to_last_assistant(messages, tool);
    release_reasoning(messages, pending);
    assert(elems_view(pending_media@) =~= Seq::<JsonV>::empty());
}

fn push_message(messages: &mut Vec<MessageOut>, m: MessageOut)
    ensures
        messages_view(final(messages)@) == messages_view(old(messages)@).push(m@),
{
    messages.push(m);
    assert(messages_view(messages@) =~= messages_view(old(messages)@).push(m@));
}

fn plain(role: String, content: Json, tool_call_id: Option<String>) -> (r: MessageOut)
    ensures
        r@ == plain_message(role@, content@, crate::bridge::opt_view(tool_call_id)),
{
    let m = MessageOut { role, content: Some(content), tool_calls: Vec::new(), tool_call_id, reasoning_content: None };
    assert(m@.tool_calls =~= Seq::<ToolCallOutV>::empty());
    m
}

fn type_is(t: &String, lit: &str) -> (r: bool)
    ensures
        r == (t@ == lit@),
{
    is(chars_of(t.as_str()).as_slice(), lit)
}

/// One input item as Chat messages (see `input_item_step`); the pending
/// reasoning and held media carry over to the next item.
pub fn input_item_to_chat_messages(
    item: &Json,
    messages: &mut Vec<MessageOut>,
    pending_reasoning: &mut Option<String>,
    pending_media: &mut Vec<Json>,
    tool_ctx: &ToolContext,
) -> (r: Result<(), String>)
    ensures
        match input_item_step(conv_view(old(messages)@, *old(pending_reasoning), old(pending_media)@), item@, tool_ctx@) {
            Ok(s) => r is Ok && conv_view(final(messages)@, *final(pending_reasoning), final(pending_media)@) == s,
            Err(e) => r matches Err(x) && x@ == e,
        },
{
    proof {
        reveal(input_item_step);
    }
    let ghost s0 = conv_view(messages@, *pending_reasoning, pending_media@);
    let ty = trimmed(&str_field_exec(item, "type"));
    if type_is(&ty, "reasoning") {
        crate::bridge::append_pending_reasoning(pending_reasoning, reasoning_item_text(item));
        return Ok(());
    }
    if type_is(&ty, "function_call") {
        let tool = match function_call_item_to_chat_tool_call(item, tool_ctx) {
            Ok(t) => t,
            Err(e) => return Err(e),
        };
        push_tool_turn(messages, pending_reasoning, pending_media, tool, item_embedded_reasoning(item));
        return Ok(());
    }
    if type_is(&ty, "web_search_call") {
        let id = call_id(item);
        let mut q: Vec<(String, Json)> = Vec::new();
        crate::dto::push_field(&mut q, "query", Json::Str(str_field_exec(item, "query")));
        proof {
            lemma_object_view(q);
        }
        assert(fields_view(q@) =~= seq![("query"@, JsonV::Str(str_field_or_empty(item@, "query"@)))]);
        let arguments = to_json_string(&Json::Object(q));
        flush(messages, pending_media);
        append_tool_call_to_last_assistant(messages, call_out(id, owned("web_search"), arguments));
        release_reasoning(messages, pending_reasoning);
        let results = match item.get("results") {
            Some(r) => to_json_string(r),
            None => String::new(),
        };
        push_message(messages, plain(owned("tool"), Json::Str(results), Some(call_id(item))));
        assert(elems_view(pending_media@) =~= Seq::<JsonV>::empty());
        return Ok(());
    }
    if type_is(&ty, "custom_tool_call") {
        let tool = custom_tool_call_item_to_chat_tool_call(item);
        push_tool_turn(messages, pending_reasoning, pending_media, tool, item_embedded_reasoning(item));
        return Ok(());
    }
    if type_is(&ty, "tool_search_call") {
        let tool = tool_search_call_item_to_chat_tool_call(item);
        push_tool_turn(messages, pending_reasoning, pending_media, tool, item_embedded_reasoning(item));
        return Ok(());
    }
    let is_output = type_is(&ty, "function_call_output");
    let is_other_output = type_is(&ty, "custom_tool_call_output") || type_is(&ty, "tool_search_output");
    if is_output || is_other_output {
        let cid = trimmed(&str_field_exec(item, "call_id"));
        let content = if is_output {
            tool_output_to_chat_content(item.get("output"), &cid, pending_media)
        } else {
            tool_output_to_chat_content(Some(item), &cid, pending_media)
        };
        push_message(messages, plain(owned("tool"), content, Some(cid)));
        return Ok(());
    }
    let bare = type_is(&ty, "input_text") || type_is(&ty, "output_text") || type_is(&ty, "input_image")
        || type_is(&ty, "input_file") || type_is(&ty, "input_audio") || type_is(&ty, "input_video");
    if bare {
        release_reasoning(messages, pending_reasoning);
        flush(messages, pending_media);
        let role = crate::bridge::normalize_input_role(
            match item.get_str("role") {
                Some(r) => Some(r.as_str()),
                None => None,
            },
        );
        let one: [Json; 1] = [deep_clone(item)];
        assert(one@.map_values(|p: Json| p@) =~= seq![item@]);
        let content = match content_parts_to_chat_content(one.as_slice()) {
            Ok(c) => c,
            Err(e) => return Err(e),
        };
        push_message(messages, plain(role, content, None));
        assert(elems_view(pending_media@) =~= Seq::<JsonV>::empty());
        return Ok(());
    }
    let content = match item.get("content") {
        Some(c) => c,
        None => return Ok(()),
    };
    let role = crate::bridge::normalize_input_role(
        match item.get_str("role") {
            Some(r) => Some(r.as_str()),
            None => None,
        },
    );
    let body = match input_content_to_chat_content(Some(content)) {
        Ok(c) => c,
        Err(e) => return Err(e),
    };
    if type_is(&role, "assistant") {
        let p = pending_reasoning.take();
        let kept = match p {
            Some(t) => if nonblank_exec(&t) {
                Some(t)
            } else {
                None
            },
            None => None,
        };
        let m = MessageOut {
            role: owned("assistant"),
            content: Some(body),
            tool_calls: Vec::new(),
            tool_call_id: None,
            reasoning_content: kept,
        };
        assert(m@.tool_calls =~= Seq::<ToolCallOutV>::empty());
        push_message(messages, m);
    } else {
        release_reasoning(messages, pending_reasoning);
        flush(messages, pending_media);
        push_message(messages, plain(role, body, None));
        assert(elems_view(pending_media@) =~= Seq::<JsonV>::empty());
    }
    Ok(())
}

} // verus!

verus! {

/// The first `k` input items applied in turn; the first refusal stops.
pub open spec fn input_fold(s: ConvState, items: Seq<JsonV>, c: CtxV, k: int) -> Result<ConvState, Seq<char>>
    decreases k,
{
    if k <= 0 {
        Ok(s)
    } else {
        match input_fold(s, items, c, k - 1) {
            Err(e) => Err(e),
            Ok(p) => input_item_step(p, items[k - 1], c),
        }
    }
}

/// The system message of non-blank `instructions`.
pub open spec fn system_messages(req: JsonV) -> Seq<MessageV> {
    match vget(req, "instructions"@) {
        Some(i) => if present_v(Some(i)) && trim(instructions_v(i)).len() > 0 {
            seq![plain_message("system"@, JsonV::Str(instructions_v(i)), None)]
        } else {
            Seq::empty()
        },
        None => Seq::empty(),
    }
}

/// After the last item: held media goes out, pending reasoning goes back
/// to the last assistant turn, and assistant tool-call turns without
/// reasoning get the placeholder.
pub open spec fn finish_messages(s: ConvState) -> Seq<MessageV> {
    reasoning_attached(flushed(s).messages, s.pending).map_values(|m: MessageV| backfilled_v(m))
}

pub open spec fn type_name_v(v: JsonV) -> Seq<char> {
    match v {
        JsonV::Null => "null"@,
        JsonV::Bool(_) => "boolean"@,
        JsonV::Number(_) => "number"@,
        JsonV::Str(_) => "string"@,
        JsonV::Array(_) => "array"@,
        JsonV::Object(_) => "object"@,
    }
}

/// The Chat messages of a Responses request: the instructions as a system
/// message, then the input (a string is one user message; an array is
/// applied item by item; one object is one item); any other input is
/// refused.
pub open spec fn request_messages_v(req: JsonV, c: CtxV) -> Result<Seq<MessageV>, Seq<char>> {
    let sys = system_messages(req);
    let input = vget(req, "input"@);
    if !present_v(input) {
        Ok(sys.map_values(|m: MessageV| backfilled_v(m)))
    } else {
        let s0 = ConvState { messages: sys, pending: None, media: Seq::empty() };
        let r = match input.unwrap() {
            JsonV::Str(s) => Ok(ConvState { messages: sys.push(plain_message("user"@, JsonV::Str(s), None)), ..s0 }),
            JsonV::Array(items) => input_fold(s0, items, c, items.len() as int),
            JsonV::Object(_) => input_item_step(s0, input.unwrap(), c),
            other => Err("unsupported responses input type \""@ + type_name_v(other) + "\""@),
        };
        match r {
            Ok(s) => Ok(finish_messages(s)),
            Err(e) => Err(e),
        }
    }
}

proof fn lemma_input_fold_err(s: ConvState, items: Seq<JsonV>, c: CtxV, k: int, n: int, e: Seq<char>)
    requires
        k <= n,
        input_fold(s, items, c, k) == Err::<ConvState, Seq<char>>(e),
    ensures
        input_fold(s, items, c, n) == Err::<ConvState, Seq<char>>(e),
    decreases n - k,
{
    if k < n {
        lemma_input_fold_err(s, items, c, k + 1, n, e);
    }
}

/// The Chat messages of a Responses request (see `request_messages_v`).
pub fn request_messages_to_chat(req: &Json, tool_ctx: &ToolContext) -> (r: Result<Vec<MessageOut>, String>)
    ensures
        match request_messages_v(req@, tool_ctx@) {
            Ok(ms) => r matches Ok(v) && messages_view(v@) == ms,
            Err(e) => r matches Err(x) && x@ == e,
        },
{
    let mut messages: Vec<MessageOut> = Vec::new();
    match req.get("instructions") {
        Some(i) => if present(Some(i)) {
            let text = instructions_text(i);
            if trim_chars(chars_of(text.as_str()).as_slice()).len() > 0 {
                push_message(&mut messages, plain(owned("system"), Json::Str(text), None));
            }
        },
        None => {},
    }
    assert(messages_view(messages@) =~= system_messages(req@));
    let input = req.get("input");
    if !present(input) {
        backfill_tool_call_reasoning_placeholders(&mut messages);
        return Ok(messages);
    }
    let input = match input {
        Some(x) => x,
        None => return Ok(messages),
    };
    let mut pending_reasoning: Option<String> = None;
    let mut pending_media: Vec<Json> = Vec::new();
    let ghost sys = messages_view(messages@);
    let ghost s0 = ConvState { messages: sys, pending: None, media: Seq::empty() };
    assert(conv_view(messages@, pending_reasoning, pending_media@) == s0) by {
        assert(elems_view(pending_media@) =~= Seq::<JsonV>::empty());
    }
    match input {
        Json::Str(s) => {
            push_message(&mut messages, plain(owned("user"), Json::Str(s.clone()), None));
        },
        Json::Array(items) => {
            proof {
                crate::json::lemma_array_view(*items);
            }
            let ghost iv = elems_view(items@);
            let mut i: usize = 0;
            while i < items.len()
                invariant
                    i <= items@.len(),
                    iv == elems_view(items@),
                    vget(req@, "input"@) == Some(JsonV::Array(iv)),
                    s0 == (ConvState { messages: system_messages(req@), pending: None, media: Seq::empty() }),
                    input_fold(s0, iv, tool_ctx@, i as int) == Ok::<ConvState, Seq<char>>(
                        conv_view(messages@, pending_reasoning, pending_media@),
                    ),
                decreases items@.len() - i,
            {
                assert(iv[i as int] == items@[i as int]@);
                match input_item_to_chat_messages(&items[i], &mut messages, &mut pending_reasoning, &mut pending_media, tool_ctx) {
                    Ok(()) => {},
                    Err(e) => {
                        proof {
                            lemma_input_fold_err(s0, iv, tool_ctx@, i + 1, iv.len() as int, e@);
                        }
                        return Err(e);
                    },
                }
                i = i + 1;
            }
        },
        Json::Object(_) => {
            assert(input@ is Object);
            assert(conv_view(messages@, pending_reasoning, pending_media@) == s0);
            match input_item_to_chat_messages(input, &mut messages, &mut pending_reasoning, &mut pending_media, tool_ctx) {
                Ok(()) => {},
                Err(e) => return Err(e),
            }
        },
        _ => {
            let mut v = chars_of("unsupported responses input type \"");
            push_str(&mut v, crate::dto::json_type_name(input));
            push_str(&mut v, "\"");
            return Err(string_from(v.as_slice()));
        },
    }
    let ghost s = conv_view(messages@, pending_reasoning, pending_media@);
    flush(&mut messages, &mut pending_media);
    release_reasoning(&mut messages, &mut pending_reasoning);
    backfill_tool_call_reasoning_placeholders(&mut messages);
    assert(messages_view(messages@) == finish_messages(s));
    Ok(messages)
}

} // verus!

verus! {

// ---------------------------------------------------------------------------
// Objects from optional fields
// ---------------------------------------------------------------------------
/// The fields that are present, in order.
pub open spec fn present_fields(ps: Seq<(Seq<char>, Option<JsonV>)>) -> Seq<(Seq<char>, JsonV)>
    decreases ps.len(),
{
    if ps.len() == 0 {
        Seq::empty()
    } else {
        let p = present_fields(ps.drop_last());
        match ps.last().1 {
            Some(v) => p.push((ps.last().0, v)),
            None => p,
        }
    }
}

pub open spec fn pairs_view(v: Seq<(String, Option<Json>)>) -> Seq<(Seq<char>, Option<JsonV>)> {
    v.map_values(|p: (String, Option<Json>)| (p.0@, opt_jv(p.1)))
}

fn object_of_pairs(ps: Vec<(String, Option<Json>)>) -> (r: Json)
    ensures
        r@ == JsonV::Object(present_fields(pairs_view(ps@))),
{
    let ghost pv = pairs_view(ps@);
    let mut f: Vec<(String, Json)> = Vec::new();
    let mut ps = ps;
    let ghost n = pv.len();
    let mut i: usize = 0;
    assert(fields_view(f@) =~= present_fields(pv.take(0)));
    assert(pairs_view(ps@) =~= pv.skip(0));
    let len0 = ps.len();
    assert(n == len0);
    while ps.len() > 0
        invariant
            n == pv.len(),
            i <= n,
            pairs_view(ps@) == pv.skip(i as int),
            ps@.len() + i == n,
            n <= usize::MAX,
            fields_view(f@) == present_fields(pv.take(i as int)),
        decreases ps@.len(),
    {
        let ghost before = ps@;
        let (k, v) = ps.remove(0);
        proof {
            assert(pv.take(i + 1).drop_last() =~= pv.take(i as int));
            assert(pv[i as int] == pairs_view(before)[0]);
            assert(pv.take(i + 1).last() == pv[i as int]);
            assert(pairs_view(ps@) =~= pv.skip(i + 1)) by {
                assert forall|j: int| 0 <= j < ps@.len() implies pairs_view(ps@)[j] == pv.skip(i + 1)[j] by {
                    assert(ps@[j] == before[j + 1]);
                    assert(pairs_view(before)[j + 1] == pv.skip(i as int)[j + 1]);
                }
            }
        }
        match v {
            Some(x) => crate::dto::push_field(&mut f, k.as_str(), x),
            None => {},
        }
        i = i + 1;
    }
    assert(pv.take(n as int) =~= pv);
    proof {
        lemma_object_view(f);
    }
    Json::Object(f)
}

} // verus!

verus! {

pub open spec fn nonempty_str(s: Seq<char>) -> Option<JsonV> {
    if s.len() > 0 {
        Some(JsonV::Str(s))
    } else {
        None
    }
}

pub open spec fn opt_str_v(s: Option<Seq<char>>) -> Option<JsonV> {
    match s {
        Some(x) => Some(JsonV::Str(x)),
        None => None,
    }
}

/// A Chat function as JSON: empty description and arguments left out.
pub open spec fn function_json_v(f: FunctionOutV) -> JsonV {
    JsonV::Object(
        present_fields(
            seq![
                ("description"@, nonempty_str(f.description)),
                ("name"@, Some(JsonV::Str(f.name))),
                ("parameters"@, f.parameters),
                ("strict"@, f.strict),
                ("arguments"@, nonempty_str(f.arguments)),
            ],
        ),
    )
}

pub open spec fn opt_function_json_v(f: Option<FunctionOutV>) -> Option<JsonV> {
    match f {
        Some(x) => Some(function_json_v(x)),
        None => None,
    }
}

/// A Chat tool (call) as JSON: an empty id left out.
pub open spec fn tool_json_v(t: ToolCallOutV) -> JsonV {
    JsonV::Object(
        present_fields(
            seq![
                ("id"@, nonempty_str(t.id)),
                ("type"@, Some(JsonV::Str(t.call_type))),
                ("function"@, opt_function_json_v(t.function)),
            ],
        ),
    )
}

pub open spec fn tools_json_v(ts: Seq<ToolCallOutV>) -> JsonV {
    JsonV::Array(ts.map_values(|t: ToolCallOutV| tool_json_v(t)))
}

/// A Chat message as JSON: absent fields and an empty tool-call list left
/// out.
pub open spec fn message_json_v(m: MessageV) -> JsonV {
    JsonV::Object(
        present_fields(
            seq![
                ("role"@, Some(JsonV::Str(m.role))),
                ("content"@, m.content),
                ("tool_calls"@, calls_json_v(m.tool_calls)),
                ("tool_call_id"@, opt_str_v(m.tool_call_id)),
                ("reasoning_content"@, opt_str_v(m.reasoning_content)),
            ],
        ),
    )
}

/// A non-empty tool-call list as JSON.
pub open spec fn calls_json_v(ts: Seq<ToolCallOutV>) -> Option<JsonV> {
    if ts.len() > 0 {
        Some(tools_json_v(ts))
    } else {
        None
    }
}

fn pair(k: &str, v: Option<Json>) -> (r: (String, Option<Json>))
    ensures
        r.0@ == k@,
        opt_jv(r.1) == opt_jv(v),
{
    (owned(k), v)
}

fn nonempty_json(s: &String) -> (r: Option<Json>)
    ensures
        opt_jv(r) == nonempty_str(s@),
{
    if s.as_str().is_empty() {
        None
    } else {
        Some(Json::Str(s.clone()))
    }
}

fn opt_str_json(s: &Option<String>) -> (r: Option<Json>)
    ensures
        opt_jv(r) == opt_str_v(crate::dto::opt_str(*s)),
{
    match s {
        Some(x) => Some(Json::Str(x.clone())),
        None => None,
    }
}

fn opt_clone_json(o: &Option<Json>) -> (r: Option<Json>)
    ensures
        opt_jv(r) == opt_jv(*o),
{
    match o {
        Some(j) => Some(deep_clone(j)),
        None => None,
    }
}

pub fn function_json(f: &FunctionOut) -> (r: Json)
    ensures
        r@ == function_json_v(f@),
{
    let mut ps: Vec<(String, Option<Json>)> = Vec::new();
    ps.push(pair("description", nonempty_json(&f.description)));
    ps.push(pair("name", Some(Json::Str(f.name.clone()))));
    ps.push(pair("parameters", opt_clone_json(&f.parameters)));
    ps.push(pair("strict", opt_clone_json(&f.strict)));
    ps.push(pair("arguments", nonempty_json(&f.arguments)));
    assert(pairs_view(ps@) =~= seq![
        ("description"@, nonempty_str(f@.description)),
        ("name"@, Some(JsonV::Str(f@.name))),
        ("parameters"@, f@.parameters),
        ("strict"@, f@.strict),
        ("arguments"@, nonempty_str(f@.arguments)),
    ]);
    object_of_pairs(ps)
}

pub fn tool_json(t: &ToolCallOut) -> (r: Json)
    ensures
        r@ == tool_json_v(t@),
{
    let mut ps: Vec<(String, Option<Json>)> = Vec::new();
    ps.push(pair("id", nonempty_json(&t.id)));
    ps.push(pair("type", Some(Json::Str(t.call_type.clone()))));
    let func: Option<Json> = match &t.function {
        Some(f) => Some(function_json(f)),
        None => None,
    };
    ps.push(pair("function", func));
    assert(pairs_view(ps@) =~= seq![
        ("id"@, nonempty_str(t@.id)),
        ("type"@, Some(JsonV::Str(t@.call_type))),
        ("function"@, opt_function_json_v(t@.function)),
    ]);
    object_of_pairs(ps)
}

pub fn tools_json(ts: &Vec<ToolCallOut>) -> (r: Json)
    ensures
        r@ == tools_json_v(crate::dto::calls_view(ts@)),
{
    let mut out: Vec<Json> = Vec::new();
    let mut i: usize = 0;
    while i < ts.len()
        invariant
            i <= ts@.len(),
            out@.len() == i,
            forall|k: int| 0 <= k < i ==> (#[trigger] out@[k])@ == tool_json_v(ts@[k]@),
        decreases ts@.len() - i,
    {
        out.push(tool_json(&ts[i]));
        i = i + 1;
    }
    proof {
        crate::json::lemma_array_view(out);
    }
    assert(elems_view(out@) =~= crate::dto::calls_view(ts@).map_values(|t: ToolCallOutV| tool_json_v(t)));
    Json::Array(out)
}

pub fn message_json(m: &MessageOut) -> (r: Json)
    ensures
        r@ == message_json_v(m@),
{
    let mut ps: Vec<(String, Option<Json>)> = Vec::new();
    ps.push(pair("role", Some(Json::Str(m.role.clone()))));
    ps.push(pair("content", opt_clone_json(&m.content)));
    let tc: Option<Json> = if m.tool_calls.len() > 0 {
        Some(tools_json(&m.tool_calls))
    } else {
        None
    };
    ps.push(pair("tool_calls", tc));
    ps.push(pair("tool_call_id", opt_str_json(&m.tool_call_id)));
    ps.push(pair("reasoning_content", opt_str_json(&m.reasoning_content)));
    assert(m@.tool_calls.len() == m.tool_calls@.len());
    assert(pairs_view(ps@) =~= seq![
        ("role"@, Some(JsonV::Str(m@.role))),
        ("content"@, m@.content),
        ("tool_calls"@, calls_json_v(m@.tool_calls)),
        ("tool_call_id"@, opt_str_v(m@.tool_call_id)),
        ("reasoning_content"@, opt_str_v(m@.reasoning_content)),
    ]);
    object_of_pairs(ps)
}

} // verus!

verus! {

// ---------------------------------------------------------------------------
// Model families
// ---------------------------------------------------------------------------
/// A model name without its provider path (the part after the last `/`).
pub open spec fn bare_model(m: Seq<char>) -> Seq<char>
    decreases m.len(),
{
    if m.len() == 0 {
        m
    } else if m.last() == '/' {
        Seq::empty()
    } else {
        bare_model(m.drop_last()).push(m.last())
    }
}

/// OpenAI o-series models (`o1`, `o3-mini`, `o4`…): `o` then a digit,
/// ASCII case ignored.
pub open spec fn o_series(bare: Seq<char>) -> bool {
    let b = crate::text::ascii_lower_seq(bare);
    b.len() >= 2 && b[0] == 'o' && crate::text::is_digit(b[1])
}

/// Models that take `reasoning_effort`: the o-series and `gpt-5` models.
pub open spec fn supports_reasoning_effort_v(model: Seq<char>) -> bool {
    let b = bare_model(model);
    o_series(b) || crate::text::has_prefix(crate::text::ascii_lower_seq(b), "gpt-5"@)
}

/// An effort that switches reasoning off (`none`, `off`, `disabled`, ASCII
/// case ignored).
pub open spec fn effort_off(e: Seq<char>) -> bool {
    let l = crate::text::ascii_lower_seq(e);
    l == "none"@ || l == "off"@ || l == "disabled"@
}

fn bare_model_exec(m: &[char]) -> (r: Vec<char>)
    ensures
        r@ == bare_model(m@),
{
    let mut start: usize = 0;
    let mut i: usize = 0;
    assert(bare_model(m@.take(0)) =~= m@.take(0).skip(0));
    while i < m.len()
        invariant
            i <= m@.len(),
            start <= i,
            bare_model(m@.take(i as int)) == m@.take(i as int).skip(start as int),
        decreases m@.len() - i,
    {
        proof {
            assert(m@.take(i + 1).drop_last() =~= m@.take(i as int));
            assert(m@.take(i + 1).last() == m@[i as int]);
        }
        if m[i] == '/' {
            start = i + 1;
            assert(m@.take(i + 1).skip(start as int) =~= Seq::<char>::empty());
        } else {
            assert(m@.take(i + 1).skip(start as int) =~= m@.take(i as int).skip(start as int).push(m@[i as int]));
        }
        i = i + 1;
    }
    assert(m@.take(m@.len() as int) =~= m@);
    slice_range_exec(m, start)
}

fn slice_range_exec(m: &[char], start: usize) -> (r: Vec<char>)
    requires
        start <= m@.len(),
    ensures
        r@ == m@.skip(start as int),
{
    let r = crate::text::slice_range(m, start, m.len());
    assert(r@ =~= m@.skip(start as int));
    r
}

pub fn is_openai_o_series(bare: &str) -> (r: bool)
    ensures
        r == o_series(bare@),
{
    let b = crate::text::ascii_lowercase(chars_of(bare).as_slice());
    b.len() >= 2 && b[0] == 'o' && '0' <= b[1] && b[1] <= '9'
}

pub fn supports_reasoning_effort(model: &str) -> (r: bool)
    ensures
        r == supports_reasoning_effort_v(model@),
{
    let b = bare_model_exec(chars_of(model).as_slice());
    let bs = string_from(b.as_slice());
    let l = crate::text::ascii_lowercase(b.as_slice());
    is_openai_o_series(bs.as_str()) || crate::text::starts_with(l.as_slice(), chars_of("gpt-5").as_slice())
}

pub fn effort_is_off(e: &str) -> (r: bool)
    ensures
        r == effort_off(e@),
{
    let l = crate::text::ascii_lowercase(chars_of(e).as_slice());
    is(l.as_slice(), "none") || is(l.as_slice(), "off") || is(l.as_slice(), "disabled")
}

} // verus!

verus! {

// ---------------------------------------------------------------------------
// A Responses request as a Chat request
// ---------------------------------------------------------------------------
/// A field that is present and not null.
pub open spec fn raw_present_v(v: Option<JsonV>) -> Option<JsonV> {
    if present_v(v) {
        v
    } else {
        None
    }
}

pub open spec fn u64_nonzero(v: Option<JsonV>) -> Option<u64> {
    match v {
        Some(JsonV::Number(crate::json::NumV::PosInt(u))) => if u != 0 {
            Some(u)
        } else {
            None
        },
        _ => None,
    }
}

/// The output cap: `max_output_tokens`, else `max_completion_tokens`,
/// else `max_tokens` (zero counts as unset); o-series models take it as
/// `max_completion_tokens`, others as `max_tokens`.
pub open spec fn max_tokens_v(req: JsonV, model: Seq<char>) -> (Option<u64>, Option<u64>) {
    let n = match u64_nonzero(vget(req, "max_output_tokens"@)) {
        Some(x) => Some(x),
        None => u64_nonzero(vget(req, "max_completion_tokens"@)),
    };
    let n2 = match n {
        Some(x) => Some(x),
        None => u64_nonzero(vget(req, "max_tokens"@)),
    };
    if o_series(bare_model(model)) {
        (n2, None)
    } else {
        (None, n2)
    }
}

pub open spec fn number_v(v: Option<JsonV>) -> Option<JsonV> {
    match v {
        Some(JsonV::Number(n)) => Some(JsonV::Number(n)),
        _ => None,
    }
}

pub open spec fn bool_v(v: Option<JsonV>) -> Option<JsonV> {
    match v {
        Some(JsonV::Bool(b)) => Some(JsonV::Bool(b)),
        _ => None,
    }
}

pub open spec fn nonempty_str_field(req: JsonV, k: Seq<char>) -> Option<JsonV> {
    match vget_str(req, k) {
        Some(s) => nonempty_str(s),
        None => None,
    }
}

pub open spec fn u64_json(n: Option<u64>) -> Option<JsonV> {
    match n {
        Some(x) => Some(JsonV::Number(crate::json::NumV::PosInt(x))),
        None => None,
    }
}

/// `reasoning.effort` for a model that takes it: an off value becomes
/// `none`.
pub open spec fn effort_v(req: JsonV, gating: Seq<char>) -> Option<JsonV> {
    match vget(req, "reasoning"@) {
        Some(r) => match vget_str(r, "effort"@) {
            Some(e) => if e.len() > 0 && supports_reasoning_effort_v(gating) {
                Some(JsonV::Str(if effort_off(e) { "none"@ } else { e }))
            } else {
                None
            },
            None => None,
        },
        None => None,
    }
}

/// The fields of the Chat request, in order, each when present.
pub open spec fn chat_pairs(
    req: JsonV,
    gating: Seq<char>,
    model: Seq<char>,
    ms: Seq<MessageV>,
    ts: Seq<ToolCallOutV>,
    tc: Option<JsonV>,
    rf: Option<JsonV>,
) -> Seq<(Seq<char>, Option<JsonV>)> {
    let mt = max_tokens_v(req, gating);
    let has_tools = ts.len() > 0;
    seq![
        ("model"@, Some(JsonV::Str(model))),
        ("messages"@, if ms.len() > 0 {
            Some(JsonV::Array(ms.map_values(|m: MessageV| message_json_v(m))))
        } else {
            None
        }),
        ("stream"@, bool_v(vget(req, "stream"@))),
        ("stream_options"@, raw_present_v(vget(req, "stream_options"@))),
        ("max_completion_tokens"@, u64_json(mt.0)),
        ("max_tokens"@, u64_json(mt.1)),
        ("temperature"@, number_v(vget(req, "temperature"@))),
        ("top_p"@, number_v(vget(req, "top_p"@))),
        ("response_format"@, rf),
        ("tools"@, if has_tools { Some(tools_json_v(ts)) } else { None }),
        ("tool_choice"@, tc),
        ("parallel_tool_calls"@, if has_tools { bool_v(vget(req, "parallel_tool_calls"@)) } else { None }),
        ("user"@, raw_present_v(vget(req, "user"@))),
        ("store"@, raw_present_v(vget(req, "store"@))),
        ("metadata"@, raw_present_v(vget(req, "metadata"@))),
        ("reasoning_effort"@, effort_v(req, gating)),
        ("frequency_penalty"@, raw_present_v(vget(req, "frequency_penalty"@))),
        ("logit_bias"@, raw_present_v(vget(req, "logit_bias"@))),
        ("logprobs"@, raw_present_v(vget(req, "logprobs"@))),
        ("top_logprobs"@, raw_present_v(vget(req, "top_logprobs"@))),
        ("n"@, raw_present_v(vget(req, "n"@))),
        ("presence_penalty"@, raw_present_v(vget(req, "presence_penalty"@))),
        ("seed"@, raw_present_v(vget(req, "seed"@))),
        ("stop"@, raw_present_v(vget(req, "stop"@))),
        ("service_tier"@, nonempty_str_field(req, "service_tier"@)),
        ("safety_identifier"@, raw_present_v(vget(req, "safety_identifier"@))),
        ("prompt_cache_retention"@, raw_present_v(vget(req, "prompt_cache_retention"@))),
        ("prompt_cache_key"@, nonempty_str_field(req, "prompt_cache_key"@)),
        ("enable_thinking"@, raw_present_v(vget(req, "enable_thinking"@))),
        ("thinking_budget"@, raw_present_v(vget(req, "thinking_budget"@))),
    ]
}

/// The Chat request of a Responses request, for a route whose upstream
/// model is `gating` (which decides the output-cap field and whether the
/// reasoning effort is sent): refused without a model, with stateful
/// fields, or where the input, tools, tool choice or text format is
/// refused; tool choice and parallel tool calls go only with tools; a
/// top-level `response_format` stands in when `text` gives none.
pub open spec fn request_to_chat_v(req: JsonV, gating: Seq<char>) -> Result<JsonV, Seq<char>> {
    let model = trim(str_field_or_empty(req, "model"@));
    if model.len() == 0 {
        Err("model is required"@)
    } else if stateful_fields(req).len() > 0 {
        Err(stateful_error(stateful_fields(req)))
    } else {
        let c = crate::tool_ctx::request_ctx(req);
        match request_messages_v(req, c) {
            Err(e) => Err(e),
            Ok(ms) => match request_tools_v(c, vget(req, "tools"@)) {
                Err(e) => Err(e),
                Ok(ts) => match (if ts.len() > 0 {
                    tool_choice_v(c, vget(req, "tool_choice"@))
                } else {
                    Ok(None)
                }) {
                    Err(e) => Err(e),
                    Ok(tc) => match response_format_v(vget(req, "text"@)) {
                        Err(e) => Err(e),
                        Ok(rf0) => Ok(
                            JsonV::Object(
                                present_fields(
                                    chat_pairs(
                                        req,
                                        gating,
                                        model,
                                        ms,
                                        ts,
                                        tc,
                                        match rf0 {
                                            Some(x) => Some(x),
                                            None => raw_present_v(vget(req, "response_format"@)),
                                        },
                                    ),
                                ),
                            ),
                        ),
                    },
                },
            },
        }
    }
}

} // verus!

verus! {

fn opt_ref_view(v: Option<&Json>) -> (r: Option<Json>)
    ensures
        opt_jv(r) == match v {
            Some(x) => Some(x@),
            None => None,
        },
{
    match v {
        Some(x) => Some(deep_clone(x)),
        None => None,
    }
}

fn raw_present_exec(req: &Json, k: &str) -> (r: Option<Json>)
    ensures
        opt_jv(r) == raw_present_v(vget(req@, k@)),
{
    let v = req.get(k);
    if present(v) {
        opt_ref_view(v)
    } else {
        None
    }
}

fn u64_nonzero_exec(req: &Json, k: &str) -> (r: Option<u64>)
    ensures
        r == u64_nonzero(vget(req@, k@)),
{
    match req.get(k) {
        Some(Json::Number(crate::json::JsonNumber::PosInt(u))) => if *u != 0 {
            Some(*u)
        } else {
            None
        },
        _ => None,
    }
}

/// The output-cap fields (see `max_tokens_v`).
pub fn max_tokens_fields(req: &Json, model: &str) -> (r: (Option<u64>, Option<u64>))
    ensures
        r == max_tokens_v(req@, model@),
{
    let n = match u64_nonzero_exec(req, "max_output_tokens") {
        Some(x) => Some(x),
        None => u64_nonzero_exec(req, "max_completion_tokens"),
    };
    let n2 = match n {
        Some(x) => Some(x),
        None => u64_nonzero_exec(req, "max_tokens"),
    };
    let bare = string_from(bare_model_exec(chars_of(model).as_slice()).as_slice());
    if is_openai_o_series(bare.as_str()) {
        (n2, None)
    } else {
        (None, n2)
    }
}

fn number_exec(req: &Json, k: &str) -> (r: Option<Json>)
    ensures
        opt_jv(r) == number_v(vget(req@, k@)),
{
    match req.get(k) {
        Some(Json::Number(n)) => Some(Json::Number(crate::json::clone_number(n))),
        _ => None,
    }
}

fn bool_exec(req: &Json, k: &str) -> (r: Option<Json>)
    ensures
        opt_jv(r) == bool_v(vget(req@, k@)),
{
    match req.get(k) {
        Some(Json::Bool(b)) => Some(Json::Bool(*b)),
        _ => None,
    }
}

fn nonempty_str_field_exec(req: &Json, k: &str) -> (r: Option<Json>)
    ensures
        opt_jv(r) == nonempty_str_field(req@, k@),
{
    match req.get_str(k) {
        Some(s) => nonempty_json(s),
        None => None,
    }
}

fn u64_json_exec(n: Option<u64>) -> (r: Option<Json>)
    ensures
        opt_jv(r) == u64_json(n),
{
    match n {
        Some(x) => Some(Json::Number(crate::json::JsonNumber::PosInt(x))),
        None => None,
    }
}

fn effort_exec(req: &Json, gating: &str) -> (r: Option<Json>)
    ensures
        opt_jv(r) == effort_v(req@, gating@),
{
    match req.get("reasoning") {
        Some(rv) => match rv.get_str("effort") {
            Some(e) => if !e.as_str().is_empty() && supports_reasoning_effort(gating) {
                if effort_is_off(e.as_str()) {
                    Some(crate::json::jstr("none"))
                } else {
                    Some(Json::Str(e.clone()))
                }
            } else {
                None
            },
            None => None,
        },
        None => None,
    }
}

fn messages_json(ms: &Vec<MessageOut>) -> (r: Option<Json>)
    ensures
        opt_jv(r) == if messages_view(ms@).len() > 0 {
            Some(JsonV::Array(messages_view(ms@).map_values(|m: MessageV| message_json_v(m))))
        } else {
            None
        },
{
    if ms.len() == 0 {
        return None;
    }
    let mut out: Vec<Json> = Vec::new();
    let mut i: usize = 0;
    while i < ms.len()
        invariant
            i <= ms@.len(),
            out@.len() == i,
            forall|k: int| 0 <= k < i ==> (#[trigger] out@[k])@ == message_json_v(ms@[k]@),
        decreases ms@.len() - i,
    {
        out.push(message_json(&ms[i]));
        i = i + 1;
    }
    proof {
        crate::json::lemma_array_view(out);
    }
    assert(elems_view(out@) =~= messages_view(ms@).map_values(|m: MessageV| message_json_v(m)));
    Some(Json::Array(out))
}

fn push_pair(ps: &mut Vec<(String, Option<Json>)>, k: &str, v: Option<Json>)
    ensures
        pairs_view(final(ps)@) == pairs_view(old(ps)@).push((k@, opt_jv(v))),
{
    ps.push((owned(k), v));
    assert(pairs_view(ps@) =~= pairs_view(old(ps)@).push((k@, opt_jv(v))));
}

} // verus!

verus! {

fn chat_request_json(
    req: &Json,
    gating_model: &str,
    model: String,
    ms: &Vec<MessageOut>,
    ts: &Vec<ToolCallOut>,
    tc: Option<Json>,
    rf: Option<Json>,
) -> (r: Json)
    ensures
        r@ == JsonV::Object(
            present_fields(
                chat_pairs(req@, gating_model@, model@, messages_view(ms@), crate::dto::calls_view(ts@), opt_jv(tc), opt_jv(rf)),
            ),
        ),
{
    let has_tools = ts.len() > 0;
    let (mc, mt) = max_tokens_fields(req, gating_model);
    let mut ps: Vec<(String, Option<Json>)> = Vec::new();
    push_pair(&mut ps, "model", Some(Json::Str(model)));
    push_pair(&mut ps, "messages", messages_json(ms));
    push_pair(&mut ps, "stream", bool_exec(req, "stream"));
    push_pair(&mut ps, "stream_options", raw_present_exec(req, "stream_options"));
    push_pair(&mut ps, "max_completion_tokens", u64_json_exec(mc));
    push_pair(&mut ps, "max_tokens", u64_json_exec(mt));
    push_pair(&mut ps, "temperature", number_exec(req, "temperature"));
    push_pair(&mut ps, "top_p", number_exec(req, "top_p"));
    push_pair(&mut ps, "response_format", rf);
    push_pair(&mut ps, "tools", if has_tools { Some(tools_json(ts)) } else { None });
    push_pair(&mut ps, "tool_choice", tc);
    push_pair(&mut ps, "parallel_tool_calls", if has_tools { bool_exec(req, "parallel_tool_calls") } else { None });
    push_pair(&mut ps, "user", raw_present_exec(req, "user"));
    push_pair(&mut ps, "store", raw_present_exec(req, "store"));
    push_pair(&mut ps, "metadata", raw_present_exec(req, "metadata"));
    push_pair(&mut ps, "reasoning_effort", effort_exec(req, gating_model));
    push_pair(&mut ps, "frequency_penalty", raw_present_exec(req, "frequency_penalty"));
    push_pair(&mut ps, "logit_bias", raw_present_exec(req, "logit_bias"));
    push_pair(&mut ps, "logprobs", raw_present_exec(req, "logprobs"));
    push_pair(&mut ps, "top_logprobs", raw_present_exec(req, "top_logprobs"));
    push_pair(&mut ps, "n", raw_present_exec(req, "n"));
    push_pair(&mut ps, "presence_penalty", raw_present_exec(req, "presence_penalty"));
    push_pair(&mut ps, "seed", raw_present_exec(req, "seed"));
    push_pair(&mut ps, "stop", raw_present_exec(req, "stop"));
    push_pair(&mut ps, "service_tier", nonempty_str_field_exec(req, "service_tier"));
    push_pair(&mut ps, "safety_identifier", raw_present_exec(req, "safety_identifier"));
    push_pair(&mut ps, "prompt_cache_retention", raw_present_exec(req, "prompt_cache_retention"));
    push_pair(&mut ps, "prompt_cache_key", nonempty_str_field_exec(req, "prompt_cache_key"));
    push_pair(&mut ps, "enable_thinking", raw_present_exec(req, "enable_thinking"));
    push_pair(&mut ps, "thinking_budget", raw_present_exec(req, "thinking_budget"));
    assert(crate::dto::calls_view(ts@).len() == ts@.len());
    assert(pairs_view(ps@) =~= chat_pairs(
        req@,
        gating_model@,
        model@,
        messages_view(ms@),
        crate::dto::calls_view(ts@),
        opt_jv(tc),
        opt_jv(rf),
    ));
    object_of_pairs(ps)
}

/// A Responses request as a Chat request (see `request_to_chat_v`); the
/// context of the request's tools is built from the request itself.
pub fn responses_request_to_chat(req: &Json, gating_model: &str) -> (r: Result<Json, String>)
    ensures
        match request_to_chat_v(req@, gating_model@) {
            Ok(v) => r matches Ok(j) && j@ == v,
            Err(e) => r matches Err(m) && m@ == e,
        },
{
    let model = trimmed(&str_field_exec(req, "model"));
    if model.as_str().is_empty() {
        return Err(owned("model is required"));
    }
    match validate_unsupported_fields(req) {
        Ok(()) => {},
        Err(e) => return Err(e),
    }
    let tool_ctx = ToolContext::from_request(req);
    let ms = match request_messages_to_chat(req, &tool_ctx) {
        Ok(m) => m,
        Err(e) => return Err(e),
    };
    let ts = match request_tools_to_chat(req.get("tools"), &tool_ctx) {
        Ok(t) => t,
        Err(e) => return Err(e),
    };
    let tc = if ts.len() > 0 {
        match request_tool_choice_to_chat(req.get("tool_choice"), &tool_ctx) {
            Ok(t) => t,
            Err(e) => return Err(e),
        }
    } else {
        None
    };
    let rf0 = match request_text_to_chat_response_format(req.get("text")) {
        Ok(x) => x,
        Err(e) => return Err(e),
    };
    let rf = match rf0 {
        Some(x) => Some(x),
        None => raw_present_exec(req, "response_format"),
    };
    assert(crate::dto::calls_view(ts@).len() == ts@.len());
    Ok(chat_request_json(req, gating_model, model, &ms, &ts, tc, rf))
}

} // verus!

verus! {

proof fn lemma_present_keys(ps: Seq<(Seq<char>, Option<JsonV>)>, k: Seq<char>)
    requires
        forall|j: int| 0 <= j < ps.len() ==> ps[j].0 != k,
    ensures
        forall|j: int| 0 <= j < present_fields(ps).len() ==> present_fields(ps)[j].0 != k,
    decreases ps.len(),
{
    if ps.len() > 0 {
        let p = ps.drop_last();
        assert forall|j: int| 0 <= j < p.len() implies p[j].0 != k by {
            assert(p[j] == ps[j]);
        }
        lemma_present_keys(p, k);
        assert(ps.last() == ps[ps.len() - 1]);
        let pf = present_fields(p);
        match ps.last().1 {
            Some(w) => {
                assert forall|j: int| 0 <= j < pf.push((ps.last().0, w)).len() implies pf.push((ps.last().0, w))[j].0 != k by {
                    if j < pf.len() {
                        assert(pf.push((ps.last().0, w))[j] == pf[j]);
                    }
                }
            },
            None => {},
        }
    }
}

/// In an object made of optional fields, a field whose name no other entry
/// carries reads back its value.
pub proof fn lemma_present_field(ps: Seq<(Seq<char>, Option<JsonV>)>, i: int, v: JsonV)
    requires
        0 <= i < ps.len(),
        ps[i].1 == Some(v),
        forall|j: int| 0 <= j < ps.len() && j != i ==> ps[j].0 != ps[i].0,
    ensures
        crate::json::field(present_fields(ps), ps[i].0) == Some(v),
    decreases ps.len(),
{
    let k = ps[i].0;
    let p = ps.drop_last();
    if i == ps.len() - 1 {
        lemma_present_keys(p, k);
        let pf = present_fields(p);
        crate::json::lemma_field_at(pf.push((k, v)), k, pf.len() as int);
    } else {
        lemma_present_field(p, i, v);
        let pf = present_fields(p);
        crate::json::lemma_key_index_bound(pf, k);
        let q = crate::json::key_index(pf, k);
        match ps.last().1 {
            Some(w) => {
                crate::json::lemma_field_at(pf.push((ps.last().0, w)), k, q);
            },
            None => {},
        }
    }
}

/// A field absent from every entry is absent from the object.
pub proof fn lemma_present_no_field(ps: Seq<(Seq<char>, Option<JsonV>)>, i: int)
    requires
        0 <= i < ps.len(),
        ps[i].1 is None,
        forall|j: int| 0 <= j < ps.len() && j != i ==> ps[j].0 != ps[i].0,
    ensures
        crate::json::field(present_fields(ps), ps[i].0) is None,
    decreases ps.len(),
{
    let k = ps[i].0;
    let p = ps.drop_last();
    if i == ps.len() - 1 {
        lemma_present_keys(p, k);
        crate::json::lemma_field_absent(present_fields(p), k);
    } else {
        assert forall|j: int| 0 <= j < p.len() && j != i implies p[j].0 != p[i].0 by {
            assert(p[j] == ps[j]);
        }
        lemma_present_no_field(p, i);
        let pf = present_fields(p);
        crate::json::lemma_key_index_bound(pf, k);
        match ps.last().1 {
            Some(w) => {
                assert forall|j: int| 0 <= j < pf.push((ps.last().0, w)).len() implies pf.push((ps.last().0, w))[j].0 != k by {
                    if j < pf.len() {
                        crate::json::lemma_key_index_bound(pf, k);
                    }
                }
                crate::json::lemma_field_absent(pf.push((ps.last().0, w)), k);
            },
            None => {},
        }
    }
}

} // verus!

verus! {

/// The entry at `i` of the Chat request's fields is the only one with its
/// name.
proof fn lemma_chat_key_unique(
    req: JsonV,
    gating: Seq<char>,
    model: Seq<char>,
    ms: Seq<MessageV>,
    ts: Seq<ToolCallOutV>,
    tc: Option<JsonV>,
    rf: Option<JsonV>,
    i: int,
)
    requires
        0 <= i < 30,
    ensures
        chat_pairs(req, gating, model, ms, ts, tc, rf).len() == 30,
        forall|j: int|
            0 <= j < 30 && j != i ==> #[trigger] chat_pairs(req, gating, model, ms, ts, tc, rf)[j].0
                != chat_pairs(req, gating, model, ms, ts, tc, rf)[i].0,
{
    reveal_strlit("model");
    reveal_strlit("messages");
    reveal_strlit("stream");
    reveal_strlit("stream_options");
    reveal_strlit("max_completion_tokens");
    reveal_strlit("max_tokens");
    reveal_strlit("temperature");
    reveal_strlit("top_p");
    reveal_strlit("response_format");
    reveal_strlit("tools");
    reveal_strlit("tool_choice");
    reveal_strlit("parallel_tool_calls");
    reveal_strlit("user");
    reveal_strlit("store");
    reveal_strlit("metadata");
    reveal_strlit("reasoning_effort");
    reveal_strlit("frequency_penalty");
    reveal_strlit("logit_bias");
    reveal_strlit("logprobs");
    reveal_strlit("top_logprobs");
    reveal_strlit("n");
    reveal_strlit("presence_penalty");
    reveal_strlit("seed");
    reveal_strlit("stop");
    reveal_strlit("service_tier");
    reveal_strlit("safety_identifier");
    reveal_strlit("prompt_cache_retention");
    reveal_strlit("prompt_cache_key");
    reveal_strlit("enable_thinking");
    reveal_strlit("thinking_budget");
    let ps = chat_pairs(req, gating, model, ms, ts, tc, rf);
    let k = ps[i].0;
    assert forall|j: int| 0 <= j < 30 && j != i implies #[trigger] ps[j].0 != k by {
        assert(j == 0 || j == 1 || j == 2 || j == 3 || j == 4 || j == 5 || j == 6 || j == 7 || j == 8 || j == 9 || j == 10 || j == 11 || j == 12 || j == 13 || j == 14 || j == 15 || j == 16 || j == 17 || j == 18 || j == 19 || j == 20 || j == 21 || j == 22 || j == 23 || j == 24 || j == 25 || j == 26 || j == 27 || j == 28 || j == 29);
        assert(i == 0 || i == 1 || i == 2 || i == 3 || i == 4 || i == 5 || i == 6 || i == 7 || i == 8 || i == 9 || i == 10 || i == 11 || i == 12 || i == 13 || i == 14 || i == 15 || i == 16 || i == 17 || i == 18 || i == 19 || i == 20 || i == 21 || i == 22 || i == 23 || i == 24 || i == 25 || i == 26 || i == 27 || i == 28 || i == 29);
        if ps[j].0.len() == k.len() {
            assert(ps[j].0[0] != k[0] || ps[j].0[1] != k[1] || ps[j].0[2] != k[2]);
        }
    }
}

} // verus!

verus! {

proof fn lemma_chat_field(
    req: JsonV,
    gating: Seq<char>,
    model: Seq<char>,
    ms: Seq<MessageV>,
    ts: Seq<ToolCallOutV>,
    tc: Option<JsonV>,
    rf: Option<JsonV>,
    i: int,
)
    requires
        0 <= i < 30,
    ensures
        crate::json::field(present_fields(chat_pairs(req, gating, model, ms, ts, tc, rf)), chat_pairs(req, gating, model, ms, ts, tc, rf)[i].0)
            == chat_pairs(req, gating, model, ms, ts, tc, rf)[i].1,
{
    let ps = chat_pairs(req, gating, model, ms, ts, tc, rf);
    lemma_chat_key_unique(req, gating, model, ms, ts, tc, rf, i);
    match ps[i].1 {
        Some(v) => lemma_present_field(ps, i, v),
        None => lemma_present_no_field(ps, i),
    }
}

/// A value copied from a request field when it is present and not null.
pub open spec fn copied(v: Option<JsonV>) -> Option<JsonV> {
    match v {
        Some(JsonV::Null) => None,
        other => other,
    }
}

/// What a converted Chat request carries from the Responses request: the
/// trimmed model; `temperature` and `top_p` each from the request's own
/// field when it is a number (and absent otherwise); `stream` when it is a
/// boolean; and the pass-through fields (`stream_options`, `user`,
/// `store`, `metadata`, `frequency_penalty`, `logit_bias`, `logprobs`,
/// `top_logprobs`, `n`, `presence_penalty`, `seed`, `stop`,
/// `safety_identifier`, `prompt_cache_retention`, `enable_thinking`,
/// `thinking_budget`) each under its own name, as given.
pub proof fn law_chat_request_keeps_fields(req: JsonV, gating: Seq<char>, k: Seq<char>)
    requires
        request_to_chat_v(req, gating) is Ok,
    ensures
        ({
            let out = request_to_chat_v(req, gating)->Ok_0;
            &&& vget(out, "model"@) == Some(JsonV::Str(trim(str_field_or_empty(req, "model"@))))
            &&& vget(out, "temperature"@) == match vget(req, "temperature"@) {
                Some(JsonV::Number(t)) => Some(JsonV::Number(t)),
                _ => None,
            }
            &&& vget(out, "top_p"@) == match vget(req, "top_p"@) {
                Some(JsonV::Number(t)) => Some(JsonV::Number(t)),
                _ => None,
            }
            &&& vget(out, "stream"@) == match vget(req, "stream"@) {
                Some(JsonV::Bool(b)) => Some(JsonV::Bool(b)),
                _ => None,
            }
            &&& (k == "stream_options"@ || k == "user"@ || k == "store"@ || k == "metadata"@ || k
                == "frequency_penalty"@ || k == "logit_bias"@ || k == "logprobs"@ || k == "top_logprobs"@ || k
                == "n"@ || k == "presence_penalty"@ || k == "seed"@ || k == "stop"@ || k == "safety_identifier"@
                || k == "prompt_cache_retention"@ || k == "enable_thinking"@ || k == "thinking_budget"@)
                ==> vget(out, k) == copied(vget(req, k))
        }),
{
    let model = trim(str_field_or_empty(req, "model"@));
    let c = crate::tool_ctx::request_ctx(req);
    let ms = request_messages_v(req, c)->Ok_0;
    let ts = request_tools_v(c, vget(req, "tools"@))->Ok_0;
    let tc = (if ts.len() > 0 {
        tool_choice_v(c, vget(req, "tool_choice"@))
    } else {
        Ok(None)
    })->Ok_0;
    let rf0 = response_format_v(vget(req, "text"@))->Ok_0;
    let rf = match rf0 {
        Some(x) => Some(x),
        None => raw_present_v(vget(req, "response_format"@)),
    };
    let ps = chat_pairs(req, gating, model, ms, ts, tc, rf);
    assert(request_to_chat_v(req, gating)->Ok_0 == JsonV::Object(present_fields(ps)));
    lemma_chat_field(req, gating, model, ms, ts, tc, rf, 0);
    lemma_chat_field(req, gating, model, ms, ts, tc, rf, 2);
    lemma_chat_field(req, gating, model, ms, ts, tc, rf, 6);
    lemma_chat_field(req, gating, model, ms, ts, tc, rf, 7);
    let idx: int = if k == "stream_options"@ {
        3
    } else if k == "user"@ {
        12
    } else if k == "store"@ {
        13
    } else if k == "metadata"@ {
        14
    } else if k == "frequency_penalty"@ {
        16
    } else if k == "logit_bias"@ {
        17
    } else if k == "logprobs"@ {
        18
    } else if k == "top_logprobs"@ {
        19
    } else if k == "n"@ {
        20
    } else if k == "presence_penalty"@ {
        21
    } else if k == "seed"@ {
        22
    } else if k == "stop"@ {
        23
    } else if k == "safety_identifier"@ {
        25
    } else if k == "prompt_cache_retention"@ {
        26
    } else if k == "enable_thinking"@ {
        28
    } else {
        29
    };
    lemma_chat_field(req, gating, model, ms, ts, tc, rf, idx);
}

} // verus!

verus! {

/// The output cap of a request: `max_output_tokens`, else
/// `max_completion_tokens`, else `max_tokens`, zero counting as unset.
pub open spec fn output_cap(req: JsonV) -> Option<u64> {
    match u64_nonzero(vget(req, "max_output_tokens"@)) {
        Some(x) => Some(x),
        None => match u64_nonzero(vget(req, "max_completion_tokens"@)) {
            Some(x) => Some(x),
            None => u64_nonzero(vget(req, "max_tokens"@)),
        },
    }
}

/// The converted request sends the output cap as `max_completion_tokens`
/// to o-series models and as `max_tokens` to others, never both; a request
/// without tools (absent or null) carries no `tools`, `tool_choice` or
/// `parallel_tool_calls`.
pub proof fn law_chat_request_caps_and_tools(req: JsonV, gating: Seq<char>)
    requires
        request_to_chat_v(req, gating) is Ok,
    ensures
        ({
            let out = request_to_chat_v(req, gating)->Ok_0;
            let cap = match output_cap(req) {
                Some(x) => Some(JsonV::Number(crate::json::NumV::PosInt(x))),
                None => None,
            };
            &&& o_series(bare_model(gating)) ==> vget(out, "max_completion_tokens"@) == cap && vget(
                out,
                "max_tokens"@,
            ) is None
            &&& !o_series(bare_model(gating)) ==> vget(out, "max_tokens"@) == cap && vget(
                out,
                "max_completion_tokens"@,
            ) is None
            &&& !present_v(vget(req, "tools"@)) ==> vget(out, "tools"@) is None && vget(out, "tool_choice"@) is None
                && vget(out, "parallel_tool_calls"@) is None
        }),
{
    let model = trim(str_field_or_empty(req, "model"@));
    let c = crate::tool_ctx::request_ctx(req);
    let ms = request_messages_v(req, c)->Ok_0;
    let ts = request_tools_v(c, vget(req, "tools"@))->Ok_0;
    let tc = (if ts.len() > 0 {
        tool_choice_v(c, vget(req, "tool_choice"@))
    } else {
        Ok(None)
    })->Ok_0;
    let rf0 = response_format_v(vget(req, "text"@))->Ok_0;
    let rf = match rf0 {
        Some(x) => Some(x),
        None => raw_present_v(vget(req, "response_format"@)),
    };
    let ps = chat_pairs(req, gating, model, ms, ts, tc, rf);
    assert(request_to_chat_v(req, gating)->Ok_0 == JsonV::Object(present_fields(ps)));
    lemma_chat_field(req, gating, model, ms, ts, tc, rf, 4);
    lemma_chat_field(req, gating, model, ms, ts, tc, rf, 5);
    lemma_chat_field(req, gating, model, ms, ts, tc, rf, 9);
    lemma_chat_field(req, gating, model, ms, ts, tc, rf, 10);
    lemma_chat_field(req, gating, model, ms, ts, tc, rf, 11);
    if !present_v(vget(req, "tools"@)) {
        assert(ts.len() == 0);
    }
}

} // verus!
