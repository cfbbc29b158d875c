//! Reading a Chat Completions message for the Responses output: its text,
//! the refusals of its parts, and its reasoning text.
use vstd::prelude::*;

use crate::json::{elems_view, vget, vget_arr, vget_str, Json, JsonV};
use crate::text::{chars_of, is, join, join_exec, push_all, string_from, trim, trim_chars};
use crate::dto::{ContentPartV, OutputItemV, ResponsesOutputOut, SummaryPartV};
use crate::json::NumV;
use crate::bridge::finish_status;
use crate::tool_ctx::{CtxV, ToolContext, ToolKind};

verus! {

/// The `type` of a content part, when it is a string.
pub open spec fn part_type(p: JsonV) -> Option<Seq<char>> {
    vget_str(p, "type"@)
}

/// The text a part adds to the message text: the `text` string of a
/// `text` or `output_text` part.
pub open spec fn part_text(p: JsonV) -> Seq<char> {
    if (part_type(p) == Some("text"@) || part_type(p) == Some("output_text"@)) && vget_str(
        p,
        "text"@,
    ) is Some {
        vget_str(p, "text"@).unwrap()
    } else {
        Seq::empty()
    }
}

/// The texts of the parts, concatenated.
pub open spec fn message_parts_text(ps: Seq<JsonV>) -> Seq<char>
    decreases ps.len(),
{
    if ps.len() == 0 {
        Seq::empty()
    } else {
        message_parts_text(ps.drop_last()) + part_text(ps.last())
    }
}

/// The refusal a `refusal` part carries: its `refusal` field when present
/// (else its `text`), when that is a string that is not blank.
pub open spec fn part_refusal(p: JsonV) -> Option<Seq<char>> {
    if part_type(p) == Some("refusal"@) {
        let r = if vget(p, "refusal"@) is Some {
            vget_str(p, "refusal"@)
        } else {
            vget_str(p, "text"@)
        };
        match r {
            Some(s) => if trim(s).len() > 0 {
                Some(s)
            } else {
                None
            },
            None => None,
        }
    } else {
        None
    }
}

/// The refusals of the parts, in order.
pub open spec fn parts_refusals(ps: Seq<JsonV>) -> Seq<Seq<char>>
    decreases ps.len(),
{
    if ps.len() == 0 {
        Seq::empty()
    } else {
        let r = parts_refusals(ps.drop_last());
        match part_refusal(ps.last()) {
            Some(s) => r.push(s),
            None => r,
        }
    }
}

/// Text of a message's `content`: a string as it is, the part texts of an
/// array, nothing otherwise.
pub open spec fn message_content_text(m: JsonV) -> Seq<char> {
    match vget(m, "content"@) {
        Some(JsonV::Str(s)) => s,
        Some(JsonV::Array(ps)) => message_parts_text(ps),
        _ => Seq::empty(),
    }
}

/// The refusals of a message's content parts.
pub open spec fn message_refusals(m: JsonV) -> Seq<Seq<char>> {
    match vget(m, "content"@) {
        Some(JsonV::Array(ps)) => parts_refusals(ps),
        _ => Seq::empty(),
    }
}

/// The message text: the content text, or, when that is empty, the
/// message's own `refusal` string (empty when there is none).
pub open spec fn message_text(m: JsonV) -> Seq<char> {
    if message_content_text(m).len() > 0 {
        message_content_text(m)
    } else {
        match vget_str(m, "refusal"@) {
            Some(s) => s,
            None => Seq::empty(),
        }
    }
}

fn str_eq(s: &String, lit: &str) -> (r: bool)
    ensures
        r == (s@ == lit@),
{
    is(chars_of(s.as_str()).as_slice(), lit)
}

fn part_refusal_exec(p: &Json) -> (r: Option<String>)
    ensures
        r matches Some(s) ==> part_refusal(p@) == Some(s@),
        r is None ==> part_refusal(p@) is None,
{
    let is_refusal = match p.get_str("type") {
        Some(t) => str_eq(t, "refusal"),
        None => false,
    };
    if !is_refusal {
        return None;
    }
    let r = if p.get("refusal").is_some() {
        p.get_str("refusal")
    } else {
        p.get_str("text")
    };
    match r {
        Some(s) => if trim_chars(chars_of(s.as_str()).as_slice()).len() > 0 {
            Some(s.clone())
        } else {
            None
        },
        None => None,
    }
}

/// The message text and the refusals of its content parts.
pub fn extract_message_text_and_refusals(message: &Json) -> (r: (String, Vec<String>))
    ensures
        r.0@ == message_text(message@),
        r.1@.map_values(|s: String| s@) == message_refusals(message@),
{
    let mut refusals: Vec<String> = Vec::new();
    let from_content: Vec<char> = match message.get("content") {
        Some(Json::Str(s)) => chars_of(s.as_str()),
        Some(Json::Array(ps)) => {
            proof {
                crate::json::lemma_array_view(*ps);
            }
            let ghost pv = elems_view(ps@);
            let mut out: Vec<char> = Vec::new();
            let mut i: usize = 0;
            while i < ps.len()
                invariant
                    i <= ps@.len(),
                    pv == elems_view(ps@),
                    out@ == message_parts_text(pv.take(i as int)),
                    refusals@.map_values(|s: String| s@) == parts_refusals(pv.take(i as int)),
                decreases ps@.len() - i,
            {
                proof {
                    assert(pv.take(i + 1).drop_last() =~= pv.take(i as int));
                    assert(pv.take(i + 1).last() == ps@[i as int]@);
                }
                let p = &ps[i];
                let is_text = match p.get_str("type") {
                    Some(t) => str_eq(t, "text") || str_eq(t, "output_text"),
                    None => false,
                };
                let ghost out0 = out@;
                if is_text {
                    match p.get_str("text") {
                        Some(t) => push_all(&mut out, chars_of(t.as_str()).as_slice()),
                        None => {},
                    }
                }
                assert(out@ =~= out0 + part_text(p@));
                let ghost before = refusals@.map_values(|s: String| s@);
                match part_refusal_exec(p) {
                    Some(s) => {
                        refusals.push(s);
                        assert(refusals@.map_values(|s: String| s@) =~= before.push(
                            part_refusal(p@).unwrap(),
                        ));
                    },
                    None => {},
                }
                i = i + 1;
            }
            assert(pv.take(ps@.len() as int) =~= pv);
            out
        },
        _ => Vec::new(),
    };
    assert(from_content@ == message_content_text(message@));
    if from_content.len() == 0 {
        let fallback = match message.get_str("refusal") {
            Some(s) => s.clone(),
            None => String::new(),
        };
        (fallback, refusals)
    } else {
        (string_from(from_content.as_slice()), refusals)
    }
}

/// The `text` strings of reasoning detail parts, in order.
pub open spec fn reasoning_detail_texts(ps: Seq<JsonV>) -> Seq<Seq<char>>
    decreases ps.len(),
{
    if ps.len() == 0 {
        Seq::empty()
    } else {
        let r = reasoning_detail_texts(ps.drop_last());
        match vget_str(ps.last(), "text"@) {
            Some(t) => r.push(t),
            None => r,
        }
    }
}

/// Reasoning text of a message: the `reasoning_content` string, else the
/// `reasoning` string, else the `text` strings of the `reasoning_details`
/// parts joined by newlines; empty when there is none.
pub open spec fn message_reasoning(m: JsonV) -> Seq<char> {
    if vget_str(m, "reasoning_content"@) is Some {
        vget_str(m, "reasoning_content"@).unwrap()
    } else if vget_str(m, "reasoning"@) is Some {
        vget_str(m, "reasoning"@).unwrap()
    } else {
        match vget_arr(m, "reasoning_details"@) {
            Some(ps) => join(reasoning_detail_texts(ps), "\n"@),
            None => Seq::empty(),
        }
    }
}

pub fn extract_message_reasoning(message: &Json) -> (r: String)
    ensures
        r@ == message_reasoning(message@),
{
    if let Some(s) = message.get_str("reasoning_content") {
        return s.clone();
    }
    if let Some(s) = message.get_str("reasoning") {
        return s.clone();
    }
    match message.get("reasoning_details") {
        Some(Json::Array(ps)) => {
            proof {
                crate::json::lemma_array_view(*ps);
            }
            let ghost pv = elems_view(ps@);
            let mut texts: Vec<Vec<char>> = Vec::new();
            let mut i: usize = 0;
            while i < ps.len()
                invariant
                    i <= ps@.len(),
                    pv == elems_view(ps@),
                    texts@.map_values(|w: Vec<char>| w@) == reasoning_detail_texts(
                        pv.take(i as int),
                    ),
                decreases ps@.len() - i,
            {
                proof {
                    assert(pv.take(i + 1).drop_last() =~= pv.take(i as int));
                    assert(pv.take(i + 1).last() == ps@[i as int]@);
                }
                let ghost before = texts@.map_values(|w: Vec<char>| w@);
                match ps[i].get_str("text") {
                    Some(t) => {
                        texts.push(chars_of(t.as_str()));
                        assert(texts@.map_values(|w: Vec<char>| w@) =~= before.push(t@));
                    },
                    None => {},
                }
                i = i + 1;
            }
            assert(pv.take(ps@.len() as int) =~= pv);
            let nl = chars_of("\n");
            string_from(join_exec(&texts, nl.as_slice()).as_slice())
        },
        _ => String::new(),
    }
}

} // verus!

verus! {

/// `{"query": q}`.
pub open spec fn query_object_v(q: Seq<char>) -> JsonV {
    JsonV::Object(seq![("query"@, JsonV::Str(q))])
}

/// Tool-search arguments as an object: blank arguments give `{}`; a JSON
/// object is kept; anything else becomes `{"query": <arguments>}`.
pub open spec fn arguments_object_v(arguments: Seq<char>) -> JsonV {
    if trim(arguments).len() == 0 {
        JsonV::Object(Seq::empty())
    } else {
        match crate::codec::json_parse(crate::text::utf8(arguments)) {
            Some(JsonV::Object(f)) => JsonV::Object(f),
            _ => query_object_v(arguments),
        }
    }
}

pub fn parse_tool_arguments_object(arguments: &str) -> (r: Json)
    ensures
        r@ == arguments_object_v(arguments@),
{
    let a = chars_of(arguments);
    if trim_chars(a.as_slice()).len() == 0 {
        let f: Vec<(String, Json)> = Vec::new();
        proof {
            crate::json::lemma_object_view(f);
        }
        assert(crate::json::fields_view(f@) =~= Seq::<(Seq<char>, JsonV)>::empty());
        return Json::Object(f);
    }
    let bytes = crate::text::utf8_bytes(a.as_slice());
    match crate::codec::parse_json(bytes.as_slice()) {
        Some(v) => if v.is_object() {
            return v;
        },
        None => {},
    }
    let mut f: Vec<(String, Json)> = Vec::new();
    f.push((crate::text::owned("query"), Json::Str(string_from(a.as_slice()))));
    proof {
        crate::json::lemma_object_view(f);
    }
    assert(crate::json::fields_view(f@) =~= seq![("query"@, JsonV::Str(arguments@))]);
    Json::Object(f)
}

} // verus!

verus! {

// ---------------------------------------------------------------------------
// A Chat tool call as a Responses output item
// ---------------------------------------------------------------------------
/// Arguments text in canonical form: text that is one JSON value is
/// written back by serde_json (compact, keys in sorted order); other text
/// is kept as it is.
pub open spec fn canonical_args(s: Seq<char>) -> Seq<char> {
    match crate::codec::json_parse(crate::text::utf8(s)) {
        Some(v) => crate::codec::json_string(v),
        None => s,
    }
}

pub fn canonicalize_json_string_if_parseable(s: &str) -> (r: String)
    ensures
        r@ == canonical_args(s@),
{
    let bytes = crate::text::utf8_bytes(chars_of(s).as_slice());
    match crate::codec::parse_json(bytes.as_slice()) {
        Some(v) => crate::codec::to_json_string(&v),
        None => crate::text::owned(s),
    }
}

/// `tc.function[k]`.
pub open spec fn fn_field(tc: JsonV, k: Seq<char>) -> Option<JsonV> {
    match vget(tc, "function"@) {
        Some(f) => vget(f, k),
        None => None,
    }
}

/// The call id of a tool call: its trimmed `id` when not blank, else
/// `<response id>_call_<index>`.
pub open spec fn resp_call_id(tc: JsonV, rid: Seq<char>, index: nat) -> Seq<char> {
    match vget_str(tc, "id"@) {
        Some(s) => if trim(s).len() > 0 {
            trim(s)
        } else {
            rid + "_call_"@ + crate::text::nat_digits(index)
        },
        None => rid + "_call_"@ + crate::text::nat_digits(index),
    }
}

/// The function name of a tool call (empty when missing).
pub open spec fn call_name_v(tc: JsonV) -> Seq<char> {
    match fn_field(tc, "name"@) {
        Some(JsonV::Str(n)) => n,
        _ => Seq::empty(),
    }
}

/// The arguments of a tool call as canonical text (empty when missing).
pub open spec fn call_args_v(tc: JsonV) -> Seq<char> {
    match fn_field(tc, "arguments"@) {
        Some(a) => canonical_args(crate::dto::args_string(a)),
        None => Seq::empty(),
    }
}

/// Reasoning text kept only when it is not blank.
pub open spec fn nonblank_opt(r: Option<Seq<char>>) -> Option<Seq<char>> {
    match r {
        Some(x) => if trim(x).len() > 0 {
            Some(x)
        } else {
            None
        },
        None => None,
    }
}

/// An output item for a tool call; the fields not given are empty.
pub open spec fn call_item(
    item_type: Seq<char>,
    id: Seq<char>,
    status: Seq<char>,
    call_id: Seq<char>,
    name: Option<Seq<char>>,
    namespace: Option<Seq<char>>,
    arguments: Option<JsonV>,
    reasoning_content: Option<Seq<char>>,
    input: Option<Seq<char>>,
    execution: Option<Seq<char>>,
) -> OutputItemV {
    OutputItemV {
        item_type,
        id,
        status,
        role: Seq::empty(),
        content: Seq::empty(),
        summary: Seq::empty(),
        quality: Seq::empty(),
        size: Seq::empty(),
        call_id: Some(call_id),
        name,
        namespace,
        arguments,
        reasoning_content,
        query: None,
        input,
        execution,
    }
}

/// A Chat tool call as a Responses output item, restored through the
/// request's tool context: a custom tool gives a `custom_tool_call` (id
/// `ctc_<call id>`, its input restored from the arguments); the tool-search
/// proxy a `tool_search_call` (no id, arguments as an object, executed by
/// the client); a flattened namespace name a `function_call` with the
/// tool's own name and namespace; anything else a `function_call` (or the
/// call's own non-empty `type`) with id `fc_<call id>`. Blank reasoning is
/// left out.
pub open spec fn tool_call_item_v(
    tc: JsonV,
    rid: Seq<char>,
    index: nat,
    status: Seq<char>,
    reasoning: Option<Seq<char>>,
    c: CtxV,
) -> OutputItemV {
    let cid = resp_call_id(tc, rid, index);
    let name = call_name_v(tc);
    let args = call_args_v(tc);
    let rc = nonblank_opt(reasoning);
    let ty = match vget_str(tc, "type"@) {
        Some(t) => t,
        None => "function"@,
    };
    let kind = if c.specs.contains_key(name) {
        c.specs[name].kind
    } else {
        ToolKind::Function
    };
    if kind == ToolKind::Custom {
        call_item(
            "custom_tool_call"@,
            "ctc_"@ + cid,
            status,
            cid,
            Some(name),
            None,
            None,
            rc,
            Some(crate::dto::custom_tool_input(args)),
            None,
        )
    } else if kind == ToolKind::ToolSearch {
        call_item(
            "tool_search_call"@,
            Seq::empty(),
            status,
            cid,
            None,
            None,
            Some(arguments_object_v(args)),
            rc,
            None,
            Some("client"@),
        )
    } else if kind == ToolKind::Namespace {
        call_item(
            "function_call"@,
            "fc_"@ + cid,
            status,
            cid,
            Some(c.specs[name].name),
            c.specs[name].namespace,
            Some(JsonV::Str(args)),
            rc,
            None,
            None,
        )
    } else {
        call_item(
            if ty.len() == 0 || ty == "function"@ {
                "function_call"@
            } else {
                ty
            },
            "fc_"@ + cid,
            status,
            cid,
            Some(name),
            None,
            Some(JsonV::Str(args)),
            rc,
            None,
            None,
        )
    }
}

fn fn_field_exec<'a>(tc: &'a Json, k: &str) -> (r: Option<&'a Json>)
    ensures
        match r {
            Some(v) => fn_field(tc@, k@) == Some(v@),
            None => fn_field(tc@, k@) is None,
        },
{
    match tc.get("function") {
        Some(f) => f.get(k),
        None => None,
    }
}

fn resp_call_id_exec(tc: &Json, rid: &str, index: usize) -> (r: String)
    ensures
        r@ == resp_call_id(tc@, rid@, index as nat),
{
    let mut fallback = chars_of(rid);
    push_str_lit(&mut fallback, "_call_");
    push_all(&mut fallback, crate::text::u64_digits(index as u64).as_slice());
    match tc.get_str("id") {
        Some(s) => {
            let t = trim_chars(chars_of(s.as_str()).as_slice());
            if t.len() > 0 {
                string_from(t.as_slice())
            } else {
                string_from(fallback.as_slice())
            }
        },
        None => string_from(fallback.as_slice()),
    }
}

fn push_str_lit(v: &mut Vec<char>, lit: &str)
    ensures
        final(v)@ == old(v)@ + lit@,
{
    crate::text::push_str(v, lit);
}

fn prefixed_id(prefix: &str, cid: &String) -> (r: String)
    ensures
        r@ == prefix@ + cid@,
{
    let mut v = chars_of(prefix);
    push_all(&mut v, chars_of(cid.as_str()).as_slice());
    string_from(v.as_slice())
}

fn nonblank_reasoning(reasoning: Option<&str>) -> (r: Option<String>)
    ensures
        crate::dto::opt_str(r) == nonblank_opt(
            match reasoning {
                Some(s) => Some(s@),
                None => None,
            },
        ),
{
    match reasoning {
        Some(s) => if trim_chars(chars_of(s).as_slice()).len() > 0 {
            Some(crate::text::owned(s))
        } else {
            None
        },
        None => None,
    }
}

/// A Chat tool call as a Responses output item (see `tool_call_item_v`).
pub fn chat_tool_call_to_responses_output(
    tc: &Json,
    response_id: &str,
    index: usize,
    status: &str,
    reasoning: Option<&str>,
    tool_ctx: &ToolContext,
) -> (r: ResponsesOutputOut)
    ensures
        r@ == tool_call_item_v(
            tc@,
            response_id@,
            index as nat,
            status@,
            match reasoning {
                Some(s) => Some(s@),
                None => None,
            },
            tool_ctx@,
        ),
{
    let call_id = resp_call_id_exec(tc, response_id, index);
    let name: String = match fn_field_exec(tc, "name") {
        Some(n) => match n.as_str() {
            Some(s) => s.clone(),
            None => String::new(),
        },
        None => String::new(),
    };
    let arguments: String = match fn_field_exec(tc, "arguments") {
        Some(a) => canonicalize_json_string_if_parseable(crate::dto::arguments_string(a).as_str()),
        None => String::new(),
    };
    let reasoning_content = nonblank_reasoning(reasoning);
    let ghost v = tool_call_item_v(
        tc@,
        response_id@,
        index as nat,
        status@,
        match reasoning {
            Some(s) => Some(s@),
            None => None,
        },
        tool_ctx@,
    );
    match tool_ctx.lookup(name.as_str()) {
        Some(spec) => {
            if spec.kind == ToolKind::Custom {
                let input = crate::dto::custom_tool_input_from_chat_arguments(arguments.as_str());
                let r = ResponsesOutputOut {
                    item_type: crate::text::owned("custom_tool_call"),
                    id: prefixed_id("ctc_", &call_id),
                    status: crate::text::owned(status),
                    role: String::new(),
                    content: Vec::new(),
                    summary: Vec::new(),
                    quality: String::new(),
                    size: String::new(),
                    call_id: Some(call_id),
                    name: Some(name),
                    namespace: None,
                    arguments: None,
                    reasoning_content,
                    query: None,
                    input: Some(input),
                    execution: None,
                };
                assert(r@.content =~= v.content);
                assert(r@.summary =~= v.summary);
                return r;
            } else if spec.kind == ToolKind::ToolSearch {
                let r = ResponsesOutputOut {
                    item_type: crate::text::owned("tool_search_call"),
                    id: String::new(),
                    status: crate::text::owned(status),
                    role: String::new(),
                    content: Vec::new(),
                    summary: Vec::new(),
                    quality: String::new(),
                    size: String::new(),
                    call_id: Some(call_id),
                    name: None,
                    namespace: None,
                    arguments: Some(parse_tool_arguments_object(arguments.as_str())),
                    reasoning_content,
                    query: None,
                    input: None,
                    execution: Some(crate::text::owned("client")),
                };
                assert(r@.content =~= v.content);
                assert(r@.summary =~= v.summary);
                return r;
            } else if spec.kind == ToolKind::Namespace {
                let ns: Option<String> = match &spec.namespace {
                    Some(x) => Some(x.clone()),
                    None => None,
                };
                let r = ResponsesOutputOut {
                    item_type: crate::text::owned("function_call"),
                    id: prefixed_id("fc_", &call_id),
                    status: crate::text::owned(status),
                    role: String::new(),
                    content: Vec::new(),
                    summary: Vec::new(),
                    quality: String::new(),
                    size: String::new(),
                    call_id: Some(call_id),
                    name: Some(spec.name.clone()),
                    namespace: ns,
                    arguments: Some(Json::Str(arguments)),
                    reasoning_content,
                    query: None,
                    input: None,
                    execution: None,
                };
                assert(r@.content =~= v.content);
                assert(r@.summary =~= v.summary);
                return r;
            }
        },
        None => {},
    }
    let item_type = match tc.get_str("type") {
        Some(t) => if t.as_str().is_empty() || is(chars_of(t.as_str()).as_slice(), "function") {
            crate::text::owned("function_call")
        } else {
            t.clone()
        },
        None => crate::text::owned("function_call"),
    };
    let r = ResponsesOutputOut {
        item_type,
        id: prefixed_id("fc_", &call_id),
        status: crate::text::owned(status),
        role: String::new(),
        content: Vec::new(),
        summary: Vec::new(),
        quality: String::new(),
        size: String::new(),
        call_id: Some(call_id),
        name: Some(name),
        namespace: None,
        arguments: Some(Json::Str(arguments)),
        reasoning_content,
        query: None,
        input: None,
        execution: None,
    };
    assert(r@.content =~= v.content);
    assert(r@.summary =~= v.summary);
    r
}

} // verus!

verus! {

// ---------------------------------------------------------------------------
// A leading think block
// ---------------------------------------------------------------------------
/// Position of the first occurrence of `p` in `s` (meaningful when `p`
/// occurs).
pub open spec fn first_occurrence(s: Seq<char>, p: Seq<char>) -> int {
    choose|j: int| crate::text::occurs_at(s, p, j) && forall|k: int|
        0 <= k < j ==> !crate::text::occurs_at(s, p, k)
}

/// A leading `<think>…</think>` block of a text (after leading
/// whitespace): the block's text, trimmed, and the text after the first
/// closing tag; `None` when the text does not open with a closed block.
pub open spec fn leading_think(t: Seq<char>) -> Option<(Seq<char>, Seq<char>)> {
    let s = crate::text::trim_start(t);
    if crate::text::has_prefix(s, "<think>"@) && crate::text::contains(s.skip(7), "</think>"@) {
        let b = s.skip(7);
        let j = first_occurrence(b, "</think>"@);
        Some((trim(b.take(j)), b.skip(j + 8)))
    } else {
        None
    }
}

/// Splits a leading think block off a text (see `leading_think`).
pub fn split_leading_think(text: &str) -> (r: Option<(String, String)>)
    ensures
        match r {
            Some(p) => leading_think(text@) == Some((p.0@, p.1@)),
            None => leading_think(text@) is None,
        },
{
    let v = chars_of(text);
    let (a, _) = crate::text::trim_bounds(v.as_slice());
    let s = crate::text::slice_range(v.as_slice(), a, v.len());
    assert(s@ == crate::text::trim_start(text@));
    let open = chars_of("<think>");
    let close = chars_of("</think>");
    proof {
        reveal_strlit("<think>");
        reveal_strlit("</think>");
    }
    if !crate::text::starts_with(s.as_slice(), open.as_slice()) {
        return None;
    }
    let b = crate::text::slice_range(s.as_slice(), 7, s.len());
    assert(b@ =~= s@.skip(7));
    match crate::text::find(b.as_slice(), close.as_slice()) {
        Some(j) => {
            proof {
                let c = first_occurrence(b@, "</think>"@);
                assert(crate::text::contains(b@, "</think>"@));
                assert(crate::text::occurs_at(b@, "</think>"@, c));
                if c < j {
                    assert(!crate::text::occurs_at(b@, "</think>"@, c));
                } else if j < c {
                    assert(!crate::text::occurs_at(b@, "</think>"@, j as int));
                }
                assert(c == j);
            }
            let think = crate::text::slice_range(b.as_slice(), 0, j);
            let rest = crate::text::slice_range(b.as_slice(), j + 8, b.len());
            let t = crate::text::trim_chars(think.as_slice());
            assert(think@ =~= b@.take(j as int));
            assert(rest@ =~= b@.skip(j + 8));
            Some((string_from(t.as_slice()), string_from(rest.as_slice())))
        },
        None => None,
    }
}

} // verus!

verus! {

// ---------------------------------------------------------------------------
// A Chat completion as a Responses response
// ---------------------------------------------------------------------------
/// `resp.choices[0]` (a JSON pointer step: an array index, or the key `0`
/// of an object).
pub open spec fn choice0_v(resp: JsonV) -> Option<JsonV> {
    match vget(resp, "choices"@) {
        Some(JsonV::Array(a)) => if a.len() > 0 {
            Some(a[0])
        } else {
            None
        },
        Some(c) => vget(c, "0"@),
        None => None,
    }
}

/// The first choice's message.
pub open spec fn message_v(resp: JsonV) -> Option<JsonV> {
    match choice0_v(resp) {
        Some(c) => vget(c, "message"@),
        None => None,
    }
}

/// The first choice's finish reason (empty when missing).
pub open spec fn finish_reason_v(resp: JsonV) -> Seq<char> {
    match choice0_v(resp) {
        Some(c) => match vget_str(c, "finish_reason"@) {
            Some(f) => f,
            None => Seq::empty(),
        },
        None => Seq::empty(),
    }
}

/// The answer text and the reasoning text of a message: a leading think
/// block moves from the text to the end of the reasoning (after a newline
/// when there was reasoning already), and the rest of the text is trimmed.
pub open spec fn text_and_reasoning(m: Option<JsonV>) -> (Seq<char>, Seq<char>) {
    let t0 = match m {
        Some(x) => message_text(x),
        None => Seq::empty(),
    };
    let r0 = match m {
        Some(x) => message_reasoning(x),
        None => Seq::empty(),
    };
    match leading_think(t0) {
        Some(p) => (trim(p.1), if r0.len() == 0 {
            p.0
        } else {
            r0 + "\n"@ + p.0
        }),
        None => (t0, r0),
    }
}

/// The status of the output items: `incomplete` for a response cut short,
/// else `completed`.
pub open spec fn item_status_v(resp: JsonV) -> Seq<char> {
    if finish_status(finish_reason_v(resp)).0 == "incomplete"@ {
        "incomplete"@
    } else {
        "completed"@
    }
}

pub open spec fn empty_item(item_type: Seq<char>, id: Seq<char>, status: Seq<char>) -> OutputItemV {
    OutputItemV {
        item_type,
        id,
        status,
        role: Seq::empty(),
        content: Seq::empty(),
        summary: Seq::empty(),
        quality: Seq::empty(),
        size: Seq::empty(),
        call_id: None,
        name: None,
        namespace: None,
        arguments: None,
        reasoning_content: None,
        query: None,
        input: None,
        execution: None,
    }
}

/// The reasoning item: id `<id>_reasoning_0`, one `summary_text` part.
pub open spec fn reasoning_item_v(id: Seq<char>, status: Seq<char>, reasoning: Seq<char>) -> OutputItemV {
    OutputItemV {
        summary: seq![SummaryPartV { part_type: "summary_text"@, text: reasoning, annotations: None }],
        ..empty_item("reasoning"@, id + "_reasoning_0"@, status)
    }
}

pub open spec fn text_part_out(t: Seq<char>) -> ContentPartV {
    ContentPartV { content_type: "output_text"@, text: t, refusal: Seq::empty(), annotations: Seq::empty() }
}

pub open spec fn refusal_part_out(r: Seq<char>) -> ContentPartV {
    ContentPartV { content_type: "refusal"@, text: Seq::empty(), refusal: r, annotations: Seq::empty() }
}

/// The message's own `refusal` string, when it is not blank.
pub open spec fn message_refusal_v(m: Option<JsonV>) -> Option<Seq<char>> {
    match m {
        Some(x) => match vget_str(x, "refusal"@) {
            Some(r) => if trim(r).len() > 0 {
                Some(r)
            } else {
                None
            },
            None => None,
        },
        None => None,
    }
}

/// The refusals of the message's content parts.
pub open spec fn part_refusals_v(m: Option<JsonV>) -> Seq<Seq<char>> {
    match m {
        Some(x) => message_refusals(x),
        None => Seq::empty(),
    }
}

/// The message item: id `<id>_msg_0`, role `assistant`, an `output_text`
/// part, then a part for the message's refusal and one for each part
/// refusal.
pub open spec fn message_item_v(
    id: Seq<char>,
    status: Seq<char>,
    text: Seq<char>,
    refusal: Option<Seq<char>>,
    part_refusals: Seq<Seq<char>>,
) -> OutputItemV {
    OutputItemV {
        role: "assistant"@,
        content: seq![text_part_out(text)] + match refusal {
            Some(r) => seq![refusal_part_out(r)],
            None => Seq::empty(),
        } + part_refusals.map_values(|r: Seq<char>| refusal_part_out(r)),
        ..empty_item("message"@, id + "_msg_0"@, status)
    }
}

/// The reasoning item (when there is reasoning), then the message item
/// (when there is text or a part refusal).
pub open spec fn head_items_v(resp: JsonV, id: Seq<char>) -> Seq<OutputItemV> {
    let m = message_v(resp);
    let tr = text_and_reasoning(m);
    let st = item_status_v(resp);
    (if tr.1.len() > 0 {
        seq![reasoning_item_v(id, st, tr.1)]
    } else {
        Seq::empty()
    }) + (if tr.0.len() > 0 || part_refusals_v(m).len() > 0 {
        seq![message_item_v(id, st, tr.0, message_refusal_v(m), part_refusals_v(m))]
    } else {
        Seq::empty()
    })
}

/// The message's `tool_calls` array (empty when missing).
pub open spec fn tool_calls_v(m: Option<JsonV>) -> Seq<JsonV> {
    match m {
        Some(x) => match vget(x, "tool_calls"@) {
            Some(JsonV::Array(a)) => a,
            _ => Seq::empty(),
        },
        None => Seq::empty(),
    }
}

/// The items of the first `k` tool calls, and how many of them were
/// dropped for a missing or blank function name.
pub open spec fn tool_items_v(
    tcs: Seq<JsonV>,
    id: Seq<char>,
    status: Seq<char>,
    reasoning: Option<Seq<char>>,
    c: CtxV,
    k: int,
) -> (Seq<OutputItemV>, nat)
    decreases k,
{
    if k <= 0 {
        (Seq::empty(), 0)
    } else {
        let p = tool_items_v(tcs, id, status, reasoning, c, k - 1);
        let tc = tcs[k - 1];
        if trim(call_name_v(tc)).len() > 0 {
            (p.0.push(tool_call_item_v(tc, id, (k - 1) as nat, status, reasoning, c)), p.1)
        } else {
            (p.0, p.1 + 1)
        }
    }
}

/// The reasoning handed to tool-call items: trimmed, when not blank.
pub open spec fn tool_reasoning_v(reasoning: Seq<char>) -> Option<Seq<char>> {
    if trim(reasoning).len() > 0 {
        Some(trim(reasoning))
    } else {
        None
    }
}

pub open spec fn is_call_item(o: OutputItemV) -> bool {
    o.item_type == "function_call"@ || o.item_type == "custom_tool_call"@
}

/// A legacy `function_call` as a tool call: its `id` (empty when
/// missing), type `function`, the trimmed name and the arguments text.
pub open spec fn legacy_call_v(fc: JsonV, name: Seq<char>) -> JsonV {
    JsonV::Object(
        seq![
            ("id"@, JsonV::Str(match vget_str(fc, "id"@) {
                Some(i) => i,
                None => Seq::empty(),
            })),
            ("type"@, JsonV::Str("function"@)),
            ("function"@, JsonV::Object(seq![
                ("name"@, JsonV::Str(name)),
                ("arguments"@, JsonV::Str(match vget(fc, "arguments"@) {
                    Some(a) => crate::dto::args_string(a),
                    None => Seq::empty(),
                })),
            ])),
        ],
    )
}

/// The item of a legacy `message.function_call` with a non-blank name,
/// when no item so far is a function or custom tool call.
pub open spec fn legacy_items_v(
    m: Option<JsonV>,
    items: Seq<OutputItemV>,
    id: Seq<char>,
    status: Seq<char>,
    reasoning: Option<Seq<char>>,
    c: CtxV,
) -> Seq<OutputItemV> {
    if forall|i: int| 0 <= i < items.len() ==> !is_call_item(#[trigger] items[i]) {
        match m {
            Some(x) => match vget(x, "function_call"@) {
                Some(fc) => match vget_str(fc, "name"@) {
                    Some(n) => if trim(n).len() > 0 {
                        seq![tool_call_item_v(legacy_call_v(fc, trim(n)), id, items.len(), status, reasoning, c)]
                    } else {
                        Seq::empty()
                    },
                    None => Seq::empty(),
                },
                None => Seq::empty(),
            },
            None => Seq::empty(),
        }
    } else {
        Seq::empty()
    }
}

/// All output items, and the number of tool calls dropped.
pub open spec fn output_items_v(resp: JsonV, id: Seq<char>, c: CtxV) -> (Seq<OutputItemV>, nat) {
    let m = message_v(resp);
    let st = item_status_v(resp);
    let rsn = tool_reasoning_v(text_and_reasoning(m).1);
    let tcs = tool_calls_v(m);
    let t = tool_items_v(tcs, id, st, rsn, c, tcs.len() as int);
    let items1 = head_items_v(resp, id) + t.0;
    (items1 + legacy_items_v(m, items1, id, st, rsn, c), t.1)
}

/// The response status: `failed` when tool calls were dropped, nothing
/// else came out and the response was not cut short; else the status of
/// the finish reason.
pub open spec fn response_status_v(resp: JsonV, dropped: nat, n_items: nat) -> Seq<char> {
    let s = finish_status(finish_reason_v(resp)).0;
    if dropped > 0 && n_items == 0 && s != "incomplete"@ {
        "failed"@
    } else {
        s
    }
}

pub open spec fn dropped_error_v() -> JsonV {
    JsonV::Object(
        seq![
            ("code"@, JsonV::Str("upstream_tool_call_dropped"@)),
            ("message"@, JsonV::Str(
                "upstream returned tool_calls without function name and no other output"@,
            )),
        ],
    )
}

/// `created` as an `i64`, else the fallback.
pub open spec fn created_v(resp: JsonV, fallback: i64) -> i64 {
    match vget(resp, "created"@) {
        Some(JsonV::Number(NumV::PosInt(u))) => if u <= i64::MAX {
            u as i64
        } else {
            fallback
        },
        Some(JsonV::Number(NumV::NegInt(i))) => i,
        _ => fallback,
    }
}

/// The usage JSON: the upstream's usage object mapped, else all zero.
pub open spec fn resp_usage_v(resp: JsonV) -> JsonV {
    match vget(resp, "usage"@) {
        Some(u) => if u is Object {
            crate::dto::usage_json_v(crate::dto::usage_of(u))
        } else {
            crate::dto::zero_usage_json_v()
        },
        None => crate::dto::zero_usage_json_v(),
    }
}

pub open spec fn response_json_v(
    id: Seq<char>,
    created: i64,
    status: Seq<char>,
    incomplete: Option<Seq<char>>,
    model: Seq<char>,
    items: Seq<OutputItemV>,
    usage: JsonV,
) -> JsonV {
    JsonV::Object(
        seq![
            ("id"@, JsonV::Str(id)),
            ("object"@, JsonV::Str("response"@)),
            ("created_at"@, crate::dto::int_v(created)),
            ("status"@, JsonV::Str(status)),
        ] + (if status == "failed"@ {
            seq![("error"@, dropped_error_v())]
        } else {
            Seq::empty()
        }) + match incomplete {
            Some(r) => seq![("incomplete_details"@, JsonV::Object(seq![("reason"@, JsonV::Str(r))]))],
            None => Seq::empty(),
        } + seq![
            ("model"@, JsonV::Str(model)),
            ("output"@, JsonV::Array(items.map_values(|o: OutputItemV| crate::dto::item_json_v(o)))),
            ("usage"@, usage),
        ],
    )
}

/// A Chat completion as a Responses response: the reasoning item, the
/// message item and the tool-call items in that order; a response whose
/// tool calls all lacked a name, with nothing else, is `failed`.
pub open spec fn chat_to_responses(resp: JsonV, id: Seq<char>, fallback_created: i64, c: CtxV) -> JsonV {
    let o = output_items_v(resp, id, c);
    response_json_v(
        id,
        created_v(resp, fallback_created),
        response_status_v(resp, o.1, o.0.len()),
        finish_status(finish_reason_v(resp)).1,
        match vget_str(resp, "model"@) {
            Some(m) => m,
            None => Seq::empty(),
        },
        o.0,
        resp_usage_v(resp),
    )
}

} // verus!

verus! {

fn choice0_exec(resp: &Json) -> (r: Option<&Json>)
    ensures
        match r {
            Some(c) => choice0_v(resp@) == Some(c@),
            None => choice0_v(resp@) is None,
        },
{
    match resp.get("choices") {
        Some(cs) => match cs.as_array() {
            Some(a) => if a.len() > 0 {
                Some(&a[0])
            } else {
                None
            },
            None => cs.get("0"),
        },
        None => None,
    }
}

fn with_suffix(a: &str, lit: &str) -> (r: String)
    ensures
        r@ == a@ + lit@,
{
    let mut v = chars_of(a);
    crate::text::push_str(&mut v, lit);
    string_from(v.as_slice())
}

fn text_and_reasoning_exec(m: Option<&Json>) -> (r: (String, String))
    ensures
        (r.0@, r.1@) == text_and_reasoning(
            match m {
                Some(x) => Some(x@),
                None => None,
            },
        ),
{
    let (t0, r0) = match m {
        Some(x) => {
            let (t, _) = extract_message_text_and_refusals(x);
            (t, extract_message_reasoning(x))
        },
        None => (String::new(), String::new()),
    };
    match split_leading_think(t0.as_str()) {
        Some((think, rest)) => {
            let text = string_from(trim_chars(chars_of(rest.as_str()).as_slice()).as_slice());
            let reasoning = if r0.as_str().is_empty() {
                think
            } else {
                let mut v = chars_of(r0.as_str());
                crate::text::push_str(&mut v, "\n");
                push_all(&mut v, chars_of(think.as_str()).as_slice());
                string_from(v.as_slice())
            };
            (text, reasoning)
        },
        None => (t0, r0),
    }
}

fn reasoning_item(id: &str, status: &str, reasoning: &String) -> (r: ResponsesOutputOut)
    ensures
        r@ == reasoning_item_v(id@, status@, reasoning@),
{
    let mut item = crate::dto::output_item("reasoning", with_suffix(id, "_reasoning_0"), status, Vec::new());
    let mut summary: Vec<crate::dto::SummaryPartOut> = Vec::new();
    summary.push(crate::dto::summary_part("summary_text", reasoning.as_str()));
    item.summary = summary;
    assert(item.quality@ =~= Seq::<char>::empty());
    assert(item.size@ =~= Seq::<char>::empty());
    assert(item.role@ =~= Seq::<char>::empty());
    assert(item@.content =~= Seq::<ContentPartV>::empty());
    assert(item@.summary =~= seq![
        SummaryPartV { part_type: "summary_text"@, text: reasoning@, annotations: None },
    ]);
    item
}

fn content_part(content_type: &str, text: String, refusal: String) -> (r: crate::dto::ResponsesOutputContentOut)
    ensures
        r@.content_type == content_type@,
        r@.text == text@,
        r@.refusal == refusal@,
        r@.annotations == Seq::<JsonV>::empty(),
{
    let a = crate::dto::empty_annotations();
    assert(elems_view(a@) =~= Seq::<JsonV>::empty());
    crate::dto::ResponsesOutputContentOut {
        content_type: crate::text::owned(content_type),
        text,
        refusal,
        annotations: a,
    }
}

fn message_item(
    id: &str,
    status: &str,
    text: String,
    refusal: Option<String>,
    part_refusals: &Vec<String>,
) -> (r: ResponsesOutputOut)
    ensures
        r@ == message_item_v(
            id@,
            status@,
            text@,
            crate::dto::opt_str(refusal),
            part_refusals@.map_values(|s: String| s@),
        ),
{
    let ghost rv = crate::dto::opt_str(refusal);
    let mut parts: Vec<crate::dto::ResponsesOutputContentOut> = Vec::new();
    parts.push(content_part("output_text", text, String::new()));
    let ghost head = seq![text_part_out(text@)] + match rv {
        Some(r) => seq![refusal_part_out(r)],
        None => Seq::empty(),
    };
    match refusal {
        Some(r) => parts.push(content_part("refusal", String::new(), r)),
        None => {},
    }
    let ghost pv = part_refusals@.map_values(|s: String| s@);
    assert(parts@.map_values(|c: crate::dto::ResponsesOutputContentOut| c@) =~= head);
    let mut i: usize = 0;
    while i < part_refusals.len()
        invariant
            i <= part_refusals@.len(),
            pv == part_refusals@.map_values(|s: String| s@),
            parts@.map_values(|c: crate::dto::ResponsesOutputContentOut| c@) == head + pv.take(
                i as int,
            ).map_values(|r: Seq<char>| refusal_part_out(r)),
        decreases part_refusals@.len() - i,
    {
        let ghost before = parts@.map_values(|c: crate::dto::ResponsesOutputContentOut| c@);
        let p = content_part("refusal", String::new(), part_refusals[i].clone());
        parts.push(p);
        assert(parts@.map_values(|c: crate::dto::ResponsesOutputContentOut| c@) =~= before.push(p@));
        assert(pv.take(i + 1) =~= pv.take(i as int).push(pv[i as int]));
        assert(pv.take(i + 1).map_values(|r: Seq<char>| refusal_part_out(r)) =~= pv.take(
            i as int,
        ).map_values(|r: Seq<char>| refusal_part_out(r)).push(refusal_part_out(pv[i as int])));
        assert(parts@.map_values(|c: crate::dto::ResponsesOutputContentOut| c@) =~= head + pv.take(
            i + 1,
        ).map_values(|r: Seq<char>| refusal_part_out(r)));
        i = i + 1;
    }
    assert(pv.take(pv.len() as int) =~= pv);
    let mut item = crate::dto::output_item("message", with_suffix(id, "_msg_0"), status, parts);
    item.role = crate::text::owned("assistant");
    assert(item.quality@ =~= Seq::<char>::empty());
    assert(item.size@ =~= Seq::<char>::empty());
    assert(item@.summary =~= Seq::<SummaryPartV>::empty());
    item
}

} // verus!

verus! {

pub open spec fn items_view(v: Seq<ResponsesOutputOut>) -> Seq<OutputItemV> {
    v.map_values(|o: ResponsesOutputOut| o@)
}

fn push_item(output: &mut Vec<ResponsesOutputOut>, o: ResponsesOutputOut)
    ensures
        items_view(final(output)@) == items_view(old(output)@).push(o@),
{
    output.push(o);
    assert(items_view(output@) =~= items_view(old(output)@).push(o@));
}

fn call_name_nonblank(tc: &Json) -> (r: bool)
    ensures
        r == (trim(call_name_v(tc@)).len() > 0),
{
    match fn_field_exec(tc, "name") {
        Some(n) => match n.as_str() {
            Some(s) => trim_chars(chars_of(s.as_str()).as_slice()).len() > 0,
            None => {
                assert(trim(Seq::<char>::empty()) =~= Seq::<char>::empty());
                false
            },
        },
        None => {
            assert(trim(Seq::<char>::empty()) =~= Seq::<char>::empty());
            false
        },
    }
}

fn opt_as_str(o: &Option<String>) -> (r: Option<&str>)
    ensures
        match r {
            Some(s) => crate::dto::opt_str(*o) == Some(s@),
            None => o is None,
        },
{
    match o {
        Some(s) => Some(s.as_str()),
        None => None,
    }
}

/// Appends the items of the message's tool calls; returns how many were
/// dropped for a blank name.
fn push_tool_items(
    output: &mut Vec<ResponsesOutputOut>,
    m: Option<&Json>,
    id: &str,
    status: &str,
    reasoning: &Option<String>,
    tool_ctx: &ToolContext,
) -> (dropped: usize)
    ensures
        ({
            let mv = match m {
                Some(x) => Some(x@),
                None => None,
            };
            let tcs = tool_calls_v(mv);
            let t = tool_items_v(tcs, id@, status@, crate::dto::opt_str(*reasoning), tool_ctx@, tcs.len() as int);
            &&& items_view(final(output)@) == items_view(old(output)@) + t.0
            &&& dropped == t.1
        }),
{
    let ghost mv = match m {
        Some(x) => Some(x@),
        None => None,
    };
    let ghost rv = crate::dto::opt_str(*reasoning);
    let ghost out0 = items_view(output@);
    let empty: Vec<Json> = Vec::new();
    let tcs: &Vec<Json> = match m {
        Some(x) => match x.get("tool_calls") {
            Some(t) => match t.as_array() {
                Some(a) => a,
                None => &empty,
            },
            None => &empty,
        },
        None => &empty,
    };
    assert(elems_view(tcs@) =~= tool_calls_v(mv));
    let ghost tv = tool_calls_v(mv);
    let rsn = opt_as_str(reasoning);
    let mut dropped: usize = 0;
    let mut i: usize = 0;
    while i < tcs.len()
        invariant
            i <= tcs@.len(),
            tv == elems_view(tcs@),
            dropped <= i,
            items_view(output@) == out0 + tool_items_v(tv, id@, status@, rv, tool_ctx@, i as int).0,
            dropped == tool_items_v(tv, id@, status@, rv, tool_ctx@, i as int).1,
            match rsn {
                Some(s) => rv == Some(s@),
                None => rv is None,
            },
        decreases tcs@.len() - i,
    {
        let tc = &tcs[i];
        assert(tv[i as int] == tc@);
        if call_name_nonblank(tc) {
            let item = chat_tool_call_to_responses_output(tc, id, i, status, rsn, tool_ctx);
            let ghost before = items_view(output@);
            push_item(output, item);
            let ghost p = tool_items_v(tv, id@, status@, rv, tool_ctx@, i as int);
            assert(before + p.0.push(item@) =~= (before + p.0).push(item@));
        } else {
            dropped = dropped + 1;
        }
        i = i + 1;
    }
    dropped
}

fn has_call_item(output: &Vec<ResponsesOutputOut>) -> (r: bool)
    ensures
        r == !(forall|i: int| 0 <= i < output@.len() ==> !is_call_item(#[trigger] items_view(output@)[i])),
{
    let mut i: usize = 0;
    while i < output.len()
        invariant
            i <= output@.len(),
            forall|j: int| 0 <= j < i ==> !is_call_item(#[trigger] items_view(output@)[j]),
        decreases output@.len() - i,
    {
        let t = chars_of(output[i].item_type.as_str());
        if is(t.as_slice(), "function_call") || is(t.as_slice(), "custom_tool_call") {
            assert(is_call_item(items_view(output@)[i as int]));
            return true;
        }
        i = i + 1;
    }
    false
}

fn legacy_call(fc: &Json, name: String) -> (r: Json)
    ensures
        r@ == legacy_call_v(fc@, name@),
{
    let id = match fc.get_str("id") {
        Some(i) => i.clone(),
        None => String::new(),
    };
    let args = match fc.get("arguments") {
        Some(a) => crate::dto::arguments_string(a),
        None => String::new(),
    };
    let mut f: Vec<(String, Json)> = Vec::new();
    crate::dto::push_field(&mut f, "name", Json::Str(name));
    crate::dto::push_field(&mut f, "arguments", Json::Str(args));
    proof {
        crate::json::lemma_object_view(f);
    }
    let func = Json::Object(f);
    let mut g: Vec<(String, Json)> = Vec::new();
    crate::dto::push_field(&mut g, "id", Json::Str(id));
    crate::dto::push_field(&mut g, "type", crate::json::jstr("function"));
    crate::dto::push_field(&mut g, "function", func);
    proof {
        crate::json::lemma_object_view(g);
    }
    assert(crate::json::fields_view(f@) =~= match legacy_call_v(fc@, name@) {
        JsonV::Object(gs) => match gs[2].1 {
            JsonV::Object(fs) => fs,
            _ => Seq::empty(),
        },
        _ => Seq::empty(),
    });
    assert(crate::json::fields_view(g@) =~= match legacy_call_v(fc@, name@) {
        JsonV::Object(gs) => gs,
        _ => Seq::empty(),
    });
    Json::Object(g)
}

/// Appends the item of a legacy `function_call` when one is owed (see
/// `legacy_items_v`).
fn push_legacy_item(
    output: &mut Vec<ResponsesOutputOut>,
    m: Option<&Json>,
    id: &str,
    status: &str,
    reasoning: &Option<String>,
    tool_ctx: &ToolContext,
)
    ensures
        items_view(final(output)@) == items_view(old(output)@) + legacy_items_v(
            match m {
                Some(x) => Some(x@),
                None => None,
            },
            items_view(old(output)@),
            id@,
            status@,
            crate::dto::opt_str(*reasoning),
            tool_ctx@,
        ),
{
    let ghost out0 = items_view(output@);
    if has_call_item(output) {
        assert(out0 + Seq::<OutputItemV>::empty() =~= out0);
        return;
    }
    let m = match m {
        Some(x) => x,
        None => {
            assert(out0 + Seq::<OutputItemV>::empty() =~= out0);
            return;
        },
    };
    let fc = match m.get("function_call") {
        Some(fc) => fc,
        None => {
            assert(out0 + Seq::<OutputItemV>::empty() =~= out0);
            return;
        },
    };
    let n = match fc.get_str("name") {
        Some(n) => n,
        None => {
            assert(out0 + Seq::<OutputItemV>::empty() =~= out0);
            return;
        },
    };
    let t = trim_chars(chars_of(n.as_str()).as_slice());
    if t.len() == 0 {
        assert(out0 + Seq::<OutputItemV>::empty() =~= out0);
        return;
    }
    let legacy = legacy_call(fc, string_from(t.as_slice()));
    let k = output.len();
    let item = chat_tool_call_to_responses_output(&legacy, id, k, status, opt_as_str(reasoning), tool_ctx);
    push_item(output, item);
}

} // verus!

verus! {

fn items_json(items: &Vec<ResponsesOutputOut>) -> (r: Json)
    ensures
        r@ == JsonV::Array(items_view(items@).map_values(|o: OutputItemV| crate::dto::item_json_v(o))),
{
    let mut out: Vec<Json> = Vec::new();
    let mut i: usize = 0;
    while i < items.len()
        invariant
            i <= items@.len(),
            out@.len() == i,
            forall|k: int| 0 <= k < i ==> (#[trigger] out@[k])@ == crate::dto::item_json_v(items@[k]@),
        decreases items@.len() - i,
    {
        out.push(crate::dto::item_json(&items[i]));
        i = i + 1;
    }
    proof {
        crate::json::lemma_array_view(out);
    }
    assert(elems_view(out@) =~= items_view(items@).map_values(|o: OutputItemV| crate::dto::item_json_v(o)));
    Json::Array(out)
}

fn dropped_error() -> (r: Json)
    ensures
        r@ == dropped_error_v(),
{
    let mut f: Vec<(String, Json)> = Vec::new();
    crate::dto::push_field(&mut f, "code", crate::json::jstr("upstream_tool_call_dropped"));
    crate::dto::push_field(
        &mut f,
        "message",
        crate::json::jstr("upstream returned tool_calls without function name and no other output"),
    );
    proof {
        crate::json::lemma_object_view(f);
    }
    assert(crate::json::fields_view(f@) =~= match dropped_error_v() {
        JsonV::Object(fs) => fs,
        _ => Seq::empty(),
    });
    Json::Object(f)
}

fn created_exec(resp: &Json, fallback: i64) -> (r: i64)
    ensures
        r == created_v(resp@, fallback),
{
    match resp.get("created") {
        Some(Json::Number(crate::json::JsonNumber::PosInt(u))) => if *u <= i64::MAX as u64 {
            *u as i64
        } else {
            fallback
        },
        Some(Json::Number(crate::json::JsonNumber::NegInt(i))) => *i,
        _ => fallback,
    }
}

fn resp_usage(resp: &Json) -> (r: Json)
    ensures
        r@ == resp_usage_v(resp@),
{
    let u = match resp.get("usage") {
        Some(u) => if u.is_object() {
            crate::dto::usage_from_chat(&crate::dto::Usage::from_value_lenient(u))
        } else {
            crate::dto::zero_usage()
        },
        None => crate::dto::zero_usage(),
    };
    crate::dto::usage_out_json(&u)
}

fn response_json(
    id: &str,
    created: i64,
    status: &String,
    incomplete: &Option<crate::bridge::IncompleteDetailsOut>,
    model: String,
    items: &Vec<ResponsesOutputOut>,
    usage: Json,
) -> (r: Json)
    ensures
        r@ == response_json_v(
            id@,
            created,
            status@,
            match incomplete {
                Some(d) => Some(d.reason@),
                None => None,
            },
            model@,
            items_view(items@),
            usage@,
        ),
{
    let mut f: Vec<(String, Json)> = Vec::new();
    crate::dto::push_field(&mut f, "id", crate::json::jstr(id));
    crate::dto::push_field(&mut f, "object", crate::json::jstr("response"));
    crate::dto::push_field(&mut f, "created_at", crate::dto::int_json_of(created));
    crate::dto::push_field(&mut f, "status", Json::Str(status.clone()));
    if is(chars_of(status.as_str()).as_slice(), "failed") {
        crate::dto::push_field(&mut f, "error", dropped_error());
    }
    match incomplete {
        Some(d) => {
            let mut g: Vec<(String, Json)> = Vec::new();
            crate::dto::push_field(&mut g, "reason", Json::Str(d.reason.clone()));
            proof {
                crate::json::lemma_object_view(g);
            }
            assert(crate::json::fields_view(g@) =~= seq![("reason"@, JsonV::Str(d.reason@))]);
            crate::dto::push_field(&mut f, "incomplete_details", Json::Object(g));
        },
        None => {},
    }
    crate::dto::push_field(&mut f, "model", Json::Str(model));
    crate::dto::push_field(&mut f, "output", items_json(items));
    crate::dto::push_field(&mut f, "usage", usage);
    proof {
        crate::json::lemma_object_view(f);
    }
    assert(crate::json::fields_view(f@) =~= match response_json_v(
        id@,
        created,
        status@,
        match incomplete {
            Some(d) => Some(d.reason@),
            None => None,
        },
        model@,
        items_view(items@),
        usage@,
    ) {
        JsonV::Object(fs) => fs,
        _ => Seq::empty(),
    });
    Json::Object(f)
}


/// The output items of a completion and the number of dropped tool calls
/// (see `output_items_v`).
fn output_items(
    resp: &Json,
    message: Option<&Json>,
    id: &str,
    item_status: &str,
    tool_ctx: &ToolContext,
) -> (r: (Vec<ResponsesOutputOut>, usize))
    requires
        message_v(resp@) == match message {
            Some(x) => Some(x@),
            None => None,
        },
        item_status@ == item_status_v(resp@),
    ensures
        (items_view(r.0@), r.1 as nat) == output_items_v(resp@, id@, tool_ctx@),
{
    let ghost mv = message_v(resp@);
    let (text, reasoning) = text_and_reasoning_exec(message);
    let part_refusals: Vec<String> = match message {
        Some(m) => extract_message_text_and_refusals(m).1,
        None => Vec::new(),
    };
    assert(part_refusals@.map_values(|s: String| s@) =~= part_refusals_v(mv));
    let mut output: Vec<ResponsesOutputOut> = Vec::new();
    if !reasoning.as_str().is_empty() {
        push_item(&mut output, reasoning_item(id, item_status, &reasoning));
    }
    let refusal: Option<String> = match message {
        Some(m) => match m.get_str("refusal") {
            Some(r) => if trim_chars(chars_of(r.as_str()).as_slice()).len() > 0 {
                Some(r.clone())
            } else {
                None
            },
            None => None,
        },
        None => None,
    };
    if !text.as_str().is_empty() || part_refusals.len() > 0 {
        push_item(&mut output, message_item(id, item_status, text, refusal, &part_refusals));
    }
    assert(items_view(output@) =~= head_items_v(resp@, id@));
    let rsn: Option<String> = {
        let t = trim_chars(chars_of(reasoning.as_str()).as_slice());
        if t.len() > 0 {
            Some(string_from(t.as_slice()))
        } else {
            None
        }
    };
    let dropped = push_tool_items(&mut output, message, id, item_status, &rsn, tool_ctx);
    push_legacy_item(&mut output, message, id, item_status, &rsn, tool_ctx);
    (output, dropped)
}

/// A Chat completion as a Responses response (see `chat_to_responses`).
/// `id` is the response id this gateway made; `fallback_created` stands in
/// for a missing `created`; `tool_ctx` restores the request's custom,
/// namespaced and tool-search tools.
pub fn chat_response_to_responses(
    resp: &Json,
    id: &str,
    fallback_created: i64,
    tool_ctx: &ToolContext,
) -> (r: Result<Json, String>)
    ensures
        r matches Ok(j) && j@ == chat_to_responses(resp@, id@, fallback_created, tool_ctx@),
{
    let model = match resp.get_str("model") {
        Some(m) => m.clone(),
        None => String::new(),
    };
    let created = created_exec(resp, fallback_created);
    let usage = resp_usage(resp);
    let choice = choice0_exec(resp);
    let finish_reason: String = match choice {
        Some(c) => match c.get_str("finish_reason") {
            Some(f) => f.clone(),
            None => String::new(),
        },
        None => String::new(),
    };
    let (status0, incomplete_details) = crate::bridge::finish_reason_to_status(finish_reason.as_str());
    let message: Option<&Json> = match choice {
        Some(c) => c.get("message"),
        None => None,
    };
    let ghost mv = message_v(resp@);
    assert(mv == match message {
        Some(x) => Some(x@),
        None => None,
    });
    let item_status: &str = if is(chars_of(status0.as_str()).as_slice(), "incomplete") {
        "incomplete"
    } else {
        "completed"
    };
    let (output, dropped) = output_items(resp, message, id, item_status, tool_ctx);
    let cut_short = is(chars_of(status0.as_str()).as_slice(), "incomplete");
    let status: String = if dropped > 0 && output.len() == 0 && !cut_short {
        crate::text::owned("failed")
    } else {
        status0
    };
    Ok(response_json(id, created, &status, &incomplete_details, model, &output, usage))
}

} // verus!

verus! {

proof fn lemma_all_nameless(
    tcs: Seq<JsonV>,
    id: Seq<char>,
    status: Seq<char>,
    reasoning: Option<Seq<char>>,
    c: CtxV,
    k: int,
)
    requires
        0 <= k <= tcs.len(),
        forall|j: int| 0 <= j < tcs.len() ==> trim(call_name_v(#[trigger] tcs[j])).len() == 0,
    ensures
        tool_items_v(tcs, id, status, reasoning, c, k).0.len() == 0,
        tool_items_v(tcs, id, status, reasoning, c, k).1 == k,
    decreases k,
{
    if k > 0 {
        lemma_all_nameless(tcs, id, status, reasoning, c, k - 1);
    }
}

/// The guard on nameless tool calls: a completion whose message has no
/// text, refusal, reasoning or legacy function call, and whose tool calls
/// all lack a name, becomes a `failed` response with no output and the
/// `upstream_tool_call_dropped` error, unless it was cut short.
pub proof fn law_nameless_tool_calls_fail(resp: JsonV, id: Seq<char>, fallback_created: i64, c: CtxV)
    requires
        tool_calls_v(message_v(resp)).len() > 0,
        forall|j: int|
            0 <= j < tool_calls_v(message_v(resp)).len() ==> trim(
                call_name_v(#[trigger] tool_calls_v(message_v(resp))[j]),
            ).len() == 0,
        text_and_reasoning(message_v(resp)).0.len() == 0,
        text_and_reasoning(message_v(resp)).1.len() == 0,
        part_refusals_v(message_v(resp)).len() == 0,
        message_v(resp) matches Some(m) && vget(m, "function_call"@) is None,
        finish_status(finish_reason_v(resp)).0 != "incomplete"@,
    ensures
        output_items_v(resp, id, c).0.len() == 0,
        response_status_v(resp, output_items_v(resp, id, c).1, 0) == "failed"@,
{
    let m = message_v(resp);
    let st = item_status_v(resp);
    let rsn = tool_reasoning_v(text_and_reasoning(m).1);
    let tcs = tool_calls_v(m);
    lemma_all_nameless(tcs, id, st, rsn, c, tcs.len() as int);
    let items1 = head_items_v(resp, id) + tool_items_v(tcs, id, st, rsn, c, tcs.len() as int).0;
    assert(head_items_v(resp, id) =~= Seq::<OutputItemV>::empty());
    assert(items1 =~= Seq::<OutputItemV>::empty());
    assert(legacy_items_v(m, items1, id, st, rsn, c) =~= Seq::<OutputItemV>::empty());
}

} // verus!

verus! {

/// What a converted response says of the completion: its `id` is the
/// gateway's response id, `object` is `response`, `model` is the
/// completion's model string (empty when there is none), and `created_at`
/// is the completion's `created` when that is an `i64` integer, else the
/// fallback.
pub proof fn law_response_identity(resp: JsonV, id: Seq<char>, fallback_created: i64, c: CtxV)
    ensures
        ({
            let out = chat_to_responses(resp, id, fallback_created, c);
            &&& vget(out, "id"@) == Some(JsonV::Str(id))
            &&& vget(out, "object"@) == Some(JsonV::Str("response"@))
            &&& vget(out, "model"@) == Some(JsonV::Str(match vget_str(resp, "model"@) {
                Some(m) => m,
                None => Seq::empty(),
            }))
            &&& vget(out, "created_at"@) == Some(crate::dto::int_v(match vget(resp, "created"@) {
                Some(JsonV::Number(NumV::PosInt(u))) => if u <= i64::MAX { u as i64 } else { fallback_created },
                Some(JsonV::Number(NumV::NegInt(n))) => n,
                _ => fallback_created,
            }))
        }),
{
    reveal_strlit("id");
    reveal_strlit("object");
    reveal_strlit("created_at");
    reveal_strlit("status");
    reveal_strlit("error");
    reveal_strlit("incomplete_details");
    reveal_strlit("model");
    let out = chat_to_responses(resp, id, fallback_created, c);
    let fs = match out {
        JsonV::Object(fs) => fs,
        _ => Seq::empty(),
    };
    assert(out is Object);
    crate::json::lemma_field_at(fs, "id"@, 0);
    assert(fs[1].0 == "object"@);
    assert(fs[0].0 != "object"@);
    crate::json::lemma_field_at(fs, "object"@, 1);
    assert(fs[2].0 == "created_at"@);
    assert(fs[0].0 != "created_at"@ && fs[1].0 != "created_at"@);
    crate::json::lemma_field_at(fs, "created_at"@, 2);
    let o = output_items_v(resp, id, c);
    let status = response_status_v(resp, o.1, o.0.len());
    let e: int = if status == "failed"@ { 1 } else { 0 };
    let d: int = if finish_status(finish_reason_v(resp)).1 is Some { 1 } else { 0 };
    let mi = 4 + e + d;
    assert(fs[mi].0 == "model"@);
    assert("model"@[0] != "error"@[0]);
    assert forall|j: int| 0 <= j < mi implies fs[j].0 != "model"@ by {
        if j == 4 && e == 1 {
            assert(fs[j].0 == "error"@);
        }
    }
    crate::json::lemma_field_at(fs, "model"@, mi);
}

} // verus!

verus! {

/// A completion cut short is reported as `incomplete` with its reason: a
/// length stop (`length`, `max_tokens`, `token_limit`) for
/// `max_output_tokens`, the content filter for `content_filter`; the
/// response then carries no error.
pub proof fn law_cut_short_response(resp: JsonV, id: Seq<char>, fallback_created: i64, c: CtxV)
    ensures
        ({
            let out = chat_to_responses(resp, id, fallback_created, c);
            let f = trim(finish_reason_v(resp));
            let reason: Option<Seq<char>> = if f == "length"@ || f == "max_tokens"@ || f == "token_limit"@ {
                Some("max_output_tokens"@)
            } else if f == "content_filter"@ {
                Some("content_filter"@)
            } else {
                None
            };
            reason matches Some(r) ==> vget(out, "status"@) == Some(JsonV::Str("incomplete"@)) && vget(
                out,
                "incomplete_details"@,
            ) == Some(JsonV::Object(seq![("reason"@, JsonV::Str(r))])) && vget(out, "error"@) is None
        }),
{
    reveal_strlit("id");
    reveal_strlit("object");
    reveal_strlit("created_at");
    reveal_strlit("status");
    reveal_strlit("error");
    reveal_strlit("incomplete_details");
    reveal_strlit("model");
    reveal_strlit("output");
    reveal_strlit("usage");
    reveal_strlit("incomplete");
    reveal_strlit("failed");
    reveal_strlit("length");
    reveal_strlit("max_tokens");
    reveal_strlit("token_limit");
    reveal_strlit("content_filter");
    let out = chat_to_responses(resp, id, fallback_created, c);
    let f = trim(finish_reason_v(resp));
    let fr = finish_reason_v(resp);
    if f == "length"@ || f == "max_tokens"@ || f == "token_limit"@ || f == "content_filter"@ {
        assert(finish_status(fr).0 == "incomplete"@);
        assert("incomplete"@ != "failed"@) by {
            assert("incomplete"@.len() != "failed"@.len());
        }
        let fs = match out {
            JsonV::Object(fs) => fs,
            _ => Seq::empty(),
        };
        assert(fs[3].0 == "status"@);
        assert forall|j: int| 0 <= j < 3 implies fs[j].0 != "status"@ by {
            assert(fs[j].0.len() != "status"@.len() || fs[j].0[0] != "status"@[0]);
        }
        crate::json::lemma_field_at(fs, "status"@, 3);
        assert(fs[4].0 == "incomplete_details"@);
        assert forall|j: int| 0 <= j < 4 implies fs[j].0 != "incomplete_details"@ by {
            assert(fs[j].0.len() != "incomplete_details"@.len());
        }
        crate::json::lemma_field_at(fs, "incomplete_details"@, 4);
        assert forall|j: int| 0 <= j < fs.len() implies fs[j].0 != "error"@ by {
            assert(fs[j].0.len() != "error"@.len() || fs[j].0[0] != "error"@[0]);
        }
        crate::json::lemma_field_absent(fs, "error"@);
    }
}

} // verus!

verus! {

/// A tool call of a plain function (its name names no declared custom,
/// namespaced or tool-search tool) becomes a `function_call` item (or one
/// of the call's own non-empty type) whose call id is the call's trimmed
/// id, or `<response id>_call_<index>` when that is blank, whose id is
/// `fc_` and the call id, which keeps the call's name, and whose status
/// is the one given.
pub proof fn law_function_call_item(
    tc: JsonV,
    rid: Seq<char>,
    index: nat,
    status: Seq<char>,
    reasoning: Option<Seq<char>>,
    c: CtxV,
)
    requires
        !c.specs.contains_key(call_name_v(tc)),
    ensures
        ({
            let it = tool_call_item_v(tc, rid, index, status, reasoning, c);
            let cid = match vget_str(tc, "id"@) {
                Some(s) => if trim(s).len() > 0 {
                    trim(s)
                } else {
                    rid + "_call_"@ + crate::text::nat_digits(index)
                },
                None => rid + "_call_"@ + crate::text::nat_digits(index),
            };
            &&& it.call_id == Some(cid)
            &&& it.id == "fc_"@ + cid
            &&& it.name == Some(call_name_v(tc))
            &&& it.status == status
            &&& (vget_str(tc, "type"@) is None || vget_str(tc, "type"@) == Some("function"@)) ==> it.item_type
                == "function_call"@
        }),
{
}

} // verus!

verus! {

proof fn lemma_usage_counts(p: i64, c: i64, t: i64, pd: JsonV, cd: JsonV, idt: JsonV, od: JsonV)
    ensures
        ({
            let u = crate::dto::usage_out_json_v(p, c, t, pd, cd, idt, od);
            &&& vget(u, "prompt_tokens"@) == Some(crate::dto::int_v(p))
            &&& vget(u, "input_tokens"@) == Some(crate::dto::int_v(p))
            &&& vget(u, "completion_tokens"@) == Some(crate::dto::int_v(c))
            &&& vget(u, "output_tokens"@) == Some(crate::dto::int_v(c))
            &&& vget(u, "total_tokens"@) == Some(crate::dto::int_v(t))
        }),
{
    reveal_strlit("prompt_tokens");
    reveal_strlit("completion_tokens");
    reveal_strlit("total_tokens");
    reveal_strlit("prompt_tokens_details");
    reveal_strlit("completion_tokens_details");
    reveal_strlit("input_tokens");
    reveal_strlit("output_tokens");
    reveal_strlit("input_tokens_details");
    reveal_strlit("output_tokens_details");
    let u = crate::dto::usage_out_json_v(p, c, t, pd, cd, idt, od);
    let fs = match u {
        JsonV::Object(fs) => fs,
        _ => Seq::empty(),
    };
    assert forall|j: int| 0 <= j < 5 implies fs[j].0 != "input_tokens"@ by {
        assert(fs[j].0.len() != 12 || fs[j].0[0] != 'i');
    }
    assert forall|j: int| 0 <= j < 6 implies fs[j].0 != "output_tokens"@ by {
        assert(fs[j].0.len() != 13 || fs[j].0[0] != 'o');
    }
    crate::json::lemma_field_at(fs, "prompt_tokens"@, 0);
    assert(fs[0].0 != "completion_tokens"@) by {
        assert(fs[0].0.len() != "completion_tokens"@.len());
    }
    crate::json::lemma_field_at(fs, "completion_tokens"@, 1);
    assert(fs[0].0 != "total_tokens"@ && fs[1].0 != "total_tokens"@) by {
        assert(fs[0].0.len() != "total_tokens"@.len());
        assert(fs[1].0.len() != "total_tokens"@.len());
    }
    crate::json::lemma_field_at(fs, "total_tokens"@, 2);
    crate::json::lemma_field_at(fs, "input_tokens"@, 5);
    crate::json::lemma_field_at(fs, "output_tokens"@, 6);
}

/// The usage of a converted response: with an upstream usage object, the
/// input count is its `prompt_tokens` (else `input_tokens`) and the output
/// count its `completion_tokens` (else `output_tokens`), each under both
/// names; without one, every count is zero.
pub proof fn law_response_usage(resp: JsonV, id: Seq<char>, fallback_created: i64, c: CtxV)
    ensures
        ({
            let out = chat_to_responses(resp, id, fallback_created, c);
            let u = vget(out, "usage"@);
            &&& u is Some
            &&& (vget(resp, "usage"@) matches Some(JsonV::Object(_))) ==> ({
                let uv = vget(resp, "usage"@)->Some_0;
                let input = match crate::dto::field_i64(uv, "prompt_tokens"@) {
                    Some(x) => x,
                    None => match crate::dto::field_i64(uv, "input_tokens"@) {
                        Some(y) => y,
                        None => 0,
                    },
                };
                let output = match crate::dto::field_i64(uv, "completion_tokens"@) {
                    Some(x) => x,
                    None => match crate::dto::field_i64(uv, "output_tokens"@) {
                        Some(y) => y,
                        None => 0,
                    },
                };
                &&& vget(u->Some_0, "input_tokens"@) == Some(crate::dto::int_v(input))
                &&& vget(u->Some_0, "prompt_tokens"@) == Some(crate::dto::int_v(input))
                &&& vget(u->Some_0, "output_tokens"@) == Some(crate::dto::int_v(output))
                &&& vget(u->Some_0, "completion_tokens"@) == Some(crate::dto::int_v(output))
            })
            &&& !(vget(resp, "usage"@) matches Some(JsonV::Object(_))) ==> vget(u->Some_0, "input_tokens"@)
                == Some(crate::dto::int_v(0)) && vget(u->Some_0, "output_tokens"@) == Some(crate::dto::int_v(0))
        }),
{
    reveal_strlit("id");
    reveal_strlit("object");
    reveal_strlit("created_at");
    reveal_strlit("status");
    reveal_strlit("error");
    reveal_strlit("incomplete_details");
    reveal_strlit("model");
    reveal_strlit("output");
    reveal_strlit("usage");
    let out = chat_to_responses(resp, id, fallback_created, c);
    let fs = match out {
        JsonV::Object(fs) => fs,
        _ => Seq::empty(),
    };
    let n = fs.len() as int;
    assert(fs[n - 1].0 == "usage"@);
    assert forall|j: int| 0 <= j < n - 1 implies fs[j].0 != "usage"@ by {
        assert(fs[j].0.len() != 5 || fs[j].0[0] != 'u');
    }
    crate::json::lemma_field_at(fs, "usage"@, n - 1);
    match vget(resp, "usage"@) {
        Some(JsonV::Object(_)) => {
            let uv = crate::dto::usage_of(vget(resp, "usage"@)->Some_0);
            lemma_usage_counts(
                crate::dto::usage_input(uv),
                crate::dto::usage_output(uv),
                crate::dto::usage_total(uv),
                match uv.prompt_tokens_details {
                    Some(d) => d,
                    None => crate::dto::zero_prompt_details_v(),
                },
                match uv.completion_tokens_details {
                    Some(d) => d,
                    None => crate::dto::zero_completion_details_v(),
                },
                match crate::dto::input_details_v(uv) {
                    Some(d) => d,
                    None => crate::dto::zero_cached_v(),
                },
                crate::dto::output_details_v(uv.completion_tokens_details),
            );
        },
        _ => {
            lemma_usage_counts(
                0,
                0,
                0,
                crate::dto::zero_prompt_details_v(),
                crate::dto::zero_completion_details_v(),
                crate::dto::zero_cached_v(),
                crate::dto::zero_completion_details_v(),
            );
        },
    }
}

} // verus!
