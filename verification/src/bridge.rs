//! Helpers of the Responses ⇄ Chat bridge: when to convert, how a Chat
//! finish reason maps to a Responses status, input role normalisation,
//! reasoning accumulation, tool-call key resolution for index-less stream
//! frames, and error message compaction.
use vstd::prelude::*;

use crate::codec::{json_parse, json_text, parse_json, to_json_bytes};
use crate::json::{deep_clone, fields_view, lemma_object_view, vget, vget_str, Json, JsonNumber, JsonV, NumV};
use crate::prime::{body_kind, classify_upstream_body};
use crate::proxy::{error_suffix, uuid_hyphenated, Provider, UpstreamErrorContext};
use crate::sse::utf8_lossy;
use crate::text::{
    nat_digits, push_str, u64_digits, cap, chars_of, eq_ignore_ascii_case, eq_ignore_ascii_case_exec, is, join, join_exec, owned,
    push_all, split_whitespace, string_from, take_chars, trim, trim_chars, trim_end, trim_end_chars,
    words,
};

verus! {

/// The upstream speaks `/v1/responses` itself (`api_type` is
/// `openai-responses`, ASCII case ignored).
pub open spec fn native_responses(api_type: Seq<char>) -> bool {
    eq_ignore_ascii_case(api_type, "openai-responses"@)
}

pub fn provider_native_responses(p: &Provider) -> (r: bool)
    ensures
        r == native_responses(p.api_type@),
{
    eq_ignore_ascii_case_exec(chars_of(p.api_type.as_str()).as_slice(), "openai-responses")
}

/// A `/v1/responses` request to an upstream that does not speak it is
/// converted to Chat.
pub fn should_convert(endpoint_responses: bool, provider: &Provider) -> (r: bool)
    ensures
        r == (endpoint_responses && !native_responses(provider.api_type@)),
{
    endpoint_responses && !provider_native_responses(provider)
}

/// Why a response stopped short.
pub struct IncompleteDetailsOut {
    pub reason: String,
}

/// Responses status for a Chat finish reason (trimmed): `length`,
/// `max_tokens`, `token_limit` give `incomplete` for `max_output_tokens`;
/// `content_filter` gives `incomplete` for `content_filter`; anything else
/// is `completed`.
pub open spec fn finish_status(finish_reason: Seq<char>) -> (Seq<char>, Option<Seq<char>>) {
    let f = trim(finish_reason);
    if f == "length"@ || f == "max_tokens"@ || f == "token_limit"@ {
        ("incomplete"@, Some("max_output_tokens"@))
    } else if f == "content_filter"@ {
        ("incomplete"@, Some("content_filter"@))
    } else {
        ("completed"@, None)
    }
}

pub fn finish_reason_to_status(finish_reason: &str) -> (r: (String, Option<IncompleteDetailsOut>))
    ensures
        r.0@ == finish_status(finish_reason@).0,
        r.1 matches Some(d) ==> finish_status(finish_reason@).1 == Some(d.reason@),
        r.1 is None ==> finish_status(finish_reason@).1 is None,
{
    let f = trim_chars(chars_of(finish_reason).as_slice());
    let fs = f.as_slice();
    if is(fs, "length") || is(fs, "max_tokens") || is(fs, "token_limit") {
        (owned("incomplete"), Some(IncompleteDetailsOut { reason: owned("max_output_tokens") }))
    } else if is(fs, "content_filter") {
        (owned("incomplete"), Some(IncompleteDetailsOut { reason: owned("content_filter") }))
    } else {
        (owned("completed"), None)
    }
}

/// Role of a Responses input item for Chat: the trimmed role when it is
/// `user`, `assistant` or `system`; otherwise `user`. Only those three
/// roles are let through.
pub open spec fn input_role(role: Option<Seq<char>>) -> Seq<char> {
    match role {
        Some(r) => if trim(r) == "user"@ || trim(r) == "assistant"@ || trim(r) == "system"@ {
            trim(r)
        } else {
            "user"@
        },
        None => "user"@,
    }
}

pub fn normalize_input_role(role: Option<&str>) -> (r: String)
    ensures
        r@ == input_role(
            match role {
                Some(s) => Some(s@),
                None => None,
            },
        ),
{
    match role {
        Some(s) => {
            let t = trim_chars(chars_of(s).as_slice());
            let ts = t.as_slice();
            if is(ts, "user") {
                owned("user")
            } else if is(ts, "assistant") {
                owned("assistant")
            } else if is(ts, "system") {
                owned("system")
            } else {
                owned("user")
            }
        },
        None => owned("user"),
    }
}

/// Reasoning text gathered so far with `text` added: blank text changes
/// nothing; otherwise it starts the text or follows it after a newline.
pub open spec fn pending_after(pending: Option<Seq<char>>, text: Option<Seq<char>>) -> Option<
    Seq<char>,
> {
    match text {
        Some(t) => if trim(t).len() == 0 {
            pending
        } else {
            match pending {
                Some(p) => Some(p + seq!['\n'] + t),
                None => Some(t),
            }
        },
        None => pending,
    }
}

pub open spec fn opt_view(o: Option<String>) -> Option<Seq<char>> {
    match o {
        Some(s) => Some(s@),
        None => None,
    }
}

pub fn append_pending_reasoning(pending: &mut Option<String>, text: Option<String>)
    ensures
        opt_view(*final(pending)) == pending_after(opt_view(*old(pending)), opt_view(text)),
{
    let t = match text {
        Some(t) => t,
        None => return,
    };
    if trim_chars(chars_of(t.as_str()).as_slice()).len() == 0 {
        return;
    }
    let next = match pending {
        Some(p) => {
            let mut c = chars_of(p.as_str());
            c.push('\n');
            push_all(&mut c, chars_of(t.as_str()).as_slice());
            string_from(c.as_slice())
        },
        None => t,
    };
    *pending = Some(next);
}

/// Key of a streamed tool call whose frame has no `index`: a frame with a
/// new, non-blank id opens a call after the largest key seen (or after the
/// last key; the key stays where it cannot grow); a known id goes back to
/// its call; a frame without id continues the last call (key 0 when none).
pub open spec fn no_index_key(
    id: Option<Seq<char>>,
    key_for_id: Option<i64>,
    last_key: Option<i64>,
    max_key: Option<i64>,
) -> i64 {
    let id_present = match id {
        Some(s) => trim(s).len() > 0,
        None => false,
    };
    if id_present {
        match key_for_id {
            Some(k) => k,
            None => match (if max_key is Some { max_key } else { last_key }) {
                Some(k) => if k < i64::MAX {
                    (k + 1) as i64
                } else {
                    k
                },
                None => 0,
            },
        }
    } else {
        match last_key {
            Some(k) => k,
            None => 0,
        }
    }
}

pub fn resolve_no_index_tool_key(
    id: Option<&str>,
    key_for_id: Option<i64>,
    last_key: Option<i64>,
    max_key: Option<i64>,
) -> (r: i64)
    ensures
        r == no_index_key(
            match id {
                Some(s) => Some(s@),
                None => None,
            },
            key_for_id,
            last_key,
            max_key,
        ),
{
    let id_present = match id {
        Some(s) => trim_chars(chars_of(s).as_slice()).len() > 0,
        None => false,
    };
    if id_present {
        match key_for_id {
            Some(k) => k,
            None => {
                let base = match max_key {
                    Some(m) => Some(m),
                    None => last_key,
                };
                match base {
                    Some(k) => match k.checked_add(1) {
                        Some(n) => n,
                        None => k,
                    },
                    None => 0,
                }
            },
        }
    } else {
        match last_key {
            Some(k) => k,
            None => 0,
        }
    }
}

/// A streamed Chat tool-call fragment.
pub struct ToolCallDelta {
    pub index: Option<i64>,
    pub id: Option<String>,
    /// The call's `type` (only `function` is produced).
    pub call_type: Option<String>,
    pub function: Option<FunctionDelta>,
}

/// The function part of a streamed tool-call fragment.
pub struct FunctionDelta {
    pub name: Option<String>,
    pub arguments: Option<String>,
}

/// Error text with white-space runs collapsed to single spaces and the ends
/// trimmed; longer than `max_chars` characters, it is cut there and its
/// trailing white space dropped.
pub open spec fn compacted(message: Seq<char>, max_chars: nat) -> Seq<char> {
    let n = join(words(message), " "@);
    if n.len() <= max_chars {
        n
    } else {
        trim_end(n.take(max_chars as int))
    }
}

pub fn compact_error_message(message: &str, max_chars: usize) -> (r: String)
    ensures
        r@ == compacted(message@, max_chars as nat),
{
    let ws = split_whitespace(chars_of(message).as_slice());
    let sep = chars_of(" ");
    let n = join_exec(&ws, sep.as_slice());
    if n.len() <= max_chars {
        return string_from(n.as_slice());
    }
    let cut = take_chars(n.as_slice(), max_chars);
    string_from(trim_end_chars(cut.as_slice()).as_slice())
}

} // verus!

verus! {

// ---------------------------------------------------------------------------
// Upstream error bodies reshaped for Responses clients
// ---------------------------------------------------------------------------
/// Longest message (in characters) kept in a reshaped error.
pub const MAX_MESSAGE_CHARS: usize = 1800;

/// `j[a][b]`.
pub open spec fn vget2(j: JsonV, a: Seq<char>, b: Seq<char>) -> Option<JsonV> {
    match vget(j, a) {
        Some(x) => vget(x, b),
        None => None,
    }
}

pub open spec fn as_text(o: Option<JsonV>) -> Option<Seq<char>> {
    match o {
        Some(JsonV::Str(s)) => Some(s),
        _ => None,
    }
}

/// `upstream_http_<status>`.
pub open spec fn status_code_text(status: u16) -> Seq<char> {
    "upstream_http_"@ + nat_digits(status as nat)
}

/// The message of a JSON error body: `base_resp.message` (else
/// `base_resp.error.message`) when that is a string, then
/// `error.message`, `message`, `error`, `detail`, the first that is a
/// string; else a sentence naming the status.
pub open spec fn reshape_message(status: u16, v: JsonV) -> Seq<char> {
    let from_base = match vget(v, "base_resp"@) {
        Some(b) => as_text(
            if vget(b, "message"@) is Some {
                vget(b, "message"@)
            } else {
                vget2(b, "error"@, "message"@)
            },
        ),
        None => None,
    };
    if from_base is Some {
        from_base.unwrap()
    } else if as_text(vget2(v, "error"@, "message"@)) is Some {
        as_text(vget2(v, "error"@, "message"@)).unwrap()
    } else if vget_str(v, "message"@) is Some {
        vget_str(v, "message"@).unwrap()
    } else if vget_str(v, "error"@) is Some {
        vget_str(v, "error"@).unwrap()
    } else if vget_str(v, "detail"@) is Some {
        vget_str(v, "detail"@).unwrap()
    } else {
        "upstream returned HTTP "@ + nat_digits(status as nat) + " with unconvertible body"@
    }
}

/// A string or an integer.
pub open spec fn str_or_integer(c: JsonV) -> bool {
    match c {
        JsonV::Str(_) => true,
        JsonV::Number(NumV::PosInt(_)) => true,
        JsonV::Number(NumV::NegInt(_)) => true,
        _ => false,
    }
}

/// The code of a JSON error body: `base_resp.code` when present, else
/// `error.code`, kept when it is a string or an integer; else
/// `upstream_http_<status>`.
pub open spec fn reshape_code(status: u16, v: JsonV) -> JsonV {
    let c = match vget(v, "base_resp"@) {
        Some(b) => vget(b, "code"@),
        None => None,
    };
    let c2 = if c is Some {
        c
    } else {
        vget2(v, "error"@, "code"@)
    };
    match c2 {
        Some(x) => if str_or_integer(x) {
            x
        } else {
            JsonV::Str(status_code_text(status))
        },
        None => JsonV::Str(status_code_text(status)),
    }
}

/// `base_resp.param` when present, else `error.param`.
pub open spec fn reshape_param(v: JsonV) -> Option<JsonV> {
    let p = match vget(v, "base_resp"@) {
        Some(b) => vget(b, "param"@),
        None => None,
    };
    if p is Some {
        p
    } else {
        vget2(v, "error"@, "param"@)
    }
}

/// The diagnostic fields every reshaped error carries.
pub open spec fn diagnostic_fields(status: u16, body: Seq<u8>, ctx: UpstreamErrorContext) -> Seq<
    (Seq<char>, JsonV),
> {
    seq![
        ("upstream_status"@, JsonV::Number(NumV::PosInt(status as u64))),
        ("body_type"@, JsonV::Str(body_kind(body))),
        ("provider"@, JsonV::Str(ctx.provider@)),
        ("model"@, JsonV::Str(ctx.model@)),
        ("request_id"@, JsonV::Str(uuid_hyphenated(ctx.request_id))),
    ]
}

/// The start of a body that is not JSON, as text: at most its first 1024
/// bytes read leniently as UTF-8, trimmed.
pub open spec fn body_head_text(body: Seq<u8>) -> Seq<char> {
    trim(utf8_lossy(body.take(if body.len() <= 1024 { body.len() as int } else { 1024 })))
}

/// The error object for an upstream body: `parsed` is the body read as
/// JSON (`None` for a body that is not JSON).
pub open spec fn reshaped_error(
    status: u16,
    body: Seq<u8>,
    parsed: Option<JsonV>,
    ctx: UpstreamErrorContext,
) -> JsonV {
    let fields = match parsed {
        None => {
            let text = body_head_text(body);
            let message = if text.len() == 0 {
                "upstream returned HTTP "@ + nat_digits(status as nat) + " with non-JSON body"@
            } else {
                text
            };
            seq![
                ("message"@, JsonV::Str(compacted(message + error_suffix(ctx), 1800))),
                ("type"@, JsonV::Str("upstream_error"@)),
                ("code"@, JsonV::Str(status_code_text(status))),
            ] + diagnostic_fields(status, body, ctx)
        },
        Some(v) => {
            let head = seq![
                (
                    "message"@,
                    JsonV::Str(compacted(reshape_message(status, v) + error_suffix(ctx), 1800)),
                ),
                ("type"@, JsonV::Str("upstream_error"@)),
                ("code"@, reshape_code(status, v)),
            ] + diagnostic_fields(status, body, ctx);
            match reshape_param(v) {
                Some(p) => head.push(("param"@, p)),
                None => head,
            }
        },
    };
    JsonV::Object(seq![("error"@, JsonV::Object(fields))])
}

fn get2<'a>(j: &'a Json, a: &str, b: &str) -> (r: Option<&'a Json>)
    ensures
        match r {
            Some(x) => vget2(j@, a@, b@) == Some(x@),
            None => vget2(j@, a@, b@) is None,
        },
{
    match j.get(a) {
        Some(x) => x.get(b),
        None => None,
    }
}

fn status_text(prefix: &str, status: u16, suffix: &str) -> (r: String)
    ensures
        r@ == prefix@ + nat_digits(status as nat) + suffix@,
{
    let mut v: Vec<char> = Vec::new();
    push_str(&mut v, prefix);
    push_all(&mut v, u64_digits(status as u64).as_slice());
    push_str(&mut v, suffix);
    string_from(v.as_slice())
}

fn status_code_string(status: u16) -> (r: String)
    ensures
        r@ == status_code_text(status),
{
    let mut v: Vec<char> = Vec::new();
    push_str(&mut v, "upstream_http_");
    push_all(&mut v, u64_digits(status as u64).as_slice());
    string_from(v.as_slice())
}

fn reshape_message_exec(status: u16, v: &Json) -> (r: String)
    ensures
        r@ == reshape_message(status, v@),
{
    if let Some(b) = v.get("base_resp") {
        let m = if b.get("message").is_some() {
            b.get("message")
        } else {
            get2(b, "error", "message")
        };
        if let Some(Json::Str(s)) = m {
            return s.clone();
        }
    }
    if let Some(Json::Str(s)) = get2(v, "error", "message") {
        return s.clone();
    }
    if let Some(s) = v.get_str("message") {
        return s.clone();
    }
    if let Some(s) = v.get_str("error") {
        return s.clone();
    }
    if let Some(s) = v.get_str("detail") {
        return s.clone();
    }
    status_text("upstream returned HTTP ", status, " with unconvertible body")
}

fn reshape_code_exec(status: u16, v: &Json) -> (r: Json)
    ensures
        r@ == reshape_code(status, v@),
{
    let c = match v.get("base_resp") {
        Some(b) => b.get("code"),
        None => None,
    };
    let c2 = if c.is_some() {
        c
    } else {
        get2(v, "error", "code")
    };
    match c2 {
        Some(x) => {
            let keep = match x {
                Json::Str(_) => true,
                Json::Number(JsonNumber::PosInt(_)) => true,
                Json::Number(JsonNumber::NegInt(_)) => true,
                _ => false,
            };
            assert(keep == str_or_integer(x@));
            if keep {
                deep_clone(x)
            } else {
                Json::Str(status_code_string(status))
            }
        },
        None => Json::Str(status_code_string(status)),
    }
}

fn reshape_param_exec(v: &Json) -> (r: Option<Json>)
    ensures
        match r {
            Some(x) => reshape_param(v@) == Some(x@),
            None => reshape_param(v@) is None,
        },
{
    let p = match v.get("base_resp") {
        Some(b) => b.get("param"),
        None => None,
    };
    let p2 = if p.is_some() {
        p
    } else {
        get2(v, "error", "param")
    };
    match p2 {
        Some(x) => Some(deep_clone(x)),
        None => None,
    }
}

fn concat_str(a: &String, b: &String) -> (r: String)
    ensures
        r@ == a@ + b@,
{
    let mut v = chars_of(a.as_str());
    push_all(&mut v, chars_of(b.as_str()).as_slice());
    string_from(v.as_slice())
}

/// The error object sent to a Responses client for an upstream error body,
/// given the body as read as JSON (`parsed`, `None` when it is not JSON).
pub fn upstream_error_object(
    status: u16,
    body: &[u8],
    parsed: Option<&Json>,
    ctx: &UpstreamErrorContext,
) -> (r: Json)
    ensures
        r@ == reshaped_error(
            status,
            body@,
            match parsed {
                Some(p) => Some(p@),
                None => None,
            },
            *ctx,
        ),
{
    let suffix = ctx.message_suffix();
    let mut fields: Vec<(String, Json)> = Vec::new();
    let (message, code) = match parsed {
        None => {
            let n: usize = if body.len() <= 1024 {
                body.len()
            } else {
                1024
            };
            let head = crate::sse::lossy_text(slice_bytes(body, n).as_slice());
            let text = trim_chars(chars_of(head.as_str()).as_slice());
            assert(body@.take(n as int) =~= body@.subrange(0, n as int));
            let message = if text.len() == 0 {
                status_text("upstream returned HTTP ", status, " with non-JSON body")
            } else {
                string_from(text.as_slice())
            };
            (message, Json::Str(status_code_string(status)))
        },
        Some(v) => (reshape_message_exec(status, v), reshape_code_exec(status, v)),
    };
    let full = concat_str(&message, &suffix);
    fields.push((owned("message"), Json::Str(compact_error_message(full.as_str(), MAX_MESSAGE_CHARS))));
    fields.push((owned("type"), Json::Str(owned("upstream_error"))));
    fields.push((owned("code"), code));
    fields.push((owned("upstream_status"), Json::Number(JsonNumber::PosInt(status as u64))));
    fields.push((owned("body_type"), Json::Str(owned(classify_upstream_body(body)))));
    fields.push((owned("provider"), Json::Str(ctx.provider.clone())));
    fields.push((owned("model"), Json::Str(ctx.model.clone())));
    fields.push((owned("request_id"), Json::Str(ctx.request_id_text())));
    let ghost base = fields_view(fields@);
    assert(base =~= seq![
        ("message"@, JsonV::Str(compacted(message@ + error_suffix(*ctx), 1800))),
        ("type"@, JsonV::Str("upstream_error"@)),
        ("code"@, code@),
    ] + diagnostic_fields(status, body@, *ctx));
    match parsed {
        Some(v) => {
            match reshape_param_exec(v) {
                Some(p) => {
                    fields.push((owned("param"), p));
                    assert(fields_view(fields@) =~= base.push(("param"@, reshape_param(v@).unwrap())));
                },
                None => {},
            }
        },
        None => {},
    }
    let ghost fv = fields_view(fields@);
    proof {
        lemma_object_view(fields);
    }
    let mut outer: Vec<(String, Json)> = Vec::new();
    outer.push((owned("error"), Json::Object(fields)));
    proof {
        lemma_object_view(outer);
    }
    assert(fields_view(outer@) =~= seq![("error"@, JsonV::Object(fv))]);
    Json::Object(outer)
}

fn slice_bytes(b: &[u8], n: usize) -> (r: Vec<u8>)
    requires
        n <= b@.len(),
    ensures
        r@ == b@.subrange(0, n as int),
{
    let mut r: Vec<u8> = Vec::new();
    let mut i: usize = 0;
    while i < n
        invariant
            i <= n <= b@.len(),
            r@ == b@.subrange(0, i as int),
        decreases n - i,
    {
        r.push(b[i]);
        i = i + 1;
        assert(r@ =~= b@.subrange(0, i as int));
    }
    r
}

/// An upstream error body (a Chat error, or a body without usable
/// choices) rewritten as an OpenAI error object, `{"error": {message,
/// type, code, …}}`, with the message compacted to 1800 characters and the
/// provider, model and request id appended.
pub fn reshape_upstream_error_for_responses(status: u16, body: &[u8], ctx: &UpstreamErrorContext) -> (r: Vec<u8>)
    ensures
        r@ == json_text(reshaped_error(status, body@, json_parse(body@), *ctx)),
{
    let parsed = parse_json(body);
    let obj = match &parsed {
        Some(v) => upstream_error_object(status, body, Some(v), ctx),
        None => upstream_error_object(status, body, None, ctx),
    };
    to_json_bytes(&obj)
}

} // verus!

verus! {

/// A Responses input role becomes one of `user`, `assistant`, `system`:
/// the role itself, trimmed, when it is one of them, else `user`.
pub proof fn law_input_role(role: Option<Seq<char>>)
    ensures
        input_role(role) == "user"@ || input_role(role) == "assistant"@ || input_role(role) == "system"@,
        role is Some && (trim(role->Some_0) == "user"@ || trim(role->Some_0) == "assistant"@ || trim(
            role->Some_0,
        ) == "system"@) ==> input_role(role) == trim(role->Some_0),
        role is None ==> input_role(role) == "user"@,
{
}

} // verus!
