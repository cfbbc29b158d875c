//! Lenient reading of upstream Chat payloads: a stream chunk whose fields
//! may come in the wrong JSON type (numbers as strings, objects for text),
//! token usage in both dialects, and the text of a delta.
use vstd::prelude::*;

use crate::bridge::{FunctionDelta, ToolCallDelta};
use crate::codec::{json_parse, json_string, parse_json, to_json_string};
use crate::json::{deep_clone, elems_view, vget, vget_arr, vget_str, Json, JsonNumber, JsonV, NumV};
use crate::text::{
    chars_of, i64_decimal, int_decimal, is, join, join_exec, nat_digits, owned, parse_i64,
    parse_i64_exec, push_all, string_from, trim, trim_chars, u64_digits, utf8, utf8_bytes,
};

verus! {

// ---------------------------------------------------------------------------
// Lenient scalars
// ---------------------------------------------------------------------------
/// Decimal text of a JSON number, as serde_json writes it.
pub open spec fn num_text(n: NumV) -> Seq<char> {
    match n {
        NumV::PosInt(u) => nat_digits(u as nat),
        NumV::NegInt(i) => int_decimal(i as int),
        NumV::Float(s) => s,
    }
}

fn num_text_exec(n: &JsonNumber) -> (r: Vec<char>)
    ensures
        r@ == num_text(crate::json::num_view(*n)),
{
    match n {
        JsonNumber::PosInt(u) => u64_digits(*u),
        JsonNumber::NegInt(i) => i64_decimal(*i),
        JsonNumber::Float(s) => chars_of(s.as_str()),
    }
}

/// Text of a field that should be a string: a string, the text of a
/// number or boolean, or the string `text` (else `content`) of an object.
pub open spec fn lenient_text(v: JsonV) -> Option<Seq<char>> {
    match v {
        JsonV::Str(s) => Some(s),
        JsonV::Number(n) => Some(num_text(n)),
        JsonV::Bool(b) => Some(
            if b {
                "true"@
            } else {
                "false"@
            },
        ),
        JsonV::Object(_) => match (if vget(v, "text"@) is Some {
            vget(v, "text"@)
        } else {
            vget(v, "content"@)
        }) {
            Some(JsonV::Str(t)) => Some(t),
            _ => None,
        },
        _ => None,
    }
}

fn lenient_text_exec(v: &Json) -> (r: Option<String>)
    ensures
        r matches Some(s) ==> lenient_text(v@) == Some(s@),
        r is None ==> lenient_text(v@) is None,
{
    match v {
        Json::Str(s) => Some(s.clone()),
        Json::Number(n) => Some(string_from(num_text_exec(n).as_slice())),
        Json::Bool(b) => Some(
            if *b {
                owned("true")
            } else {
                owned("false")
            },
        ),
        Json::Object(_) => {
            let t = match v.get("text") {
                Some(t) => Some(t),
                None => v.get("content"),
            };
            match t {
                Some(Json::Str(s)) => Some(s.clone()),
                _ => None,
            }
        },
        _ => None,
    }
}

/// Name for the integer a float's decimal text truncates to, as
/// serde_json reads the text as a number and Rust casts it (toward zero,
/// saturating at the `i64` bounds).
pub uninterp spec fn float_text_trunc(s: Seq<char>) -> Option<i64>;

/// Reads the text as a `serde_json::Number` and truncates its `as_f64`
/// value to `i64`; the result is named by `float_text_trunc`.
#[verifier::external_body]
fn float_text_to_i64(s: &str) -> (r: Option<i64>)
    ensures
        r == float_text_trunc(s@),
{
    s.parse::<serde_json::Number>().ok().and_then(|n| n.as_f64()).map(|x| x as i64)
}

/// An integer field in any numeric shape: integers as they are (those
/// past `i64::MAX` saturate), floats truncated, strings parsed.
pub open spec fn lenient_i64(v: JsonV) -> Option<i64> {
    match v {
        JsonV::Number(NumV::PosInt(u)) => if u <= i64::MAX {
            Some(u as i64)
        } else {
            Some(i64::MAX)
        },
        JsonV::Number(NumV::NegInt(i)) => Some(i),
        JsonV::Number(NumV::Float(s)) => float_text_trunc(s),
        JsonV::Str(s) => parse_i64(trim(s)),
        _ => None,
    }
}

fn lenient_i64_exec(v: &Json) -> (r: Option<i64>)
    ensures
        r == lenient_i64(v@),
{
    match v {
        Json::Number(JsonNumber::PosInt(u)) => if *u <= 9223372036854775807u64 {
            Some(*u as i64)
        } else {
            Some(i64::MAX)
        },
        Json::Number(JsonNumber::NegInt(i)) => Some(*i),
        Json::Number(JsonNumber::Float(s)) => float_text_to_i64(s.as_str()),
        Json::Str(s) => parse_i64_exec(trim_chars(chars_of(s.as_str()).as_slice()).as_slice()),
        _ => None,
    }
}

pub open spec fn field_i64(v: JsonV, key: Seq<char>) -> Option<i64> {
    match vget(v, key) {
        Some(x) => lenient_i64(x),
        None => None,
    }
}

fn field_i64_exec(v: &Json, key: &str) -> (r: Option<i64>)
    ensures
        r == field_i64(v@, key@),
{
    match v.get(key) {
        Some(x) => lenient_i64_exec(x),
        None => None,
    }
}

pub open spec fn field_text(v: JsonV, key: Seq<char>) -> Option<Seq<char>> {
    match vget(v, key) {
        Some(x) => lenient_text(x),
        None => None,
    }
}

fn field_text_exec(v: &Json, key: &str) -> (r: Option<String>)
    ensures
        r matches Some(s) ==> field_text(v@, key@) == Some(s@),
        r is None ==> field_text(v@, key@) is None,
{
    match v.get(key) {
        Some(x) => lenient_text_exec(x),
        None => None,
    }
}

/// A field that is present and not `null`.
pub open spec fn present_v(v: Option<JsonV>) -> bool {
    match v {
        Some(JsonV::Null) => false,
        Some(_) => true,
        None => false,
    }
}

pub fn present(v: Option<&Json>) -> (r: bool)
    ensures
        r == present_v(
            match v {
                Some(x) => Some(x@),
                None => None,
            },
        ),
{
    match v {
        Some(Json::Null) => false,
        Some(_) => true,
        None => false,
    }
}

/// Any JSON value as a string: a string as it is, `null` empty, numbers
/// and booleans as text, other values as JSON text.
pub open spec fn value_string(v: JsonV) -> Seq<char> {
    match v {
        JsonV::Str(s) => s,
        JsonV::Null => Seq::empty(),
        JsonV::Number(n) => num_text(n),
        JsonV::Bool(b) => if b {
            "true"@
        } else {
            "false"@
        },
        _ => json_string(v),
    }
}

pub fn value_to_string(v: &Json) -> (r: String)
    ensures
        r@ == value_string(v@),
{
    match v {
        Json::Str(s) => s.clone(),
        Json::Null => String::new(),
        Json::Number(n) => string_from(num_text_exec(n).as_slice()),
        Json::Bool(b) => if *b {
            owned("true")
        } else {
            owned("false")
        },
        _ => to_json_string(v),
    }
}

/// Tool arguments as a string: a string as it is, `null` empty, anything
/// else as JSON text.
pub open spec fn args_string(v: JsonV) -> Seq<char> {
    match v {
        JsonV::Str(s) => s,
        JsonV::Null => Seq::empty(),
        _ => json_string(v),
    }
}

pub fn arguments_string(v: &Json) -> (r: String)
    ensures
        r@ == args_string(v@),
{
    match v {
        Json::Str(s) => s.clone(),
        Json::Null => String::new(),
        _ => to_json_string(v),
    }
}

/// Name of a JSON value's type.
pub fn json_type_name(v: &Json) -> (r: &'static str)
    ensures
        r@ == match v@ {
            JsonV::Null => "null"@,
            JsonV::Bool(_) => "boolean"@,
            JsonV::Number(_) => "number"@,
            JsonV::Str(_) => "string"@,
            JsonV::Array(_) => "array"@,
            JsonV::Object(_) => "object"@,
        },
{
    match v {
        Json::Null => "null",
        Json::Bool(_) => "boolean",
        Json::Number(_) => "number",
        Json::Str(_) => "string",
        Json::Array(_) => "array",
        Json::Object(_) => "object",
    }
}

// ---------------------------------------------------------------------------
// Usage
// ---------------------------------------------------------------------------
/// Token usage of an upstream answer, Chat and Responses field names alike.
pub struct Usage {
    pub prompt_tokens: Option<i64>,
    pub completion_tokens: Option<i64>,
    pub total_tokens: Option<i64>,
    pub input_tokens: Option<i64>,
    pub output_tokens: Option<i64>,
    pub prompt_tokens_details: Option<Json>,
    pub completion_tokens_details: Option<Json>,
    pub input_tokens_details: Option<Json>,
    pub cache_read_input_tokens: Option<i64>,
    pub cache_creation_input_tokens: Option<i64>,
    pub prompt_cache_hit_tokens: Option<i64>,
}

/// Token usage as plain values.
pub struct UsageV {
    pub prompt_tokens: Option<i64>,
    pub completion_tokens: Option<i64>,
    pub total_tokens: Option<i64>,
    pub input_tokens: Option<i64>,
    pub output_tokens: Option<i64>,
    pub prompt_tokens_details: Option<JsonV>,
    pub completion_tokens_details: Option<JsonV>,
    pub input_tokens_details: Option<JsonV>,
    pub cache_read_input_tokens: Option<i64>,
    pub cache_creation_input_tokens: Option<i64>,
    pub prompt_cache_hit_tokens: Option<i64>,
}

impl View for Usage {
    type V = UsageV;

    open spec fn view(&self) -> UsageV {
        UsageV {
            prompt_tokens: self.prompt_tokens,
            completion_tokens: self.completion_tokens,
            total_tokens: self.total_tokens,
            input_tokens: self.input_tokens,
            output_tokens: self.output_tokens,
            prompt_tokens_details: opt_json(self.prompt_tokens_details),
            completion_tokens_details: opt_json(self.completion_tokens_details),
            input_tokens_details: opt_json(self.input_tokens_details),
            cache_read_input_tokens: self.cache_read_input_tokens,
            cache_creation_input_tokens: self.cache_creation_input_tokens,
            prompt_cache_hit_tokens: self.prompt_cache_hit_tokens,
        }
    }
}

/// Usage read leniently from a JSON object (see `Usage::from_value_lenient`).
pub open spec fn usage_of(v: JsonV) -> UsageV {
    UsageV {
        prompt_tokens: field_i64(v, "prompt_tokens"@),
        completion_tokens: field_i64(v, "completion_tokens"@),
        total_tokens: field_i64(v, "total_tokens"@),
        input_tokens: field_i64(v, "input_tokens"@),
        output_tokens: field_i64(v, "output_tokens"@),
        prompt_tokens_details: object_field(v, "prompt_tokens_details"@),
        completion_tokens_details: object_field(v, "completion_tokens_details"@),
        input_tokens_details: object_field(v, "input_tokens_details"@),
        cache_read_input_tokens: field_i64(v, "cache_read_input_tokens"@),
        cache_creation_input_tokens: field_i64(v, "cache_creation_input_tokens"@),
        prompt_cache_hit_tokens: field_i64(v, "prompt_cache_hit_tokens"@),
    }
}

pub open spec fn opt_json(o: Option<Json>) -> Option<JsonV> {
    match o {
        Some(j) => Some(j@),
        None => None,
    }
}

/// A details object, when it is one.
pub open spec fn object_field(v: JsonV, key: Seq<char>) -> Option<JsonV> {
    match vget(v, key) {
        Some(JsonV::Object(fs)) => Some(JsonV::Object(fs)),
        _ => None,
    }
}

/// An integer of a details object (integers only, not strings).
pub open spec fn details_i64(details: Option<JsonV>, key: Seq<char>) -> Option<i64> {
    match details {
        Some(d) => match vget(d, key) {
            Some(JsonV::Number(NumV::PosInt(u))) => if u <= i64::MAX {
                Some(u as i64)
            } else {
                None
            },
            Some(JsonV::Number(NumV::NegInt(i))) => Some(i),
            _ => None,
        },
        None => None,
    }
}

pub open spec fn or_else_i64(a: Option<i64>, b: Option<i64>) -> Option<i64> {
    if a is Some {
        a
    } else {
        b
    }
}

pub open spec fn unwrap_or_zero(a: Option<i64>) -> i64 {
    match a {
        Some(x) => x,
        None => 0,
    }
}

fn object_field_exec(v: &Json, key: &str) -> (r: Option<Json>)
    ensures
        opt_json(r) == object_field(v@, key@),
{
    match v.get(key) {
        Some(x) => if x.is_object() {
            Some(deep_clone(x))
        } else {
            None
        },
        None => None,
    }
}

fn details_i64_exec(details: &Option<Json>, key: &str) -> (r: Option<i64>)
    ensures
        r == details_i64(opt_json(*details), key@),
{
    match details {
        Some(d) => match d.get(key) {
            Some(Json::Number(JsonNumber::PosInt(u))) => if *u <= 9223372036854775807u64 {
                Some(*u as i64)
            } else {
                None
            },
            Some(Json::Number(JsonNumber::NegInt(i))) => Some(*i),
            _ => None,
        },
        None => None,
    }
}

impl Usage {
    /// Usage from a JSON object, each count read leniently (see
    /// `lenient_i64`); a details field is kept only when it is an object.
    pub fn from_value_lenient(v: &Json) -> (u: Usage)
        ensures
            u@ == usage_of(v@),
            u.prompt_tokens == field_i64(v@, "prompt_tokens"@),
            u.completion_tokens == field_i64(v@, "completion_tokens"@),
            u.total_tokens == field_i64(v@, "total_tokens"@),
            u.input_tokens == field_i64(v@, "input_tokens"@),
            u.output_tokens == field_i64(v@, "output_tokens"@),
            opt_json(u.prompt_tokens_details) == object_field(v@, "prompt_tokens_details"@),
            opt_json(u.completion_tokens_details) == object_field(v@, "completion_tokens_details"@),
            opt_json(u.input_tokens_details) == object_field(v@, "input_tokens_details"@),
            u.cache_read_input_tokens == field_i64(v@, "cache_read_input_tokens"@),
            u.cache_creation_input_tokens == field_i64(v@, "cache_creation_input_tokens"@),
            u.prompt_cache_hit_tokens == field_i64(v@, "prompt_cache_hit_tokens"@),
    {
        Usage {
            prompt_tokens: field_i64_exec(v, "prompt_tokens"),
            completion_tokens: field_i64_exec(v, "completion_tokens"),
            total_tokens: field_i64_exec(v, "total_tokens"),
            input_tokens: field_i64_exec(v, "input_tokens"),
            output_tokens: field_i64_exec(v, "output_tokens"),
            prompt_tokens_details: object_field_exec(v, "prompt_tokens_details"),
            completion_tokens_details: object_field_exec(v, "completion_tokens_details"),
            input_tokens_details: object_field_exec(v, "input_tokens_details"),
            cache_read_input_tokens: field_i64_exec(v, "cache_read_input_tokens"),
            cache_creation_input_tokens: field_i64_exec(v, "cache_creation_input_tokens"),
            prompt_cache_hit_tokens: field_i64_exec(v, "prompt_cache_hit_tokens"),
        }
    }

    /// Input tokens: `prompt_tokens`, else `input_tokens`, else 0.
    pub fn input(&self) -> (r: i64)
        ensures
            r == unwrap_or_zero(or_else_i64(self.prompt_tokens, self.input_tokens)),
    {
        match self.prompt_tokens {
            Some(x) => x,
            None => match self.input_tokens {
                Some(x) => x,
                None => 0,
            },
        }
    }

    /// Output tokens: `completion_tokens`, else `output_tokens`, else 0.
    pub fn output(&self) -> (r: i64)
        ensures
            r == unwrap_or_zero(or_else_i64(self.completion_tokens, self.output_tokens)),
    {
        match self.completion_tokens {
            Some(x) => x,
            None => match self.output_tokens {
                Some(x) => x,
                None => 0,
            },
        }
    }

    /// Total tokens: `total_tokens`, else input plus output (saturating).
    pub fn total(&self) -> (r: i64)
        ensures
            r == match self.total_tokens {
                Some(t) => t,
                None => {
                    let s = unwrap_or_zero(or_else_i64(self.prompt_tokens, self.input_tokens))
                        + unwrap_or_zero(or_else_i64(self.completion_tokens, self.output_tokens));
                    if s > i64::MAX {
                        i64::MAX
                    } else if s < i64::MIN {
                        i64::MIN
                    } else {
                        s as i64
                    }
                },
            },
    {
        match self.total_tokens {
            Some(t) => t,
            None => {
                let s: i128 = self.input() as i128 + self.output() as i128;
                if s > i64::MAX as i128 {
                    i64::MAX
                } else if s < i64::MIN as i128 {
                    i64::MIN
                } else {
                    s as i64
                }
            },
        }
    }

    /// Cache-hit tokens: `cache_read_input_tokens`, else the `cached_tokens`
    /// of `input_tokens_details`, else of `prompt_tokens_details`, else
    /// `prompt_cache_hit_tokens`, else 0.
    pub fn cached_tokens(&self) -> (r: i64)
        ensures
            r == unwrap_or_zero(
                or_else_i64(
                    self.cache_read_input_tokens,
                    or_else_i64(
                        details_i64(opt_json(self.input_tokens_details), "cached_tokens"@),
                        or_else_i64(
                            details_i64(opt_json(self.prompt_tokens_details), "cached_tokens"@),
                            self.prompt_cache_hit_tokens,
                        ),
                    ),
                ),
            ),
    {
        if let Some(x) = self.cache_read_input_tokens {
            return x;
        }
        if let Some(x) = details_i64_exec(&self.input_tokens_details, "cached_tokens") {
            return x;
        }
        if let Some(x) = details_i64_exec(&self.prompt_tokens_details, "cached_tokens") {
            return x;
        }
        match self.prompt_cache_hit_tokens {
            Some(x) => x,
            None => 0,
        }
    }

    /// Cache-write tokens: `cache_creation_input_tokens`, else the
    /// `cache_write_tokens` of `input_tokens_details`, else of
    /// `prompt_tokens_details`, else 0.
    pub fn cache_write_tokens(&self) -> (r: i64)
        ensures
            r == unwrap_or_zero(
                or_else_i64(
                    self.cache_creation_input_tokens,
                    or_else_i64(
                        details_i64(opt_json(self.input_tokens_details), "cache_write_tokens"@),
                        details_i64(opt_json(self.prompt_tokens_details), "cache_write_tokens"@),
                    ),
                ),
            ),
    {
        if let Some(x) = self.cache_creation_input_tokens {
            return x;
        }
        if let Some(x) = details_i64_exec(&self.input_tokens_details, "cache_write_tokens") {
            return x;
        }
        match details_i64_exec(&self.prompt_tokens_details, "cache_write_tokens") {
            Some(x) => x,
            None => 0,
        }
    }
}

// ---------------------------------------------------------------------------
// Delta text
// ---------------------------------------------------------------------------
pub open spec fn nonblank(s: Option<Seq<char>>) -> bool {
    match s {
        Some(t) => trim(t).len() > 0,
        None => false,
    }
}

/// The first non-blank string among `content`, `text`, `summary` of an
/// object.
pub open spec fn object_reasoning(r: JsonV) -> Option<Seq<char>> {
    if nonblank(vget_str(r, "content"@)) {
        vget_str(r, "content"@)
    } else if nonblank(vget_str(r, "text"@)) {
        vget_str(r, "text"@)
    } else if nonblank(vget_str(r, "summary"@)) {
        vget_str(r, "summary"@)
    } else {
        None
    }
}

/// The non-blank `text` strings of reasoning detail parts.
pub open spec fn detail_texts(ps: Seq<JsonV>) -> Seq<Seq<char>>
    decreases ps.len(),
{
    if ps.len() == 0 {
        Seq::empty()
    } else {
        let r = detail_texts(ps.drop_last());
        if nonblank(vget_str(ps.last(), "text"@)) {
            r.push(vget_str(ps.last(), "text"@).unwrap())
        } else {
            r
        }
    }
}

/// Reasoning text of a delta: `reasoning_content`, then `reasoning` (as
/// text, or an object's `content` / `text` / `summary`), then
/// `reasoning_details` (a string, or the texts of its parts joined by
/// newlines); the first that is not blank.
pub open spec fn reasoning_text(d: JsonV) -> Option<Seq<char>> {
    if nonblank(field_text(d, "reasoning_content"@)) {
        field_text(d, "reasoning_content"@)
    } else {
        let from_reasoning = match vget(d, "reasoning"@) {
            Some(r) => match lenient_text(r) {
                Some(s) => if trim(s).len() > 0 {
                    Some(s)
                } else {
                    None
                },
                None => match r {
                    JsonV::Object(_) => object_reasoning(r),
                    _ => None,
                },
            },
            None => None,
        };
        if from_reasoning is Some {
            from_reasoning
        } else {
            match vget(d, "reasoning_details"@) {
                Some(JsonV::Str(s)) => if trim(s).len() > 0 {
                    Some(s)
                } else {
                    None
                },
                Some(JsonV::Array(ps)) => if detail_texts(ps).len() > 0 {
                    Some(join(detail_texts(ps), "\n"@))
                } else {
                    None
                },
                _ => None,
            }
        }
    }
}

pub(crate) fn nonblank_exec(s: &String) -> (r: bool)
    ensures
        r == (trim(s@).len() > 0),
{
    trim_chars(chars_of(s.as_str()).as_slice()).len() > 0
}

pub(crate) fn str_field_nonblank(v: &Json, key: &str) -> (r: Option<String>)
    ensures
        r matches Some(s) ==> nonblank(vget_str(v@, key@)) && vget_str(v@, key@) == Some(s@),
        r is None ==> !nonblank(vget_str(v@, key@)),
{
    match v.get_str(key) {
        Some(s) => if nonblank_exec(s) {
            Some(s.clone())
        } else {
            None
        },
        None => None,
    }
}

pub fn delta_reasoning_text(d: &Json) -> (r: Option<String>)
    ensures
        r matches Some(s) ==> reasoning_text(d@) == Some(s@),
        r is None ==> reasoning_text(d@) is None,
{
    match field_text_exec(d, "reasoning_content") {
        Some(s) => if nonblank_exec(&s) {
            return Some(s);
        },
        None => {},
    }
    match d.get("reasoning") {
        Some(r) => match lenient_text_exec(r) {
            Some(s) => if nonblank_exec(&s) {
                return Some(s);
            },
            None => if r.is_object() {
                if let Some(s) = str_field_nonblank(r, "content") {
                    return Some(s);
                }
                if let Some(s) = str_field_nonblank(r, "text") {
                    return Some(s);
                }
                if let Some(s) = str_field_nonblank(r, "summary") {
                    return Some(s);
                }
            },
        },
        None => {},
    }
    match d.get("reasoning_details") {
        Some(Json::Str(s)) => if nonblank_exec(s) {
            Some(s.clone())
        } else {
            None
        },
        Some(Json::Array(ps)) => {
            proof {
                crate::json::lemma_array_view(*ps);
            }
            let ghost pv = elems_view(ps@);
            let mut texts: Vec<Vec<char>> = Vec::new();
            let mut i: usize = 0;
            while i < ps.len()
                invariant
                    i <= ps@.len(),
                    pv == elems_view(ps@),
                    texts@.map_values(|w: Vec<char>| w@) == detail_texts(pv.take(i as int)),
                decreases ps@.len() - i,
            {
                proof {
                    assert(pv.take(i + 1).drop_last() =~= pv.take(i as int));
                    assert(pv.take(i + 1).last() == ps@[i as int]@);
                }
                let ghost before = texts@.map_values(|w: Vec<char>| w@);
                match str_field_nonblank(&ps[i], "text") {
                    Some(t) => {
                        let tc = chars_of(t.as_str());
                        texts.push(tc);
                        assert(texts@.map_values(|w: Vec<char>| w@) =~= before.push(t@));
                    },
                    None => {},
                }
                i = i + 1;
            }
            assert(pv.take(ps@.len() as int) =~= pv);
            if texts.len() > 0 {
                let nl = chars_of("\n");
                Some(string_from(join_exec(&texts, nl.as_slice()).as_slice()))
            } else {
                None
            }
        },
        _ => None,
    }
}

pub open spec fn text_part_type(p: JsonV) -> bool {
    let ty = match vget_str(p, "type"@) {
        Some(t) => t,
        None => "text"@,
    };
    ty == "text"@ || ty == "output_text"@ || ty == "input_text"@ || ty == "thinking"@
}

/// The texts of the text-like content parts, concatenated.
pub open spec fn parts_text(ps: Seq<JsonV>) -> Seq<char>
    decreases ps.len(),
{
    if ps.len() == 0 {
        Seq::empty()
    } else {
        let r = parts_text(ps.drop_last());
        if text_part_type(ps.last()) && vget_str(ps.last(), "text"@) is Some {
            r + vget_str(ps.last(), "text"@).unwrap()
        } else {
            r
        }
    }
}

/// The text a delta's `content` adds: a string; the concatenated texts of
/// text-like parts of an array; none for `null`; other values leniently.
pub open spec fn content_text(v: JsonV) -> Option<Seq<char>> {
    match v {
        JsonV::Null => None,
        JsonV::Str(s) => Some(s),
        JsonV::Array(ps) => Some(parts_text(ps)),
        _ => lenient_text(v),
    }
}

pub fn delta_content_text(v: &Json) -> (r: Option<String>)
    ensures
        r matches Some(s) ==> content_text(v@) == Some(s@),
        r is None ==> content_text(v@) is None,
{
    match v {
        Json::Null => None,
        Json::Str(s) => Some(s.clone()),
        Json::Array(ps) => {
            proof {
                crate::json::lemma_array_view(*ps);
            }
            let ghost pv = elems_view(ps@);
            let mut out: Vec<char> = Vec::new();
            let mut i: usize = 0;
            while i < ps.len()
                invariant
                    i <= ps@.len(),
                    pv == elems_view(ps@),
                    out@ == parts_text(pv.take(i as int)),
                decreases ps@.len() - i,
            {
                proof {
                    assert(pv.take(i + 1).drop_last() =~= pv.take(i as int));
                    assert(pv.take(i + 1).last() == ps@[i as int]@);
                }
                let ty_ok = match ps[i].get_str("type") {
                    Some(t) => {
                        let tc = chars_of(t.as_str());
                        is(tc.as_slice(), "text") || is(tc.as_slice(), "output_text") || is(
                            tc.as_slice(),
                            "input_text",
                        ) || is(tc.as_slice(), "thinking")
                    },
                    None => true,
                };
                if ty_ok {
                    match ps[i].get_str("text") {
                        Some(t) => push_all(&mut out, chars_of(t.as_str()).as_slice()),
                        None => {},
                    }
                }
                i = i + 1;
            }
            assert(pv.take(ps@.len() as int) =~= pv);
            Some(string_from(out.as_slice()))
        },
        _ => lenient_text_exec(v),
    }
}

// ---------------------------------------------------------------------------
// Stream chunks
// ---------------------------------------------------------------------------
pub struct ToolCallV {
    pub index: Option<i64>,
    pub id: Option<Seq<char>>,
    pub call_type: Option<Seq<char>>,
    pub function: Option<(Option<Seq<char>>, Option<Seq<char>>)>,
}

pub open spec fn opt_str(o: Option<String>) -> Option<Seq<char>> {
    match o {
        Some(s) => Some(s@),
        None => None,
    }
}

pub open spec fn tool_call_view(t: ToolCallDelta) -> ToolCallV {
    ToolCallV {
        index: t.index,
        id: opt_str(t.id),
        call_type: opt_str(t.call_type),
        function: match t.function {
            Some(f) => Some((opt_str(f.name), opt_str(f.arguments))),
            None => None,
        },
    }
}

/// A streamed tool-call frame read leniently: `function` (or
/// `function_call`) carries `name` and `arguments`, else the frame itself
/// does; arguments that are not a string become JSON text. The function
/// part exists when a name or arguments do.
pub open spec fn lenient_call(tc: JsonV) -> ToolCallV {
    let function = if vget(tc, "function"@) is Some {
        vget(tc, "function"@)
    } else {
        vget(tc, "function_call"@)
    };
    let name_from_fn = match function {
        Some(f) => field_text(f, "name"@),
        None => None,
    };
    let name = if name_from_fn is Some {
        name_from_fn
    } else {
        field_text(tc, "name"@)
    };
    let args_fn = match function {
        Some(f) => vget(f, "arguments"@),
        None => None,
    };
    let args_v = if args_fn is Some {
        args_fn
    } else {
        vget(tc, "arguments"@)
    };
    let arguments = match args_v {
        Some(a) => Some(args_string(a)),
        None => None,
    };
    ToolCallV {
        index: field_i64(tc, "index"@),
        id: field_text(tc, "id"@),
        call_type: vget_str(tc, "type"@),
        function: if name is Some || arguments is Some {
            Some((name, arguments))
        } else {
            None
        },
    }
}

fn lenient_tool_call(tc: &Json) -> (r: ToolCallDelta)
    ensures
        tool_call_view(r) == lenient_call(tc@),
{
    let function = match tc.get("function") {
        Some(f) => Some(f),
        None => tc.get("function_call"),
    };
    let name_from_fn = match function {
        Some(f) => field_text_exec(f, "name"),
        None => None,
    };
    let name = match name_from_fn {
        Some(n) => Some(n),
        None => field_text_exec(tc, "name"),
    };
    let args_fn = match function {
        Some(f) => f.get("arguments"),
        None => None,
    };
    let args_v = match args_fn {
        Some(a) => Some(a),
        None => tc.get("arguments"),
    };
    let arguments = match args_v {
        Some(a) => Some(arguments_string(a)),
        None => None,
    };
    let has_payload = name.is_some() || arguments.is_some();
    let call_type = match tc.get_str("type") {
        Some(t) => Some(t.clone()),
        None => None,
    };
    ToolCallDelta {
        index: field_i64_exec(tc, "index"),
        id: field_text_exec(tc, "id"),
        call_type,
        function: if has_payload {
            Some(FunctionDelta { name, arguments })
        } else {
            None
        },
    }
}

/// A delta of a streamed choice.
pub struct ChatStreamDelta {
    pub role: Option<String>,
    pub content: Option<Json>,
    pub reasoning_content: Option<String>,
    pub reasoning: Option<String>,
    pub tool_calls: Vec<ToolCallDelta>,
    pub refusal: Option<String>,
}

/// A streamed choice.
pub struct ChatStreamChoice {
    pub index: i64,
    pub delta: ChatStreamDelta,
    pub finish_reason: Option<String>,
}

/// One upstream Chat stream chunk, read leniently.
pub struct ChatStreamChunk {
    pub id: String,
    pub model: String,
    pub created: Option<i64>,
    pub choices: Vec<ChatStreamChoice>,
    pub usage: Option<Usage>,
    pub error: Option<Json>,
}

pub struct DeltaV {
    pub role: Option<Seq<char>>,
    pub content: Option<JsonV>,
    pub reasoning_content: Option<Seq<char>>,
    pub tool_calls: Seq<ToolCallV>,
    pub refusal: Option<Seq<char>>,
}

pub open spec fn delta_view(d: ChatStreamDelta) -> DeltaV {
    DeltaV {
        role: opt_str(d.role),
        content: opt_json(d.content),
        reasoning_content: opt_str(d.reasoning_content),
        tool_calls: d.tool_calls@.map_values(|t: ToolCallDelta| tool_call_view(t)),
        refusal: opt_str(d.refusal),
    }
}

/// The tool calls of a delta's `tool_calls` array.
pub open spec fn lenient_calls(ts: Seq<JsonV>) -> Seq<ToolCallV> {
    Seq::new(ts.len(), |i: int| lenient_call(ts[i]))
}

/// A delta read leniently (an absent delta reads as empty).
pub open spec fn lenient_delta(d: Option<JsonV>) -> DeltaV {
    match d {
        Some(x) => DeltaV {
            role: field_text(x, "role"@),
            content: vget(x, "content"@),
            reasoning_content: reasoning_text(x),
            tool_calls: match vget_arr(x, "tool_calls"@) {
                Some(ts) => lenient_calls(ts),
                None => Seq::empty(),
            },
            refusal: field_text(x, "refusal"@),
        },
        None => DeltaV {
            role: None,
            content: None,
            reasoning_content: None,
            tool_calls: Seq::empty(),
            refusal: None,
        },
    }
}

/// A choice read leniently: its `delta`, else its `message`.
pub open spec fn lenient_choice(c: JsonV) -> (i64, DeltaV, Option<Seq<char>>) {
    (
        unwrap_or_zero(field_i64(c, "index"@)),
        lenient_delta(
            if vget(c, "delta"@) is Some {
                vget(c, "delta"@)
            } else {
                vget(c, "message"@)
            },
        ),
        field_text(c, "finish_reason"@),
    )
}

pub open spec fn choice_view(c: ChatStreamChoice) -> (i64, DeltaV, Option<Seq<char>>) {
    (c.index, delta_view(c.delta), opt_str(c.finish_reason))
}

fn lenient_delta_exec(d: Option<&Json>) -> (r: ChatStreamDelta)
    ensures
        delta_view(r) == lenient_delta(
            match d {
                Some(x) => Some(x@),
                None => None,
            },
        ),
        r.reasoning is None,
{
    match d {
        None => {
            let r = ChatStreamDelta {
                role: None,
                content: None,
                reasoning_content: None,
                reasoning: None,
                tool_calls: Vec::new(),
                refusal: None,
            };
            assert(delta_view(r).tool_calls =~= Seq::<ToolCallV>::empty());
            r
        },
        Some(x) => {
            let mut calls: Vec<ToolCallDelta> = Vec::new();
            match x.get("tool_calls") {
                Some(t) => match t.as_array() {
                    Some(ts) => {
                        let ghost tv = elems_view(ts@);
                        let mut i: usize = 0;
                        while i < ts.len()
                            invariant
                                i <= ts@.len(),
                                tv == elems_view(ts@),
                                calls@.map_values(|t: ToolCallDelta| tool_call_view(t))
                                    == lenient_calls(tv).take(i as int),
                            decreases ts@.len() - i,
                        {
                            let ghost before = calls@.map_values(|t: ToolCallDelta| tool_call_view(t));
                            let c = lenient_tool_call(&ts[i]);
                            let ghost cv = tool_call_view(c);
                            calls.push(c);
                            assert(calls@.map_values(|t: ToolCallDelta| tool_call_view(t)) =~= before.push(cv));
                            assert(lenient_calls(tv).take(i + 1) =~= lenient_calls(tv).take(i as int).push(
                                lenient_call(tv[i as int]),
                            ));
                            i = i + 1;
                        }
                        assert(lenient_calls(tv).take(ts@.len() as int) =~= lenient_calls(tv));
                    },
                    None => {
                        assert(calls@.map_values(|t: ToolCallDelta| tool_call_view(t)) =~= Seq::<ToolCallV>::empty());
                    },
                },
                None => {
                    assert(calls@.map_values(|t: ToolCallDelta| tool_call_view(t)) =~= Seq::<ToolCallV>::empty());
                },
            }
            let content = match x.get("content") {
                Some(c) => Some(deep_clone(c)),
                None => None,
            };
            ChatStreamDelta {
                role: field_text_exec(x, "role"),
                content,
                reasoning_content: delta_reasoning_text(x),
                reasoning: None,
                tool_calls: calls,
                refusal: field_text_exec(x, "refusal"),
            }
        },
    }
}

fn lenient_choice_exec(c: &Json) -> (r: ChatStreamChoice)
    ensures
        choice_view(r) == lenient_choice(c@),
{
    let d = match c.get("delta") {
        Some(d) => Some(d),
        None => c.get("message"),
    };
    let index = match field_i64_exec(c, "index") {
        Some(i) => i,
        None => 0,
    };
    ChatStreamChoice {
        index,
        delta: lenient_delta_exec(d),
        finish_reason: field_text_exec(c, "finish_reason"),
    }
}

/// The chunk a data payload holds, read leniently; `None` only when the
/// text is not JSON.
pub open spec fn chunk_of(data: Seq<char>) -> Option<JsonV> {
    json_parse(utf8(data))
}

pub open spec fn lenient_choices(cs: Seq<JsonV>) -> Seq<(i64, DeltaV, Option<Seq<char>>)> {
    Seq::new(cs.len(), |i: int| lenient_choice(cs[i]))
}

impl ChatStreamChunk {
    pub fn from_json_str(data: &str) -> (r: Option<ChatStreamChunk>)
        ensures
            r is None <==> chunk_of(data@) is None,
            r matches Some(c) ==> {
                let v = chunk_of(data@).unwrap();
                &&& c.id@ == match field_text(v, "id"@) {
                    Some(s) => s,
                    None => Seq::empty(),
                }
                &&& c.model@ == match field_text(v, "model"@) {
                    Some(s) => s,
                    None => Seq::empty(),
                }
                &&& c.created == field_i64(v, "created"@)
                &&& c.choices@.map_values(|x: ChatStreamChoice| choice_view(x)) == match vget_arr(
                    v,
                    "choices"@,
                ) {
                    Some(cs) => lenient_choices(cs),
                    None => Seq::empty(),
                }
                &&& (c.usage is Some <==> (vget(v, "usage"@) matches Some(JsonV::Object(_))))
                &&& opt_json(c.error) == match vget(v, "error"@) {
                    Some(JsonV::Null) => None,
                    other => other,
                }
            },
    {
        let bytes = utf8_bytes(chars_of(data).as_slice());
        let v = match parse_json(bytes.as_slice()) {
            Some(v) => v,
            None => return None,
        };
        let mut choices: Vec<ChatStreamChoice> = Vec::new();
        match v.get("choices") {
            Some(c) => match c.as_array() {
                Some(cs) => {
                    let ghost cv = elems_view(cs@);
                    let mut i: usize = 0;
                    while i < cs.len()
                        invariant
                            i <= cs@.len(),
                            cv == elems_view(cs@),
                            choices@.map_values(|x: ChatStreamChoice| choice_view(x))
                                == lenient_choices(cv).take(i as int),
                        decreases cs@.len() - i,
                    {
                        let ghost before = choices@.map_values(|x: ChatStreamChoice| choice_view(x));
                        let ch = lenient_choice_exec(&cs[i]);
                        let ghost chv = choice_view(ch);
                        choices.push(ch);
                        assert(choices@.map_values(|x: ChatStreamChoice| choice_view(x)) =~= before.push(chv));
                        assert(lenient_choices(cv).take(i + 1) =~= lenient_choices(cv).take(i as int).push(
                            lenient_choice(cv[i as int]),
                        ));
                        i = i + 1;
                    }
                    assert(lenient_choices(cv).take(cs@.len() as int) =~= lenient_choices(cv));
                },
                None => {
                    assert(choices@.map_values(|x: ChatStreamChoice| choice_view(x)) =~= Seq::<
                        (i64, DeltaV, Option<Seq<char>>),
                    >::empty());
                },
            },
            None => {
                assert(choices@.map_values(|x: ChatStreamChoice| choice_view(x)) =~= Seq::<
                    (i64, DeltaV, Option<Seq<char>>),
                >::empty());
            },
        }
        let id = match field_text_exec(&v, "id") {
            Some(s) => s,
            None => String::new(),
        };
        let model = match field_text_exec(&v, "model") {
            Some(s) => s,
            None => String::new(),
        };
        let usage = match v.get("usage") {
            Some(u) => if u.is_object() {
                Some(Usage::from_value_lenient(u))
            } else {
                None
            },
            None => None,
        };
        let error = match v.get("error") {
            Some(e) => match e {
                Json::Null => None,
                _ => Some(deep_clone(e)),
            },
            None => None,
        };
        Some(ChatStreamChunk { id, model, created: field_i64_exec(&v, "created"), choices, usage, error })
    }
}

} // verus!

verus! {

/// The free-text input of a custom tool call from the arguments the Chat
/// side produced: blank arguments give the empty text; a JSON object with
/// a string `input` gives that string; anything else is kept as it is.
pub open spec fn custom_tool_input(arguments: Seq<char>) -> Seq<char> {
    if trim(arguments).len() == 0 {
        Seq::empty()
    } else {
        match json_parse(crate::text::utf8(arguments)) {
            Some(v) => if v is Object && vget_str(v, "input"@) is Some {
                vget_str(v, "input"@).unwrap()
            } else {
                arguments
            },
            None => arguments,
        }
    }
}

pub fn custom_tool_input_from_chat_arguments(arguments: &str) -> (r: String)
    ensures
        r@ == custom_tool_input(arguments@),
{
    let a = chars_of(arguments);
    if trim_chars(a.as_slice()).len() == 0 {
        return String::new();
    }
    let bytes = crate::text::utf8_bytes(a.as_slice());
    match parse_json(bytes.as_slice()) {
        Some(v) => {
            if v.is_object() {
                if let Some(s) = v.get_str("input") {
                    return s.clone();
                }
            }
            string_from(a.as_slice())
        },
        None => string_from(a.as_slice()),
    }
}

} // verus!

verus! {

// ---------------------------------------------------------------------------
// Outbound Chat request pieces
// ---------------------------------------------------------------------------
/// A function of a Chat tool definition or tool call.
pub struct FunctionOut {
    pub description: String,
    pub name: String,
    pub parameters: Option<Json>,
    pub strict: Option<Json>,
    pub arguments: String,
}

/// A Chat tool definition or an assistant's tool call.
pub struct ToolCallOut {
    pub id: String,
    pub call_type: String,
    pub function: Option<FunctionOut>,
}

/// A Chat message.
pub struct MessageOut {
    pub role: String,
    pub content: Option<Json>,
    pub tool_calls: Vec<ToolCallOut>,
    pub tool_call_id: Option<String>,
    pub reasoning_content: Option<String>,
}

pub struct FunctionOutV {
    pub description: Seq<char>,
    pub name: Seq<char>,
    pub parameters: Option<JsonV>,
    pub strict: Option<JsonV>,
    pub arguments: Seq<char>,
}

pub struct ToolCallOutV {
    pub id: Seq<char>,
    pub call_type: Seq<char>,
    pub function: Option<FunctionOutV>,
}

pub struct MessageV {
    pub role: Seq<char>,
    pub content: Option<JsonV>,
    pub tool_calls: Seq<ToolCallOutV>,
    pub tool_call_id: Option<Seq<char>>,
    pub reasoning_content: Option<Seq<char>>,
}

pub open spec fn opt_jv(o: Option<Json>) -> Option<JsonV> {
    match o {
        Some(j) => Some(j@),
        None => None,
    }
}

impl View for FunctionOut {
    type V = FunctionOutV;

    open spec fn view(&self) -> FunctionOutV {
        FunctionOutV {
            description: self.description@,
            name: self.name@,
            parameters: opt_jv(self.parameters),
            strict: opt_jv(self.strict),
            arguments: self.arguments@,
        }
    }
}

impl View for ToolCallOut {
    type V = ToolCallOutV;

    open spec fn view(&self) -> ToolCallOutV {
        ToolCallOutV {
            id: self.id@,
            call_type: self.call_type@,
            function: match self.function {
                Some(f) => Some(f@),
                None => None,
            },
        }
    }
}

pub open spec fn calls_view(v: Seq<ToolCallOut>) -> Seq<ToolCallOutV> {
    v.map_values(|t: ToolCallOut| t@)
}

impl View for MessageOut {
    type V = MessageV;

    open spec fn view(&self) -> MessageV {
        MessageV {
            role: self.role@,
            content: opt_jv(self.content),
            tool_calls: calls_view(self.tool_calls@),
            tool_call_id: opt_str(self.tool_call_id),
            reasoning_content: opt_str(self.reasoning_content),
        }
    }
}

pub open spec fn messages_view(v: Seq<MessageOut>) -> Seq<MessageV> {
    v.map_values(|m: MessageOut| m@)
}

} // verus!

verus! {

// ---------------------------------------------------------------------------
// Responses usage
// ---------------------------------------------------------------------------
/// Usage as sent to a Responses client: the Chat names and the Responses
/// names side by side, with their details objects.
pub struct ResponsesUsageOut {
    pub prompt_tokens: i64,
    pub completion_tokens: i64,
    pub total_tokens: i64,
    pub prompt_tokens_details: Json,
    pub completion_tokens_details: Json,
    pub input_tokens: i64,
    pub output_tokens: i64,
    pub input_tokens_details: Json,
    pub output_tokens_details: Json,
}

pub open spec fn int_v(n: i64) -> JsonV {
    if n < 0 {
        JsonV::Number(NumV::NegInt(n))
    } else {
        JsonV::Number(NumV::PosInt(n as u64))
    }
}

pub fn int_json_of(n: i64) -> (r: Json)
    ensures
        r@ == int_v(n),
{
    if n < 0 {
        Json::Number(JsonNumber::NegInt(n))
    } else {
        Json::Number(JsonNumber::PosInt(n as u64))
    }
}

pub open spec fn usage_input(u: UsageV) -> i64 {
    unwrap_or_zero(or_else_i64(u.prompt_tokens, u.input_tokens))
}

pub open spec fn usage_output(u: UsageV) -> i64 {
    unwrap_or_zero(or_else_i64(u.completion_tokens, u.output_tokens))
}

pub open spec fn usage_total(u: UsageV) -> i64 {
    match u.total_tokens {
        Some(t) => t,
        None => {
            let s = usage_input(u) + usage_output(u);
            if s > i64::MAX {
                i64::MAX
            } else if s < i64::MIN {
                i64::MIN
            } else {
                s as i64
            }
        },
    }
}

pub open spec fn usage_cached(u: UsageV) -> i64 {
    unwrap_or_zero(
        or_else_i64(
            u.cache_read_input_tokens,
            or_else_i64(
                details_i64(u.input_tokens_details, "cached_tokens"@),
                or_else_i64(
                    details_i64(u.prompt_tokens_details, "cached_tokens"@),
                    u.prompt_cache_hit_tokens,
                ),
            ),
        ),
    )
}

pub open spec fn usage_cache_write(u: UsageV) -> i64 {
    unwrap_or_zero(
        or_else_i64(
            u.cache_creation_input_tokens,
            or_else_i64(
                details_i64(u.input_tokens_details, "cache_write_tokens"@),
                details_i64(u.prompt_tokens_details, "cache_write_tokens"@),
            ),
        ),
    )
}

pub open spec fn zero_v() -> JsonV {
    JsonV::Number(NumV::PosInt(0))
}

/// `{"cached_tokens": 0, "text_tokens": 0, "audio_tokens": 0, "image_tokens": 0}`.
pub open spec fn zero_prompt_details_v() -> JsonV {
    JsonV::Object(
        seq![
            ("cached_tokens"@, zero_v()),
            ("text_tokens"@, zero_v()),
            ("audio_tokens"@, zero_v()),
            ("image_tokens"@, zero_v()),
        ],
    )
}

/// `{"text_tokens": 0, "audio_tokens": 0, "image_tokens": 0, "reasoning_tokens": 0}`.
pub open spec fn zero_completion_details_v() -> JsonV {
    JsonV::Object(
        seq![
            ("text_tokens"@, zero_v()),
            ("audio_tokens"@, zero_v()),
            ("image_tokens"@, zero_v()),
            ("reasoning_tokens"@, zero_v()),
        ],
    )
}

fn zeros_object(keys: &[&str]) -> (r: Json)
    ensures
        r@ == JsonV::Object(Seq::new(keys@.len(), |i: int| (keys@[i]@, zero_v()))),
{
    let mut f: Vec<(String, Json)> = Vec::new();
    let mut i: usize = 0;
    while i < keys.len()
        invariant
            i <= keys@.len(),
            crate::json::fields_view(f@) =~= Seq::new(i as nat, |k: int| (keys@[k]@, zero_v())),
        decreases keys@.len() - i,
    {
        let ghost prev = crate::json::fields_view(f@);
        f.push((crate::text::owned(keys[i]), Json::Number(JsonNumber::PosInt(0))));
        assert(crate::json::fields_view(f@) =~= prev.push((keys@[i as int]@, zero_v())));
        i = i + 1;
    }
    proof {
        crate::json::lemma_object_view(f);
    }
    Json::Object(f)
}

pub fn zero_prompt_details() -> (r: Json)
    ensures
        r@ == zero_prompt_details_v(),
{
    let keys = ["cached_tokens", "text_tokens", "audio_tokens", "image_tokens"];
    let r = zeros_object(keys.as_slice());
    assert(Seq::new(keys@.len(), |i: int| (keys@[i]@, zero_v())) =~= seq![
        ("cached_tokens"@, zero_v()),
        ("text_tokens"@, zero_v()),
        ("audio_tokens"@, zero_v()),
        ("image_tokens"@, zero_v()),
    ]);
    r
}

pub fn zero_completion_details() -> (r: Json)
    ensures
        r@ == zero_completion_details_v(),
{
    let keys = ["text_tokens", "audio_tokens", "image_tokens", "reasoning_tokens"];
    let r = zeros_object(keys.as_slice());
    assert(Seq::new(keys@.len(), |i: int| (keys@[i]@, zero_v())) =~= seq![
        ("text_tokens"@, zero_v()),
        ("audio_tokens"@, zero_v()),
        ("image_tokens"@, zero_v()),
        ("reasoning_tokens"@, zero_v()),
    ]);
    r
}

/// `output_tokens_details`: the completion details (or `{}`), with
/// `reasoning_tokens: 0` added to an object that lacks it.
pub open spec fn output_details_v(cd: Option<JsonV>) -> JsonV {
    let base = match cd {
        Some(d) => d,
        None => JsonV::Object(Seq::empty()),
    };
    match base {
        JsonV::Object(fs) => if crate::json::field(fs, "reasoning_tokens"@) is None {
            JsonV::Object(fs.push(("reasoning_tokens"@, zero_v())))
        } else {
            base
        },
        _ => base,
    }
}

pub fn output_details_from_chat(u: &Usage) -> (r: Json)
    ensures
        r@ == output_details_v(opt_json(u.completion_tokens_details)),
{
    let base = match &u.completion_tokens_details {
        Some(d) => deep_clone(d),
        None => {
            let f: Vec<(String, Json)> = Vec::new();
            proof {
                crate::json::lemma_object_view(f);
            }
            assert(crate::json::fields_view(f@) =~= Seq::<(Seq<char>, JsonV)>::empty());
            Json::Object(f)
        },
    };
    match base {
        Json::Object(fs) => {
            proof {
                crate::json::lemma_object_view(fs);
            }
            let ghost fv = crate::json::fields_view(fs@);
            if crate::json::field_pos(&fs, "reasoning_tokens").is_none() {
                let mut fs = fs;
                fs.push((crate::text::owned("reasoning_tokens"), Json::Number(JsonNumber::PosInt(0))));
                assert(crate::json::fields_view(fs@) =~= fv.push(("reasoning_tokens"@, zero_v())));
                proof {
                    crate::json::lemma_object_view(fs);
                }
                Json::Object(fs)
            } else {
                Json::Object(fs)
            }
        },
        other => other,
    }
}

/// An integer other than zero (as serde_json's `as_i64` reads it).
pub open spec fn nonzero_int(v: JsonV) -> bool {
    match v {
        JsonV::Number(NumV::PosInt(u)) => u != 0 && u <= i64::MAX,
        JsonV::Number(NumV::NegInt(i)) => i != 0,
        _ => false,
    }
}

/// A known token-details key: starting with `cached`, `text`, `audio` or
/// `image`, or `cache_write_tokens`.
pub open spec fn known_details_key(k: Seq<char>) -> bool {
    crate::text::has_prefix(k, "cached"@) || crate::text::has_prefix(k, "text"@)
        || crate::text::has_prefix(k, "audio"@) || crate::text::has_prefix(k, "image"@) || k
        == "cache_write_tokens"@
}

/// Some field has a known key and a non-zero integer value.
pub open spec fn any_known_nonzero(fs: Seq<(Seq<char>, JsonV)>) -> bool
    decreases fs.len(),
{
    if fs.len() == 0 {
        false
    } else {
        any_known_nonzero(fs.drop_last()) || (known_details_key(fs.last().0) && nonzero_int(
            fs.last().1,
        ))
    }
}

/// Prompt details kept only when one of their known counts is not zero.
pub open spec fn nonzero_details_v(d: Option<JsonV>) -> Option<JsonV> {
    match d {
        Some(JsonV::Object(fs)) => if any_known_nonzero(fs) {
            d
        } else {
            None
        },
        _ => None,
    }
}

fn nonzero_int_exec(v: &Json) -> (r: bool)
    ensures
        r == nonzero_int(v@),
{
    match v {
        Json::Number(JsonNumber::PosInt(u)) => *u != 0 && *u <= 9223372036854775807u64,
        Json::Number(JsonNumber::NegInt(i)) => *i != 0,
        _ => false,
    }
}

fn known_details_key_exec(k: &String) -> (r: bool)
    ensures
        r == known_details_key(k@),
{
    let c = chars_of(k.as_str());
    let s = c.as_slice();
    crate::text::starts_with(s, chars_of("cached").as_slice()) || crate::text::starts_with(
        s,
        chars_of("text").as_slice(),
    ) || crate::text::starts_with(s, chars_of("audio").as_slice()) || crate::text::starts_with(
        s,
        chars_of("image").as_slice(),
    ) || crate::text::is(s, "cache_write_tokens")
}

pub fn nonzero_input_details(details: Option<&Json>) -> (r: Option<Json>)
    ensures
        opt_json(r) == nonzero_details_v(
            match details {
                Some(d) => Some(d@),
                None => None,
            },
        ),
{
    let d = match details {
        Some(d) => d,
        None => return None,
    };
    match d {
        Json::Object(fs) => {
            proof {
                crate::json::lemma_object_view(*fs);
            }
            let ghost fv = crate::json::fields_view(fs@);
            let mut found = false;
            let mut i: usize = 0;
            while i < fs.len()
                invariant
                    i <= fs@.len(),
                    fv == crate::json::fields_view(fs@),
                    found == any_known_nonzero(fv.take(i as int)),
                decreases fs@.len() - i,
            {
                proof {
                    assert(fv.take(i + 1).drop_last() =~= fv.take(i as int));
                }
                if known_details_key_exec(&fs[i].0) && nonzero_int_exec(&fs[i].1) {
                    found = true;
                }
                i = i + 1;
            }
            assert(fv.take(fs@.len() as int) =~= fv);
            if found {
                Some(deep_clone(d))
            } else {
                None
            }
        },
        _ => None,
    }
}

/// Some value is a non-zero integer.
pub open spec fn any_nonzero(fs: Seq<(Seq<char>, JsonV)>) -> bool
    decreases fs.len(),
{
    if fs.len() == 0 {
        false
    } else {
        any_nonzero(fs.drop_last()) || nonzero_int(fs.last().1)
    }
}

/// `input_tokens_details`: the prompt (else input) details, or `{}`, with
/// the cache-hit and cache-write counts set when positive; kept only when
/// some value is a non-zero integer. Details that are not an object fall
/// back to the prompt details when one of their known counts is not zero.
pub open spec fn input_details_v(u: UsageV) -> Option<JsonV> {
    let base = match u.prompt_tokens_details {
        Some(d) => d,
        None => match u.input_tokens_details {
            Some(d) => d,
            None => JsonV::Object(Seq::empty()),
        },
    };
    match base {
        JsonV::Object(_) => {
            let b1 = if usage_cached(u) > 0 {
                crate::json::vset(base, "cached_tokens"@, int_v(usage_cached(u)))
            } else {
                base
            };
            let b2 = if usage_cache_write(u) > 0 {
                crate::json::vset(b1, "cache_write_tokens"@, int_v(usage_cache_write(u)))
            } else {
                b1
            };
            match b2 {
                JsonV::Object(fs) => if any_nonzero(fs) {
                    Some(b2)
                } else {
                    None
                },
                _ => None,
            }
        },
        _ => nonzero_details_v(u.prompt_tokens_details),
    }
}

pub fn input_details_with_cache(u: &Usage) -> (r: Option<Json>)
    ensures
        opt_json(r) == input_details_v(u@),
{
    let cached = u.cached_tokens();
    let write = u.cache_write_tokens();
    let mut base = match &u.prompt_tokens_details {
        Some(d) => deep_clone(d),
        None => match &u.input_tokens_details {
            Some(d) => deep_clone(d),
            None => {
                let f: Vec<(String, Json)> = Vec::new();
                proof {
                    crate::json::lemma_object_view(f);
                }
                assert(crate::json::fields_view(f@) =~= Seq::<(Seq<char>, JsonV)>::empty());
                Json::Object(f)
            },
        },
    };
    if !base.is_object() {
        return nonzero_input_details(u.prompt_tokens_details.as_ref());
    }
    if cached > 0 {
        base.set("cached_tokens", int_json_of(cached));
    }
    if write > 0 {
        base.set("cache_write_tokens", int_json_of(write));
    }
    match &base {
        Json::Object(fs) => {
            proof {
                crate::json::lemma_object_view(*fs);
            }
            let ghost fv = crate::json::fields_view(fs@);
            let mut found = false;
            let mut i: usize = 0;
            while i < fs.len()
                invariant
                    i <= fs@.len(),
                    fv == crate::json::fields_view(fs@),
                    found == any_nonzero(fv.take(i as int)),
                decreases fs@.len() - i,
            {
                proof {
                    assert(fv.take(i + 1).drop_last() =~= fv.take(i as int));
                }
                if nonzero_int_exec(&fs[i].1) {
                    found = true;
                }
                i = i + 1;
            }
            assert(fv.take(fs@.len() as int) =~= fv);
            if found {
                Some(deep_clone(&base))
            } else {
                None
            }
        },
        _ => None,
    }
}

/// `{"cached_tokens": 0}`.
pub open spec fn zero_cached_v() -> JsonV {
    JsonV::Object(seq![("cached_tokens"@, zero_v())])
}

/// Chat usage as Responses usage: input, output and total counts under
/// both names; the prompt and completion details (zero objects when
/// missing); `input_tokens_details` as `input_details_v` (else
/// `{"cached_tokens": 0}`) and `output_tokens_details` as
/// `output_details_v`.
pub fn usage_from_chat(u: &Usage) -> (r: ResponsesUsageOut)
    ensures
        r.prompt_tokens == usage_input(u@),
        r.completion_tokens == usage_output(u@),
        r.total_tokens == usage_total(u@),
        r.input_tokens == usage_input(u@),
        r.output_tokens == usage_output(u@),
        r.prompt_tokens_details@ == match opt_json(u.prompt_tokens_details) {
            Some(d) => d,
            None => zero_prompt_details_v(),
        },
        r.completion_tokens_details@ == match opt_json(u.completion_tokens_details) {
            Some(d) => d,
            None => zero_completion_details_v(),
        },
        r.input_tokens_details@ == match input_details_v(u@) {
            Some(d) => d,
            None => zero_cached_v(),
        },
        r.output_tokens_details@ == output_details_v(opt_json(u.completion_tokens_details)),
{
    let input = u.input();
    let output = u.output();
    let total = u.total();
    let prompt_details = match &u.prompt_tokens_details {
        Some(d) => deep_clone(d),
        None => zero_prompt_details(),
    };
    let completion_details = match &u.completion_tokens_details {
        Some(d) => deep_clone(d),
        None => zero_completion_details(),
    };
    let input_details = match input_details_with_cache(u) {
        Some(d) => d,
        None => {
            let mut f: Vec<(String, Json)> = Vec::new();
            f.push((crate::text::owned("cached_tokens"), Json::Number(JsonNumber::PosInt(0))));
            proof {
                crate::json::lemma_object_view(f);
            }
            assert(crate::json::fields_view(f@) =~= seq![("cached_tokens"@, zero_v())]);
            Json::Object(f)
        },
    };
    ResponsesUsageOut {
        prompt_tokens: input,
        completion_tokens: output,
        total_tokens: total,
        prompt_tokens_details: prompt_details,
        completion_tokens_details: completion_details,
        input_tokens: input,
        output_tokens: output,
        input_tokens_details: input_details,
        output_tokens_details: output_details_from_chat(u),
    }
}

} // verus!

verus! {

// ---------------------------------------------------------------------------
// Responses output items
// ---------------------------------------------------------------------------
/// A summary or content part of an output item.
pub struct SummaryPartOut {
    pub part_type: String,
    pub text: String,
    /// Content parts carry `annotations: []`; summary parts leave it out.
    pub annotations: Option<Vec<Json>>,
}

/// A content part of a message output item; a refusal carries its text
/// in `refusal`.
pub struct ResponsesOutputContentOut {
    pub content_type: String,
    pub text: String,
    pub refusal: String,
    pub annotations: Vec<Json>,
}

/// An output item (message, reasoning, function call, custom tool call,
/// tool search call, web search call).
pub struct ResponsesOutputOut {
    pub item_type: String,
    pub id: String,
    pub status: String,
    pub role: String,
    pub content: Vec<ResponsesOutputContentOut>,
    pub summary: Vec<SummaryPartOut>,
    pub quality: String,
    pub size: String,
    pub call_id: Option<String>,
    pub name: Option<String>,
    pub namespace: Option<String>,
    pub arguments: Option<Json>,
    pub reasoning_content: Option<String>,
    pub query: Option<String>,
    pub input: Option<String>,
    pub execution: Option<String>,
}

/// A summary or content part without annotations.
pub fn summary_part(part_type: &str, text: &str) -> (r: SummaryPartOut)
    ensures
        r.part_type@ == part_type@,
        r.text@ == text@,
        r.annotations is None,
{
    SummaryPartOut { part_type: owned_str(part_type), text: owned_str(text), annotations: None }
}

fn owned_str(s: &str) -> (r: String)
    ensures
        r@ == s@,
{
    string_from(chars_of(s).as_slice())
}

/// An empty annotations list.
pub fn empty_annotations() -> (r: Vec<Json>)
    ensures
        r@.len() == 0,
{
    Vec::new()
}

/// An output item of the given type, id, status and content; every other
/// field empty or absent.
pub fn output_item(
    item_type: &str,
    id: String,
    status: &str,
    content: Vec<ResponsesOutputContentOut>,
) -> (r: ResponsesOutputOut)
    ensures
        r.item_type@ == item_type@,
        r.id == id,
        r.status@ == status@,
        r.role@.len() == 0,
        r.content == content,
        r.summary@.len() == 0,
        r.quality@.len() == 0,
        r.size@.len() == 0,
        r.call_id is None,
        r.name is None,
        r.namespace is None,
        r.arguments is None,
        r.reasoning_content is None,
        r.query is None,
        r.input is None,
        r.execution is None,
{
    ResponsesOutputOut {
        item_type: owned_str(item_type),
        id,
        status: owned_str(status),
        role: String::new(),
        content,
        summary: Vec::new(),
        quality: String::new(),
        size: String::new(),
        call_id: None,
        name: None,
        namespace: None,
        arguments: None,
        reasoning_content: None,
        query: None,
        input: None,
        execution: None,
    }
}

} // verus!

verus! {

// ---------------------------------------------------------------------------
// Output items as plain values, and as the JSON a client receives
// ---------------------------------------------------------------------------
pub struct SummaryPartV {
    pub part_type: Seq<char>,
    pub text: Seq<char>,
    pub annotations: Option<Seq<JsonV>>,
}

impl View for SummaryPartOut {
    type V = SummaryPartV;

    open spec fn view(&self) -> SummaryPartV {
        SummaryPartV {
            part_type: self.part_type@,
            text: self.text@,
            annotations: match self.annotations {
                Some(a) => Some(elems_view(a@)),
                None => None,
            },
        }
    }
}

pub struct ContentPartV {
    pub content_type: Seq<char>,
    pub text: Seq<char>,
    pub refusal: Seq<char>,
    pub annotations: Seq<JsonV>,
}

impl View for ResponsesOutputContentOut {
    type V = ContentPartV;

    open spec fn view(&self) -> ContentPartV {
        ContentPartV {
            content_type: self.content_type@,
            text: self.text@,
            refusal: self.refusal@,
            annotations: elems_view(self.annotations@),
        }
    }
}

pub struct OutputItemV {
    pub item_type: Seq<char>,
    pub id: Seq<char>,
    pub status: Seq<char>,
    pub role: Seq<char>,
    pub content: Seq<ContentPartV>,
    pub summary: Seq<SummaryPartV>,
    pub quality: Seq<char>,
    pub size: Seq<char>,
    pub call_id: Option<Seq<char>>,
    pub name: Option<Seq<char>>,
    pub namespace: Option<Seq<char>>,
    pub arguments: Option<JsonV>,
    pub reasoning_content: Option<Seq<char>>,
    pub query: Option<Seq<char>>,
    pub input: Option<Seq<char>>,
    pub execution: Option<Seq<char>>,
}

impl View for ResponsesOutputOut {
    type V = OutputItemV;

    open spec fn view(&self) -> OutputItemV {
        OutputItemV {
            item_type: self.item_type@,
            id: self.id@,
            status: self.status@,
            role: self.role@,
            content: self.content@.map_values(|c: ResponsesOutputContentOut| c@),
            summary: self.summary@.map_values(|p: SummaryPartOut| p@),
            quality: self.quality@,
            size: self.size@,
            call_id: opt_str(self.call_id),
            name: opt_str(self.name),
            namespace: opt_str(self.namespace),
            arguments: opt_json(self.arguments),
            reasoning_content: opt_str(self.reasoning_content),
            query: opt_str(self.query),
            input: opt_str(self.input),
            execution: opt_str(self.execution),
        }
    }
}

/// A string field when the value is present.
pub open spec fn opt_str_field(k: Seq<char>, v: Option<Seq<char>>) -> Seq<(Seq<char>, JsonV)> {
    match v {
        Some(s) => seq![(k, JsonV::Str(s))],
        None => Seq::empty(),
    }
}

/// A summary part as JSON: `type`, `text`, and `annotations` when present.
pub open spec fn summary_json_v(p: SummaryPartV) -> JsonV {
    JsonV::Object(
        seq![("type"@, JsonV::Str(p.part_type)), ("text"@, JsonV::Str(p.text))] + match p.annotations {
            Some(a) => seq![("annotations"@, JsonV::Array(a))],
            None => Seq::empty(),
        },
    )
}

/// A content part as JSON: `type`, `text`, `refusal` when not empty, and
/// `annotations`.
pub open spec fn content_json_v(c: ContentPartV) -> JsonV {
    JsonV::Object(
        seq![("type"@, JsonV::Str(c.content_type)), ("text"@, JsonV::Str(c.text))] + (if c.refusal.len()
            > 0 {
            seq![("refusal"@, JsonV::Str(c.refusal))]
        } else {
            Seq::empty()
        }) + seq![("annotations"@, JsonV::Array(c.annotations))],
    )
}

/// The leading fields of an output item's JSON: an empty `id` and an
/// empty `summary` are left out.
pub open spec fn item_head_v(o: OutputItemV) -> Seq<(Seq<char>, JsonV)> {
    seq![("type"@, JsonV::Str(o.item_type))] + (if o.id.len() > 0 {
        seq![("id"@, JsonV::Str(o.id))]
    } else {
        Seq::empty()
    }) + seq![
        ("status"@, JsonV::Str(o.status)),
        ("role"@, JsonV::Str(o.role)),
        ("content"@, JsonV::Array(o.content.map_values(|c: ContentPartV| content_json_v(c)))),
    ] + (if o.summary.len() > 0 {
        seq![("summary"@, JsonV::Array(o.summary.map_values(|p: SummaryPartV| summary_json_v(p))))]
    } else {
        Seq::empty()
    }) + seq![("quality"@, JsonV::Str(o.quality)), ("size"@, JsonV::Str(o.size))]
}

/// The optional trailing fields of an output item's JSON, each only when
/// present.
pub open spec fn item_tail_v(o: OutputItemV) -> Seq<(Seq<char>, JsonV)> {
    opt_str_field("call_id"@, o.call_id) + opt_str_field("name"@, o.name) + opt_str_field(
        "namespace"@,
        o.namespace,
    ) + match o.arguments {
        Some(a) => seq![("arguments"@, a)],
        None => Seq::empty(),
    } + opt_str_field("reasoning_content"@, o.reasoning_content) + opt_str_field("query"@, o.query)
        + opt_str_field("input"@, o.input) + opt_str_field("execution"@, o.execution)
}

/// An output item as JSON.
pub open spec fn item_json_v(o: OutputItemV) -> JsonV {
    JsonV::Object(item_head_v(o) + item_tail_v(o))
}

pub fn push_field(f: &mut Vec<(String, Json)>, k: &str, v: Json)
    ensures
        crate::json::fields_view(final(f)@) == crate::json::fields_view(old(f)@).push((k@, v@)),
{
    f.push((owned_str(k), v));
    assert(crate::json::fields_view(f@) =~= crate::json::fields_view(old(f)@).push((k@, v@)));
}

fn push_str_field(f: &mut Vec<(String, Json)>, k: &str, v: &String)
    ensures
        crate::json::fields_view(final(f)@) == crate::json::fields_view(old(f)@).push(
            (k@, JsonV::Str(v@)),
        ),
{
    push_field(f, k, Json::Str(v.clone()));
}

fn push_opt_str_field(f: &mut Vec<(String, Json)>, k: &str, v: &Option<String>)
    ensures
        crate::json::fields_view(final(f)@) == crate::json::fields_view(old(f)@) + opt_str_field(
            k@,
            opt_str(*v),
        ),
{
    match v {
        Some(s) => push_str_field(f, k, s),
        None => {},
    }
    assert(crate::json::fields_view(f@) =~= crate::json::fields_view(old(f)@) + opt_str_field(
        k@,
        opt_str(*v),
    ));
}

fn clone_all(v: &Vec<Json>) -> (r: Vec<Json>)
    ensures
        elems_view(r@) == elems_view(v@),
{
    let mut out: Vec<Json> = Vec::new();
    let mut i: usize = 0;
    while i < v.len()
        invariant
            i <= v@.len(),
            out@.len() == i,
            forall|k: int| 0 <= k < i ==> (#[trigger] out@[k])@ == v@[k]@,
        decreases v@.len() - i,
    {
        out.push(deep_clone(&v[i]));
        i = i + 1;
    }
    assert(elems_view(out@) =~= elems_view(v@));
    out
}

pub fn summary_json(p: &SummaryPartOut) -> (r: Json)
    ensures
        r@ == summary_json_v(p@),
{
    let mut f: Vec<(String, Json)> = Vec::new();
    push_str_field(&mut f, "type", &p.part_type);
    push_str_field(&mut f, "text", &p.text);
    match &p.annotations {
        Some(a) => {
            let v = clone_all(a);
            proof {
                crate::json::lemma_array_view(v);
            }
            push_field(&mut f, "annotations", Json::Array(v));
        },
        None => {},
    }
    proof {
        crate::json::lemma_object_view(f);
    }
    assert(crate::json::fields_view(f@) =~= match summary_json_v(p@) {
        JsonV::Object(fs) => fs,
        _ => Seq::empty(),
    });
    Json::Object(f)
}

pub fn content_json(c: &ResponsesOutputContentOut) -> (r: Json)
    ensures
        r@ == content_json_v(c@),
{
    let mut f: Vec<(String, Json)> = Vec::new();
    push_str_field(&mut f, "type", &c.content_type);
    push_str_field(&mut f, "text", &c.text);
    if !c.refusal.as_str().is_empty() {
        push_str_field(&mut f, "refusal", &c.refusal);
    }
    let v = clone_all(&c.annotations);
    proof {
        crate::json::lemma_array_view(v);
    }
    push_field(&mut f, "annotations", Json::Array(v));
    proof {
        crate::json::lemma_object_view(f);
    }
    assert(crate::json::fields_view(f@) =~= match content_json_v(c@) {
        JsonV::Object(fs) => fs,
        _ => Seq::empty(),
    });
    Json::Object(f)
}

fn contents_json(cs: &Vec<ResponsesOutputContentOut>) -> (r: Json)
    ensures
        r@ == JsonV::Array(cs@.map_values(|c: ResponsesOutputContentOut| c@).map_values(
            |c: ContentPartV| content_json_v(c),
        )),
{
    let mut out: Vec<Json> = Vec::new();
    let mut i: usize = 0;
    while i < cs.len()
        invariant
            i <= cs@.len(),
            out@.len() == i,
            forall|k: int| 0 <= k < i ==> (#[trigger] out@[k])@ == content_json_v(cs@[k]@),
        decreases cs@.len() - i,
    {
        out.push(content_json(&cs[i]));
        i = i + 1;
    }
    proof {
        crate::json::lemma_array_view(out);
    }
    assert(elems_view(out@) =~= cs@.map_values(|c: ResponsesOutputContentOut| c@).map_values(
        |c: ContentPartV| content_json_v(c),
    ));
    Json::Array(out)
}

fn summaries_json(ps: &Vec<SummaryPartOut>) -> (r: Json)
    ensures
        r@ == JsonV::Array(ps@.map_values(|p: SummaryPartOut| p@).map_values(
            |p: SummaryPartV| summary_json_v(p),
        )),
{
    let mut out: Vec<Json> = Vec::new();
    let mut i: usize = 0;
    while i < ps.len()
        invariant
            i <= ps@.len(),
            out@.len() == i,
            forall|k: int| 0 <= k < i ==> (#[trigger] out@[k])@ == summary_json_v(ps@[k]@),
        decreases ps@.len() - i,
    {
        out.push(summary_json(&ps[i]));
        i = i + 1;
    }
    proof {
        crate::json::lemma_array_view(out);
    }
    assert(elems_view(out@) =~= ps@.map_values(|p: SummaryPartOut| p@).map_values(
        |p: SummaryPartV| summary_json_v(p),
    ));
    Json::Array(out)
}

fn push_item_head(f: &mut Vec<(String, Json)>, o: &ResponsesOutputOut)
    ensures
        crate::json::fields_view(final(f)@) == crate::json::fields_view(old(f)@) + item_head_v(o@),
{
    let ghost f0 = crate::json::fields_view(f@);
    push_str_field(f, "type", &o.item_type);
    if !o.id.as_str().is_empty() {
        push_str_field(f, "id", &o.id);
    }
    push_str_field(f, "status", &o.status);
    push_str_field(f, "role", &o.role);
    push_field(f, "content", contents_json(&o.content));
    if o.summary.len() > 0 {
        push_field(f, "summary", summaries_json(&o.summary));
    }
    push_str_field(f, "quality", &o.quality);
    push_str_field(f, "size", &o.size);
    assert(crate::json::fields_view(f@) =~= f0 + item_head_v(o@));
}

fn push_item_tail(f: &mut Vec<(String, Json)>, o: &ResponsesOutputOut)
    ensures
        crate::json::fields_view(final(f)@) == crate::json::fields_view(old(f)@) + item_tail_v(o@),
{
    let ghost f0 = crate::json::fields_view(f@);
    let ghost v = o@;
    push_opt_str_field(f, "call_id", &o.call_id);
    let ghost a1 = opt_str_field("call_id"@, v.call_id);
    push_opt_str_field(f, "name", &o.name);
    let ghost a2 = a1 + opt_str_field("name"@, v.name);
    assert(crate::json::fields_view(f@) =~= f0 + a2);
    push_opt_str_field(f, "namespace", &o.namespace);
    let ghost a3 = a2 + opt_str_field("namespace"@, v.namespace);
    assert(crate::json::fields_view(f@) =~= f0 + a3);
    match &o.arguments {
        Some(a) => push_field(f, "arguments", deep_clone(a)),
        None => {},
    }
    let ghost a4 = a3 + match v.arguments {
        Some(a) => seq![("arguments"@, a)],
        None => Seq::empty(),
    };
    assert(crate::json::fields_view(f@) =~= f0 + a4);
    push_opt_str_field(f, "reasoning_content", &o.reasoning_content);
    let ghost a5 = a4 + opt_str_field("reasoning_content"@, v.reasoning_content);
    assert(crate::json::fields_view(f@) =~= f0 + a5);
    push_opt_str_field(f, "query", &o.query);
    let ghost a6 = a5 + opt_str_field("query"@, v.query);
    assert(crate::json::fields_view(f@) =~= f0 + a6);
    push_opt_str_field(f, "input", &o.input);
    let ghost a7 = a6 + opt_str_field("input"@, v.input);
    assert(crate::json::fields_view(f@) =~= f0 + a7);
    push_opt_str_field(f, "execution", &o.execution);
    let ghost a8 = a7 + opt_str_field("execution"@, v.execution);
    assert(crate::json::fields_view(f@) =~= f0 + a8);
    assert(a8 == item_tail_v(v));
}

/// An output item as the JSON a client receives.
pub fn item_json(o: &ResponsesOutputOut) -> (r: Json)
    ensures
        r@ == item_json_v(o@),
{
    let mut f: Vec<(String, Json)> = Vec::new();
    push_item_head(&mut f, o);
    push_item_tail(&mut f, o);
    proof {
        crate::json::lemma_object_view(f);
    }
    assert(crate::json::fields_view(f@) =~= item_head_v(o@) + item_tail_v(o@));
    Json::Object(f)
}

/// Usage as the JSON a client receives, fields in declaration order.
pub open spec fn usage_out_json_v(
    prompt: i64,
    completion: i64,
    total: i64,
    prompt_details: JsonV,
    completion_details: JsonV,
    input_details: JsonV,
    output_details: JsonV,
) -> JsonV {
    JsonV::Object(
        seq![
            ("prompt_tokens"@, int_v(prompt)),
            ("completion_tokens"@, int_v(completion)),
            ("total_tokens"@, int_v(total)),
            ("prompt_tokens_details"@, prompt_details),
            ("completion_tokens_details"@, completion_details),
            ("input_tokens"@, int_v(prompt)),
            ("output_tokens"@, int_v(completion)),
            ("input_tokens_details"@, input_details),
            ("output_tokens_details"@, output_details),
        ],
    )
}

/// Chat usage as the Responses usage JSON (see `usage_from_chat`).
pub open spec fn usage_json_v(u: UsageV) -> JsonV {
    usage_out_json_v(
        usage_input(u),
        usage_output(u),
        usage_total(u),
        match u.prompt_tokens_details {
            Some(d) => d,
            None => zero_prompt_details_v(),
        },
        match u.completion_tokens_details {
            Some(d) => d,
            None => zero_completion_details_v(),
        },
        match input_details_v(u) {
            Some(d) => d,
            None => zero_cached_v(),
        },
        output_details_v(u.completion_tokens_details),
    )
}

/// The usage sent when the upstream gave none: every count zero.
pub open spec fn zero_usage_json_v() -> JsonV {
    usage_out_json_v(
        0,
        0,
        0,
        zero_prompt_details_v(),
        zero_completion_details_v(),
        zero_cached_v(),
        zero_completion_details_v(),
    )
}

/// Responses usage as JSON.
pub fn usage_out_json(u: &ResponsesUsageOut) -> (r: Json)
    requires
        u.input_tokens == u.prompt_tokens,
        u.output_tokens == u.completion_tokens,
    ensures
        r@ == usage_out_json_v(
            u.prompt_tokens,
            u.completion_tokens,
            u.total_tokens,
            u.prompt_tokens_details@,
            u.completion_tokens_details@,
            u.input_tokens_details@,
            u.output_tokens_details@,
        ),
{
    let mut f: Vec<(String, Json)> = Vec::new();
    push_field(&mut f, "prompt_tokens", int_json_of(u.prompt_tokens));
    push_field(&mut f, "completion_tokens", int_json_of(u.completion_tokens));
    push_field(&mut f, "total_tokens", int_json_of(u.total_tokens));
    push_field(&mut f, "prompt_tokens_details", deep_clone(&u.prompt_tokens_details));
    push_field(&mut f, "completion_tokens_details", deep_clone(&u.completion_tokens_details));
    push_field(&mut f, "input_tokens", int_json_of(u.input_tokens));
    push_field(&mut f, "output_tokens", int_json_of(u.output_tokens));
    push_field(&mut f, "input_tokens_details", deep_clone(&u.input_tokens_details));
    push_field(&mut f, "output_tokens_details", deep_clone(&u.output_tokens_details));
    proof {
        crate::json::lemma_object_view(f);
    }
    assert(crate::json::fields_view(f@) =~= match usage_out_json_v(
        u.prompt_tokens,
        u.completion_tokens,
        u.total_tokens,
        u.prompt_tokens_details@,
        u.completion_tokens_details@,
        u.input_tokens_details@,
        u.output_tokens_details@,
    ) {
        JsonV::Object(fs) => fs,
        _ => Seq::empty(),
    });
    Json::Object(f)
}

/// The usage with every count zero (sent when the upstream gave none).
pub fn zero_usage() -> (r: ResponsesUsageOut)
    ensures
        r.input_tokens == r.prompt_tokens,
        r.output_tokens == r.completion_tokens,
        usage_out_json_v(
            r.prompt_tokens,
            r.completion_tokens,
            r.total_tokens,
            r.prompt_tokens_details@,
            r.completion_tokens_details@,
            r.input_tokens_details@,
            r.output_tokens_details@,
        ) == zero_usage_json_v(),
{
    let mut f: Vec<(String, Json)> = Vec::new();
    push_field(&mut f, "cached_tokens", Json::Number(JsonNumber::PosInt(0)));
    proof {
        crate::json::lemma_object_view(f);
    }
    assert(crate::json::fields_view(f@) =~= seq![("cached_tokens"@, zero_v())]);
    ResponsesUsageOut {
        prompt_tokens: 0,
        completion_tokens: 0,
        total_tokens: 0,
        prompt_tokens_details: zero_prompt_details(),
        completion_tokens_details: zero_completion_details(),
        input_tokens: 0,
        output_tokens: 0,
        input_tokens_details: Json::Object(f),
        output_tokens_details: zero_completion_details(),
    }
}

} // verus!
