//! Reactive rectification of a rejected outbound request: which upstream
//! answers qualify, how their error text is classified, and how the
//! outbound body is rewritten for the one retry.
use vstd::prelude::*;

use crate::codec::{json_parse, json_text, parse_json, to_json_bytes};
use crate::json::{
    deep_clone, elems_view, fields_view, get_cloned, lemma_object_view, lemma_vget_vset,
    remove_field, vget, vget_arr, vget_str, vset, Json, JsonNumber, JsonV, NumV,
};
use crate::sse::{lossy_text, utf8_lossy};
use crate::text::{
    ascii_lower_seq, ascii_lowercase, chars_of, contains, contains_any, has, has_any, is, lit_views,
    owned, to_lowercase, unicode_lowercase, utf8, utf8_bytes,
};

verus! {

/// Statuses on which a rewrite-and-retry is attempted.
pub open spec fn rectifiable(status: u16) -> bool {
    status == 400 || status == 413 || status == 415 || status == 422
}

pub fn is_rectifiable_status(status: u16) -> (r: bool)
    ensures
        r == rectifiable(status),
{
    status == 400 || status == 413 || status == 415 || status == 422
}

pub open spec fn budget_subjects() -> Seq<Seq<char>> {
    seq!["budget_tokens"@, "thinking budget"@, "budget tokens"@]
}

pub open spec fn budget_constraints() -> Seq<Seq<char>> {
    seq!["must be"@, "greater than"@, "less than"@, "minimum"@, "invalid"@, "exceeds"@]
}

/// The error text (ASCII case-folded) names the thinking budget and a
/// constraint on it.
pub open spec fn thinking_budget_error(message: Seq<char>) -> bool {
    let m = ascii_lower_seq(message);
    contains_any(m, budget_subjects()) && contains_any(m, budget_constraints())
}

pub fn is_thinking_budget_error(message: &str) -> (r: bool)
    ensures
        r == thinking_budget_error(message@),
{
    let m = ascii_lowercase(chars_of(message).as_slice());
    let subjects: [&str; 3] = ["budget_tokens", "thinking budget", "budget tokens"];
    let constraints: [&str; 6] = [
        "must be",
        "greater than",
        "less than",
        "minimum",
        "invalid",
        "exceeds",
    ];
    assert(lit_views(subjects@) =~= budget_subjects());
    assert(lit_views(constraints@) =~= budget_constraints());
    has_any(m.as_slice(), &subjects) && has_any(m.as_slice(), &constraints)
}

pub open spec fn text_only_phrases() -> Seq<Seq<char>> {
    seq!["only support text"@, "only supports text"@]
}

pub open spec fn image_words() -> Seq<Seq<char>> {
    seq![
        "image"@,
        "vision"@,
        "multimodal"@,
        "multi-modal"@,
        "modality"@,
        "modalities"@,
        "media"@,
        "attachment"@,
    ]
}

pub open spec fn unsupported_hints() -> Seq<Seq<char>> {
    seq![
        "unsupported"@,
        "not supported"@,
        "does not support"@,
        "doesn't support"@,
        "do not support"@,
        "don't support"@,
        "text only"@,
        "text-only"@,
        "invalid content type"@,
        "invalid message content"@,
        "unknown variant"@,
        "unknown content type"@,
        "unrecognized content type"@,
        "cannot process"@,
        "cannot handle"@,
        "can't process"@,
        "can't handle"@,
        "unable to process"@,
    ]
}

/// The error text (ASCII case-folded) says the model takes text only: a
/// self-evident "only support(s) text", or a mention of images/media
/// together with an unsupported-content hint.
pub open spec fn unsupported_image_error(message: Seq<char>) -> bool {
    let m = ascii_lower_seq(message);
    contains_any(m, text_only_phrases()) || (contains_any(m, image_words()) && contains_any(
        m,
        unsupported_hints(),
    ))
}

pub fn is_unsupported_image_error(message: &str) -> (r: bool)
    ensures
        r == unsupported_image_error(message@),
{
    let m = ascii_lowercase(chars_of(message).as_slice());
    let self_evident: [&str; 2] = ["only support text", "only supports text"];
    assert(lit_views(self_evident@) =~= text_only_phrases());
    if has_any(m.as_slice(), &self_evident) {
        return true;
    }
    let words: [&str; 8] = [
        "image",
        "vision",
        "multimodal",
        "multi-modal",
        "modality",
        "modalities",
        "media",
        "attachment",
    ];
    assert(lit_views(words@) =~= image_words());
    if !has_any(m.as_slice(), &words) {
        return false;
    }
    let hints: [&str; 18] = [
        "unsupported",
        "not supported",
        "does not support",
        "doesn't support",
        "do not support",
        "don't support",
        "text only",
        "text-only",
        "invalid content type",
        "invalid message content",
        "unknown variant",
        "unknown content type",
        "unrecognized content type",
        "cannot process",
        "cannot handle",
        "can't process",
        "can't handle",
        "unable to process",
    ];
    assert(lit_views(hints@) =~= unsupported_hints());
    has_any(m.as_slice(), &hints)
}

/// The error text (Unicode lower-cased) is one of the thinking-signature /
/// thinking-block shapes, or a generic invalid-request text.
pub open spec fn thinking_error(message: Seq<char>) -> bool {
    let l = unicode_lowercase(message);
    ||| (contains(l, "invalid"@) && contains(l, "signature"@) && contains(l, "thinking"@)
        && contains(l, "block"@))
    ||| (contains(l, "thought signature"@) && (contains(l, "not valid"@) || contains(
        l,
        "invalid"@,
    )))
    ||| contains(l, "must start with a thinking block"@)
    ||| (contains(l, "expected"@) && (contains(l, "thinking"@) || contains(
        l,
        "redacted_thinking"@,
    )) && contains(l, "found"@) && contains(l, "tool_use"@))
    ||| (contains(l, "signature"@) && contains(l, "field required"@))
    ||| (contains(l, "signature"@) && contains(l, "extra inputs are not permitted"@))
    ||| ((contains(l, "thinking"@) || contains(l, "redacted_thinking"@)) && contains(
        l,
        "cannot be modified"@,
    ))
    ||| contains(l, "非法请求"@)
    ||| contains(l, "illegal request"@)
    ||| contains(l, "invalid request"@)
}

pub fn is_thinking_error(message: &str) -> (r: bool)
    ensures
        r == thinking_error(message@),
{
    let lower = to_lowercase(message);
    let l = chars_of(lower.as_str());
    let l = l.as_slice();
    if has(l, "invalid") && has(l, "signature") && has(l, "thinking") && has(l, "block") {
        return true;
    }
    if has(l, "thought signature") && (has(l, "not valid") || has(l, "invalid")) {
        return true;
    }
    if has(l, "must start with a thinking block") {
        return true;
    }
    if has(l, "expected") && (has(l, "thinking") || has(l, "redacted_thinking")) && has(l, "found")
        && has(l, "tool_use") {
        return true;
    }
    if has(l, "signature") && has(l, "field required") {
        return true;
    }
    if has(l, "signature") && has(l, "extra inputs are not permitted") {
        return true;
    }
    if (has(l, "thinking") || has(l, "redacted_thinking")) && has(l, "cannot be modified") {
        return true;
    }
    has(l, "非法请求") || has(l, "illegal request") || has(l, "invalid request")
}

} // verus!

verus! {

// ---------------------------------------------------------------------------
// Body rewrites
// ---------------------------------------------------------------------------
pub open spec fn type_of(v: JsonV) -> Option<Seq<char>> {
    vget_str(v, "type"@)
}

/// Text part standing for a removed image.
pub open spec fn marker_part(kind: Seq<char>) -> JsonV {
    JsonV::Object(seq![("type"@, JsonV::Str(kind)), ("text"@, JsonV::Str("[Unsupported Image]"@))])
}

fn marker_part_exec(kind: &str) -> (r: Json)
    ensures
        r@ == marker_part(kind@),
{
    let mut f: Vec<(String, Json)> = Vec::new();
    f.push((owned("type"), Json::Str(owned(kind))));
    f.push((owned("text"), Json::Str(owned("[Unsupported Image]"))));
    proof {
        lemma_object_view(f);
        assert(fields_view(f@) =~= seq![
            ("type"@, JsonV::Str(kind@)),
            ("text"@, JsonV::Str("[Unsupported Image]"@)),
        ]);
    }
    Json::Object(f)
}

/// A rewrite of the items of an array, item by item, with the number of
/// items it touched.
pub open spec fn image_part(p: JsonV) -> bool {
    type_of(p) == Some("image_url"@) || type_of(p) == Some("image"@)
}

/// Content parts with each Chat / Anthropic image replaced by a text marker.
pub open spec fn parts_replaced(ps: Seq<JsonV>) -> Seq<JsonV>
    decreases ps.len(),
{
    if ps.len() == 0 {
        ps
    } else {
        parts_replaced(ps.drop_last()).push(
            if image_part(ps.last()) {
                marker_part("text"@)
            } else {
                ps.last()
            },
        )
    }
}

pub open spec fn images_in(ps: Seq<JsonV>) -> nat
    decreases ps.len(),
{
    if ps.len() == 0 {
        0
    } else {
        images_in(ps.drop_last()) + if image_part(ps.last()) {
            1nat
        } else {
            0nat
        }
    }
}

/// A message whose `content` array has its images replaced.
pub open spec fn msg_replaced(m: JsonV) -> JsonV {
    match vget(m, "content"@) {
        Some(JsonV::Array(ps)) => vset(m, "content"@, JsonV::Array(parts_replaced(ps))),
        _ => m,
    }
}

pub open spec fn msg_images(m: JsonV) -> nat {
    match vget(m, "content"@) {
        Some(JsonV::Array(ps)) => images_in(ps),
        _ => 0,
    }
}

pub open spec fn msgs_replaced(ms: Seq<JsonV>) -> Seq<JsonV>
    decreases ms.len(),
{
    if ms.len() == 0 {
        ms
    } else {
        msgs_replaced(ms.drop_last()).push(msg_replaced(ms.last()))
    }
}

pub open spec fn msgs_images(ms: Seq<JsonV>) -> nat
    decreases ms.len(),
{
    if ms.len() == 0 {
        0
    } else {
        msgs_images(ms.drop_last()) + msg_images(ms.last())
    }
}

/// Responses input items with each `input_image` replaced by a text marker.
pub open spec fn items_replaced(its: Seq<JsonV>) -> Seq<JsonV>
    decreases its.len(),
{
    if its.len() == 0 {
        its
    } else {
        items_replaced(its.drop_last()).push(
            if type_of(its.last()) == Some("input_image"@) {
                marker_part("input_text"@)
            } else {
                its.last()
            },
        )
    }
}

pub open spec fn input_images(its: Seq<JsonV>) -> nat
    decreases its.len(),
{
    if its.len() == 0 {
        0
    } else {
        input_images(its.drop_last()) + if type_of(its.last()) == Some("input_image"@) {
            1nat
        } else {
            0nat
        }
    }
}

/// The body with every image of its `messages` contents and of its
/// `input` items replaced by a text marker.
pub open spec fn images_replaced(b: JsonV) -> JsonV {
    let b1 = match vget(b, "messages"@) {
        Some(JsonV::Array(ms)) => vset(b, "messages"@, JsonV::Array(msgs_replaced(ms))),
        _ => b,
    };
    match vget(b, "input"@) {
        Some(JsonV::Array(its)) => vset(b1, "input"@, JsonV::Array(items_replaced(its))),
        _ => b1,
    }
}

/// How many images `images_replaced` replaces.
pub open spec fn images_count(b: JsonV) -> nat {
    (match vget(b, "messages"@) {
        Some(JsonV::Array(ms)) => msgs_images(ms),
        _ => 0,
    }) + (match vget(b, "input"@) {
        Some(JsonV::Array(its)) => input_images(its),
        _ => 0,
    })
}

fn is_type(v: &Json, lit: &str) -> (r: bool)
    ensures
        r == (type_of(v@) == Some(lit@)),
{
    match v.get_str("type") {
        Some(t) => crate::text::seq_eq(chars_of(t.as_str()).as_slice(), chars_of(lit).as_slice()),
        None => false,
    }
}

fn replace_parts(ps: &Vec<Json>) -> (r: (Vec<Json>, bool))
    ensures
        elems_view(r.0@) == parts_replaced(elems_view(ps@)),
        r.1 == (images_in(elems_view(ps@)) > 0),
{
    let ghost pv = elems_view(ps@);
    let mut out: Vec<Json> = Vec::new();
    let mut any = false;
    let mut i: usize = 0;
    while i < ps.len()
        invariant
            i <= ps@.len(),
            pv == elems_view(ps@),
            elems_view(out@) == parts_replaced(pv.take(i as int)),
            any == (images_in(pv.take(i as int)) > 0),
        decreases ps@.len() - i,
    {
        proof {
            assert(pv.take(i + 1).drop_last() =~= pv.take(i as int));
            assert(pv.take(i + 1).last() == ps@[i as int]@);
        }
        let ghost before = elems_view(out@);
        let item = if is_type(&ps[i], "image_url") || is_type(&ps[i], "image") {
            any = true;
            marker_part_exec("text")
        } else {
            deep_clone(&ps[i])
        };
        let ghost iv = item@;
        out.push(item);
        assert(elems_view(out@) =~= before.push(iv));
        i = i + 1;
    }
    assert(pv.take(ps@.len() as int) =~= pv);
    (out, any)
}

fn replace_in_message(m: &Json) -> (r: (Json, bool))
    ensures
        r.0@ == msg_replaced(m@),
        r.1 == (msg_images(m@) > 0),
{
    match m.get("content") {
        Some(c) => match c.as_array() {
            Some(ps) => {
                let (np, any) = replace_parts(ps);
                let mut out = deep_clone(m);
                proof {
                    crate::json::lemma_array_view(np);
                }
                out.set("content", Json::Array(np));
                (out, any)
            },
            None => (deep_clone(m), false),
        },
        None => (deep_clone(m), false),
    }
}

fn replace_in_messages(ms: &Vec<Json>) -> (r: (Vec<Json>, bool))
    ensures
        elems_view(r.0@) == msgs_replaced(elems_view(ms@)),
        r.1 == (msgs_images(elems_view(ms@)) > 0),
{
    let ghost mv = elems_view(ms@);
    let mut out: Vec<Json> = Vec::new();
    let mut any = false;
    let mut i: usize = 0;
    while i < ms.len()
        invariant
            i <= ms@.len(),
            mv == elems_view(ms@),
            elems_view(out@) == msgs_replaced(mv.take(i as int)),
            any == (msgs_images(mv.take(i as int)) > 0),
        decreases ms@.len() - i,
    {
        proof {
            assert(mv.take(i + 1).drop_last() =~= mv.take(i as int));
            assert(mv.take(i + 1).last() == ms@[i as int]@);
        }
        let ghost before = elems_view(out@);
        let (m, a) = replace_in_message(&ms[i]);
        if a {
            any = true;
        }
        let ghost v = m@;
        out.push(m);
        assert(elems_view(out@) =~= before.push(v));
        i = i + 1;
    }
    assert(mv.take(ms@.len() as int) =~= mv);
    (out, any)
}

fn replace_in_items(its: &Vec<Json>) -> (r: (Vec<Json>, bool))
    ensures
        elems_view(r.0@) == items_replaced(elems_view(its@)),
        r.1 == (input_images(elems_view(its@)) > 0),
{
    let ghost iv0 = elems_view(its@);
    let mut out: Vec<Json> = Vec::new();
    let mut any = false;
    let mut i: usize = 0;
    while i < its.len()
        invariant
            i <= its@.len(),
            iv0 == elems_view(its@),
            elems_view(out@) == items_replaced(iv0.take(i as int)),
            any == (input_images(iv0.take(i as int)) > 0),
        decreases its@.len() - i,
    {
        proof {
            assert(iv0.take(i + 1).drop_last() =~= iv0.take(i as int));
            assert(iv0.take(i + 1).last() == its@[i as int]@);
        }
        let ghost before = elems_view(out@);
        let item = if is_type(&its[i], "input_image") {
            any = true;
            marker_part_exec("input_text")
        } else {
            deep_clone(&its[i])
        };
        let ghost v = item@;
        out.push(item);
        assert(elems_view(out@) =~= before.push(v));
        i = i + 1;
    }
    assert(iv0.take(its@.len() as int) =~= iv0);
    (out, any)
}

/// Replaces the images of an outbound body by text markers (see
/// `images_replaced`); says whether there was any.
pub fn replace_image_parts(body: &mut Json) -> (r: bool)
    ensures
        final(body)@ == images_replaced(old(body)@),
        r == (images_count(old(body)@) > 0),
{
    let ghost b0 = body@;
    let mut any = false;
    let input = get_cloned(body, "input");
    match body.get("messages") {
        Some(m) => match m.as_array() {
            Some(ms) => {
                let (nm, a) = replace_in_messages(ms);
                any = a;
                proof {
                    crate::json::lemma_array_view(nm);
                }
                body.set("messages", Json::Array(nm));
            },
            None => {},
        },
        None => {},
    }
    let ghost b1 = body@;
    proof {
        if b0 is Object {
            lemma_vget_vset(b0, "messages"@, JsonV::Null, "input"@);
        }
    }
    match input {
        Some(inp) => match inp.as_array() {
            Some(its) => {
                let (ni, a) = replace_in_items(its);
                if a {
                    any = true;
                }
                proof {
                    crate::json::lemma_array_view(ni);
                }
                body.set("input", Json::Array(ni));
            },
            None => {},
        },
        None => {},
    }
    proof {
        reveal_strlit("messages");
        reveal_strlit("input");
        if b0 is Object {
            match vget(b0, "messages"@) {
                Some(JsonV::Array(ms)) => {
                    lemma_vget_vset(b0, "messages"@, JsonV::Array(msgs_replaced(ms)), "input"@);
                },
                _ => {},
            }
        }
    }
    any
}

// ---------------------------------------------------------------------------
// Thinking blocks
// ---------------------------------------------------------------------------
pub open spec fn thinking_block(b: JsonV) -> bool {
    type_of(b) == Some("thinking"@) || type_of(b) == Some("redacted_thinking"@)
}

pub open spec fn has_signature(b: JsonV) -> bool {
    vget(b, "signature"@) is Some
}

/// Content blocks without thinking blocks, and without `signature` on the
/// blocks that stay.
pub open spec fn blocks_stripped(bs: Seq<JsonV>) -> Seq<JsonV>
    decreases bs.len(),
{
    if bs.len() == 0 {
        bs
    } else {
        let r = blocks_stripped(bs.drop_last());
        let b = bs.last();
        if thinking_block(b) {
            r
        } else if has_signature(b) {
            r.push(JsonV::Object(remove_field(b->Object_0, "signature"@)))
        } else {
            r.push(b)
        }
    }
}

pub open spec fn blocks_touched(bs: Seq<JsonV>) -> nat
    decreases bs.len(),
{
    if bs.len() == 0 {
        0
    } else {
        blocks_touched(bs.drop_last()) + if thinking_block(bs.last()) || has_signature(bs.last()) {
            1nat
        } else {
            0nat
        }
    }
}

pub open spec fn msg_stripped(m: JsonV) -> JsonV {
    match vget(m, "content"@) {
        Some(JsonV::Array(bs)) => vset(m, "content"@, JsonV::Array(blocks_stripped(bs))),
        _ => m,
    }
}

pub open spec fn msg_touched(m: JsonV) -> nat {
    match vget(m, "content"@) {
        Some(JsonV::Array(bs)) => blocks_touched(bs),
        _ => 0,
    }
}

pub open spec fn msgs_stripped(ms: Seq<JsonV>) -> Seq<JsonV>
    decreases ms.len(),
{
    if ms.len() == 0 {
        ms
    } else {
        msgs_stripped(ms.drop_last()).push(msg_stripped(ms.last()))
    }
}

pub open spec fn msgs_touched(ms: Seq<JsonV>) -> nat
    decreases ms.len(),
{
    if ms.len() == 0 {
        0
    } else {
        msgs_touched(ms.drop_last()) + msg_touched(ms.last())
    }
}

/// The body with thinking blocks and block signatures removed from its
/// messages' contents.
pub open spec fn thinking_stripped(b: JsonV) -> JsonV {
    match vget(b, "messages"@) {
        Some(JsonV::Array(ms)) => vset(b, "messages"@, JsonV::Array(msgs_stripped(ms))),
        _ => b,
    }
}

pub open spec fn thinking_touched(b: JsonV) -> nat {
    match vget(b, "messages"@) {
        Some(JsonV::Array(ms)) => msgs_touched(ms),
        _ => 0,
    }
}

fn strip_blocks(bs: &Vec<Json>) -> (r: (Vec<Json>, bool))
    ensures
        elems_view(r.0@) == blocks_stripped(elems_view(bs@)),
        r.1 == (blocks_touched(elems_view(bs@)) > 0),
{
    let ghost bv = elems_view(bs@);
    let mut out: Vec<Json> = Vec::new();
    let mut any = false;
    let mut i: usize = 0;
    while i < bs.len()
        invariant
            i <= bs@.len(),
            bv == elems_view(bs@),
            elems_view(out@) == blocks_stripped(bv.take(i as int)),
            any == (blocks_touched(bv.take(i as int)) > 0),
        decreases bs@.len() - i,
    {
        proof {
            assert(bv.take(i + 1).drop_last() =~= bv.take(i as int));
            assert(bv.take(i + 1).last() == bs@[i as int]@);
        }
        let ghost before = elems_view(out@);
        if is_type(&bs[i], "thinking") || is_type(&bs[i], "redacted_thinking") {
            any = true;
        } else if bs[i].get("signature").is_some() {
            any = true;
            let mut b = deep_clone(&bs[i]);
            b.remove("signature");
            let ghost v = b@;
            out.push(b);
            assert(elems_view(out@) =~= before.push(v));
        } else {
            let b = deep_clone(&bs[i]);
            let ghost v = b@;
            out.push(b);
            assert(elems_view(out@) =~= before.push(v));
        }
        i = i + 1;
    }
    assert(bv.take(bs@.len() as int) =~= bv);
    (out, any)
}

fn strip_in_messages(ms: &Vec<Json>) -> (r: (Vec<Json>, bool))
    ensures
        elems_view(r.0@) == msgs_stripped(elems_view(ms@)),
        r.1 == (msgs_touched(elems_view(ms@)) > 0),
{
    let ghost mv = elems_view(ms@);
    let mut out: Vec<Json> = Vec::new();
    let mut any = false;
    let mut i: usize = 0;
    while i < ms.len()
        invariant
            i <= ms@.len(),
            mv == elems_view(ms@),
            elems_view(out@) == msgs_stripped(mv.take(i as int)),
            any == (msgs_touched(mv.take(i as int)) > 0),
        decreases ms@.len() - i,
    {
        proof {
            assert(mv.take(i + 1).drop_last() =~= mv.take(i as int));
            assert(mv.take(i + 1).last() == ms@[i as int]@);
        }
        let ghost before = elems_view(out@);
        let m = match ms[i].get("content") {
            Some(c) => match c.as_array() {
                Some(bs) => {
                    let (nb, a) = strip_blocks(bs);
                    if a {
                        any = true;
                    }
                    let mut o = deep_clone(&ms[i]);
                    proof {
                        crate::json::lemma_array_view(nb);
                    }
                    o.set("content", Json::Array(nb));
                    o
                },
                None => deep_clone(&ms[i]),
            },
            None => deep_clone(&ms[i]),
        };
        let ghost v = m@;
        out.push(m);
        assert(elems_view(out@) =~= before.push(v));
        i = i + 1;
    }
    assert(mv.take(ms@.len() as int) =~= mv);
    (out, any)
}

/// Removes thinking blocks and block signatures (see `thinking_stripped`);
/// says whether anything was removed.
pub fn strip_thinking_blocks(body: &mut Json) -> (r: bool)
    ensures
        final(body)@ == thinking_stripped(old(body)@),
        r == (thinking_touched(old(body)@) > 0),
{
    match body.get("messages") {
        Some(m) => match m.as_array() {
            Some(ms) => {
                let (nm, a) = strip_in_messages(ms);
                proof {
                    crate::json::lemma_array_view(nm);
                }
                body.set("messages", Json::Array(nm));
                a
            },
            None => false,
        },
        None => false,
    }
}

pub open spec fn thinking_enabled(b: JsonV) -> bool {
    match vget(b, "thinking"@) {
        Some(t) => type_of(t) == Some("enabled"@),
        None => false,
    }
}

/// Index of the last assistant message among the first `k`.
pub open spec fn last_assistant(ms: Seq<JsonV>, k: int) -> Option<int>
    decreases k,
{
    if k <= 0 || k > ms.len() {
        None
    } else if vget_str(ms[k - 1], "role"@) == Some("assistant"@) {
        Some(k - 1)
    } else {
        last_assistant(ms, k - 1)
    }
}

/// The top-level `thinking` must go: it is enabled, and the last assistant
/// message does not start with a thinking block.
pub open spec fn top_thinking_broken(b: JsonV) -> bool {
    thinking_enabled(b) && match vget_arr(b, "messages"@) {
        Some(ms) => match last_assistant(ms, ms.len() as int) {
            Some(i) => !(match vget_arr(ms[i], "content"@) {
                Some(bs) => bs.len() > 0 && thinking_block(bs[0]),
                None => false,
            }),
            None => false,
        },
        None => false,
    }
}

fn is_thinking_enabled(b: &Json) -> (r: bool)
    ensures
        r == thinking_enabled(b@),
{
    match b.get("thinking") {
        Some(t) => is_type(t, "enabled"),
        None => false,
    }
}

pub fn remove_top_level_thinking_if_broken(body: &Json) -> (r: bool)
    ensures
        r == top_thinking_broken(body@),
{
    if !is_thinking_enabled(body) {
        return false;
    }
    let ms = match body.get("messages") {
        Some(m) => match m.as_array() {
            Some(a) => a,
            None => return false,
        },
        None => return false,
    };
    let ghost mv = elems_view(ms@);
    let mut k: usize = ms.len();
    while k > 0
        invariant
            k <= ms@.len(),
            mv == elems_view(ms@),
            thinking_enabled(body@),
            vget_arr(body@, "messages"@) == Some(mv),
            last_assistant(mv, mv.len() as int) == last_assistant(mv, k as int),
        decreases k,
    {
        assert(mv[k - 1] == ms@[k - 1]@);
        let is_assistant = match ms[k - 1].get_str("role") {
            Some(r) => is(chars_of(r.as_str()).as_slice(), "assistant"),
            None => false,
        };
        if is_assistant {
            let starts = match ms[k - 1].get("content") {
                Some(c) => match c.as_array() {
                    Some(bs) => bs.len() > 0 && (is_type(&bs[0], "thinking") || is_type(
                        &bs[0],
                        "redacted_thinking",
                    )),
                    None => false,
                },
                None => false,
            };
            assert(last_assistant(mv, k as int) == Some((k - 1) as int));
            return !starts;
        }
        k = k - 1;
    }
    false
}

// ---------------------------------------------------------------------------
// Thinking budget
// ---------------------------------------------------------------------------
pub open spec fn as_u64_v(v: JsonV) -> Option<u64> {
    match v {
        JsonV::Number(NumV::PosInt(u)) => Some(u),
        JsonV::Number(NumV::NegInt(i)) => if i >= 0 {
            Some(i as u64)
        } else {
            None
        },
        _ => None,
    }
}

fn as_u64_exec(v: &Json) -> (r: Option<u64>)
    ensures
        r == as_u64_v(v@),
{
    match v {
        Json::Number(JsonNumber::PosInt(u)) => Some(*u),
        Json::Number(JsonNumber::NegInt(i)) => if *i >= 0 {
            Some(*i as u64)
        } else {
            None
        },
        _ => None,
    }
}

pub open spec fn budget_low(b: JsonV) -> bool {
    match vget(b, "thinking"@) {
        Some(t) => match vget(t, "budget_tokens"@) {
            Some(x) => match as_u64_v(x) {
                Some(n) => n < 32000,
                None => true,
            },
            None => true,
        },
        None => true,
    }
}

pub open spec fn max_tokens_low(b: JsonV) -> bool {
    match vget(b, "max_tokens"@) {
        Some(x) => match as_u64_v(x) {
            Some(n) => n < 64000,
            None => true,
        },
        None => true,
    }
}

/// With thinking enabled, `thinking.budget_tokens` below 32000 (or not an
/// unsigned integer) becomes 32000, and `max_tokens` below 64000 (or not
/// one) becomes 64000; the flag says whether either changed.
pub open spec fn budget_raised(b: JsonV) -> (JsonV, bool) {
    if !thinking_enabled(b) {
        (b, false)
    } else {
        let b1 = if budget_low(b) {
            vset(
                b,
                "thinking"@,
                vset(vget(b, "thinking"@).unwrap(), "budget_tokens"@, JsonV::Number(NumV::PosInt(32000))),
            )
        } else {
            b
        };
        let b2 = if max_tokens_low(b) {
            vset(b1, "max_tokens"@, JsonV::Number(NumV::PosInt(64000)))
        } else {
            b1
        };
        (b2, budget_low(b) || max_tokens_low(b))
    }
}

pub fn raise_thinking_budget(body: &mut Json) -> (r: bool)
    ensures
        final(body)@ == budget_raised(old(body)@).0,
        r == budget_raised(old(body)@).1,
{
    if !is_thinking_enabled(body) {
        return false;
    }
    let ghost b0 = body@;
    let thinking = match get_cloned(body, "thinking") {
        Some(t) => t,
        None => return false,
    };
    let low = match thinking.get("budget_tokens") {
        Some(x) => match as_u64_exec(x) {
            Some(n) => n < 32000,
            None => true,
        },
        None => true,
    };
    let max_low = match body.get("max_tokens") {
        Some(x) => match as_u64_exec(x) {
            Some(n) => n < 64000,
            None => true,
        },
        None => true,
    };
    if low {
        let mut t = thinking;
        t.set("budget_tokens", Json::Number(JsonNumber::PosInt(32000)));
        body.set("thinking", t);
    }
    if max_low {
        body.set("max_tokens", Json::Number(JsonNumber::PosInt(64000)));
    }
    low || max_low
}

// ---------------------------------------------------------------------------
// The retry body
// ---------------------------------------------------------------------------
/// The message of an upstream error body: `error.message`, `message` or
/// `detail` of its JSON, else the whole (lossily decoded) text.
pub open spec fn error_text(body: Seq<u8>) -> Seq<char> {
    let raw = utf8_lossy(body);
    match json_parse(utf8(raw)) {
        Some(v) => match (match vget(v, "error"@) {
            Some(e) => vget_str(e, "message"@),
            None => None,
        }) {
            Some(m) => m,
            None => match vget_str(v, "message"@) {
                Some(m) => m,
                None => match vget_str(v, "detail"@) {
                    Some(m) => m,
                    None => raw,
                },
            },
        },
        None => raw,
    }
}

pub fn extract_error_text(body: &[u8]) -> (r: String)
    ensures
        r@ == error_text(body@),
{
    let raw = lossy_text(body);
    let rc = chars_of(raw.as_str());
    let bytes = utf8_bytes(rc.as_slice());
    match parse_json(bytes.as_slice()) {
        Some(v) => {
            let em = match v.get("error") {
                Some(e) => match e.get_str("message") {
                    Some(m) => Some(m.clone()),
                    None => None,
                },
                None => None,
            };
            match em {
                Some(m) => m,
                None => match v.get_str("message") {
                    Some(m) => m.clone(),
                    None => match v.get_str("detail") {
                        Some(m) => m.clone(),
                        None => raw,
                    },
                },
            }
        },
        None => raw,
    }
}

/// The rewritten outbound body for the one retry, if the error and the
/// body call for one: images become markers on an "image not supported"
/// error; toward a native Anthropic upstream, thinking blocks go on a
/// thinking error (and the top-level `thinking` when it is left broken),
/// and the thinking budget is raised on a budget error.
pub open spec fn rectified(
    anthropic_native: bool,
    outbound: Seq<u8>,
    error_body: Seq<u8>,
    status: u16,
) -> Option<Seq<u8>> {
    if !rectifiable(status) {
        None
    } else {
        let msg = error_text(error_body);
        match json_parse(outbound) {
            None => None,
            Some(b0) => {
                let img = unsupported_image_error(msg);
                let b1 = if img {
                    images_replaced(b0)
                } else {
                    b0
                };
                let c1 = img && images_count(b0) > 0;
                let th = thinking_error(msg) && anthropic_native;
                let b2 = if th {
                    thinking_stripped(b1)
                } else {
                    b1
                };
                let broken = th && top_thinking_broken(b2);
                let b3 = if broken {
                    match b2 {
                        JsonV::Object(fs) => JsonV::Object(remove_field(fs, "thinking"@)),
                        _ => b2,
                    }
                } else {
                    b2
                };
                let c2 = th && (thinking_touched(b1) > 0 || (broken && b2 is Object));
                let bud = anthropic_native && thinking_budget_error(msg);
                let b4 = if bud {
                    budget_raised(b3).0
                } else {
                    b3
                };
                let c3 = bud && budget_raised(b3).1;
                if c1 || c2 || c3 {
                    Some(json_text(b4))
                } else {
                    None
                }
            },
        }
    }
}

pub fn rectify_outbound(anthropic_native: bool, outbound: &[u8], error_body: &[u8], status: u16) -> (r:
    Option<Vec<u8>>)
    ensures
        r matches Some(b) ==> rectified(anthropic_native, outbound@, error_body@, status) == Some(b@),
        r is None ==> rectified(anthropic_native, outbound@, error_body@, status) is None,
{
    if !is_rectifiable_status(status) {
        return None;
    }
    let message = extract_error_text(error_body);
    let mut body = match parse_json(outbound) {
        Some(v) => v,
        None => return None,
    };
    let mut changed = false;
    if is_unsupported_image_error(message.as_str()) {
        if replace_image_parts(&mut body) {
            changed = true;
        }
    }
    if is_thinking_error(message.as_str()) && anthropic_native {
        if strip_thinking_blocks(&mut body) {
            changed = true;
        }
        if remove_top_level_thinking_if_broken(&body) {
            if body.is_object() {
                body.remove("thinking");
                changed = true;
            }
        }
    }
    if anthropic_native && is_thinking_budget_error(message.as_str()) {
        if raise_thinking_budget(&mut body) {
            changed = true;
        }
    }
    if changed {
        Some(to_json_bytes(&body))
    } else {
        None
    }
}

/// The outbound body with its images replaced, when it has any.
pub open spec fn media_stripped(outbound: Seq<u8>) -> Option<Seq<u8>> {
    match json_parse(outbound) {
        Some(b) => if images_count(b) > 0 {
            Some(json_text(images_replaced(b)))
        } else {
            None
        },
        None => None,
    }
}

pub fn strip_media_outbound(outbound: &[u8]) -> (r: Option<Vec<u8>>)
    ensures
        r matches Some(b) ==> media_stripped(outbound@) == Some(b@),
        r is None ==> media_stripped(outbound@) is None,
{
    let mut body = match parse_json(outbound) {
        Some(v) => v,
        None => return None,
    };
    if !replace_image_parts(&mut body) {
        return None;
    }
    Some(to_json_bytes(&body))
}

} // verus!
