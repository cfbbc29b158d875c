//! JSON text in and out: serde_json parses bytes into the library's JSON
//! tree and writes the tree back as compact text. Both are named results:
//! the parse and the text depend on their input alone.
use vstd::prelude::*;

use crate::json::{Json, JsonNumber, JsonV};
use crate::text::chars_of;
use serde_json::Value as SerdeValue;

verus! {

#[verifier::external_type_specification]
#[verifier::external_body]
pub struct ExSerdeValue(serde_json::Value);

/// serde_json's tree as the library's tree, one node for one node: a
/// number keeps its kind (`u64`, else `i64`, else the decimal text of the
/// float), an object its fields in serde_json's (sorted key) order.
#[verifier::external_body]
pub(crate) fn json_of_value(v: serde_json::Value) -> Json {
    match v {
        SerdeValue::Null => Json::Null,
        SerdeValue::Bool(b) => Json::Bool(b),
        SerdeValue::Number(n) => Json::Number(n.as_u64().map(JsonNumber::PosInt).or(n.as_i64().map(JsonNumber::NegInt)).unwrap_or_else(|| JsonNumber::Float(n.to_string()))),
        SerdeValue::String(s) => Json::Str(s),
        SerdeValue::Array(a) => Json::Array(a.into_iter().map(json_of_value).collect()),
        SerdeValue::Object(m) => Json::Object(m.into_iter().map(|(k, x)| (k, json_of_value(x))).collect()),
    }
}

/// The library's tree as serde_json's tree, one node for one node (a
/// float's decimal text read back as a serde_json number).
#[verifier::external_body]
pub(crate) fn value_of_json(j: &Json) -> serde_json::Value {
    match j {
        Json::Null => SerdeValue::Null,
        Json::Bool(b) => SerdeValue::Bool(*b),
        Json::Number(JsonNumber::PosInt(u)) => SerdeValue::from(*u),
        Json::Number(JsonNumber::NegInt(i)) => SerdeValue::from(*i),
        Json::Number(JsonNumber::Float(s)) => s.parse().map(SerdeValue::Number).unwrap_or(SerdeValue::Null),
        Json::Str(s) => SerdeValue::String(s.clone()),
        Json::Array(a) => SerdeValue::Array(a.iter().map(value_of_json).collect()),
        Json::Object(f) => SerdeValue::Object(f.iter().map(|(k, x)| (k.clone(), value_of_json(x))).collect()),
    }
}

/// Name for the JSON value that serde_json reads from a byte string
/// (`None` for text that is not one JSON value).
pub uninterp spec fn json_parse(b: Seq<u8>) -> Option<JsonV>;

/// Calls `serde_json::from_slice::<serde_json::Value>`; the outcome is named
/// by `json_parse`. A refusal carries serde_json's message, which is left
/// unstated.
#[verifier::external_body]
fn serde_parse(b: &[u8]) -> (r: Result<Json, String>)
    ensures
        r matches Ok(j) ==> json_parse(b@) == Some(j@),
        r is Err ==> json_parse(b@) is None,
{
    serde_json::from_slice::<serde_json::Value>(b).map(json_of_value).map_err(|e| e.to_string())
}

/// The JSON value a byte string holds (`None` when it is not one JSON
/// value).
pub fn parse_json(b: &[u8]) -> (r: Option<Json>)
    ensures
        r matches Some(j) ==> json_parse(b@) == Some(j@),
        r is None ==> json_parse(b@) is None,
{
    match serde_parse(b) {
        Ok(j) => Some(j),
        Err(_) => None,
    }
}

/// The JSON value a byte string holds, or serde_json's message when it is
/// not one JSON value.
pub fn parse_json_detailed(b: &[u8]) -> (r: Result<Json, String>)
    ensures
        r matches Ok(j) ==> json_parse(b@) == Some(j@),
        r is Err ==> json_parse(b@) is None,
{
    serde_parse(b)
}

/// Name for the compact JSON text that serde_json writes for a value.
pub uninterp spec fn json_text(v: JsonV) -> Seq<u8>;

/// Calls `serde_json::to_vec` on the value; the bytes are named by
/// `json_text`.
#[verifier::external_body]
fn serde_to_vec(j: &Json) -> (r: Vec<u8>)
    ensures
        r@ == json_text(j@),
{
    serde_json::to_vec(&value_of_json(j)).unwrap_or_default()
}

/// The value as compact JSON bytes.
pub fn to_json_bytes(j: &Json) -> (r: Vec<u8>)
    ensures
        r@ == json_text(j@),
{
    serde_to_vec(j)
}


/// Name for the compact JSON text that serde_json's `to_string` writes for
/// a value.
pub uninterp spec fn json_string(v: JsonV) -> Seq<char>;

/// Calls `serde_json::to_string` on the value; the text is named by
/// `json_string`.
#[verifier::external_body]
fn serde_to_string(j: &Json) -> (r: String)
    ensures
        r@ == json_string(j@),
{
    serde_json::to_string(&value_of_json(j)).unwrap_or_default()
}

/// The value as compact JSON text.
pub fn to_json_string(j: &Json) -> (r: String)
    ensures
        r@ == json_string(j@),
{
    serde_to_string(j)
}

} // verus!

verus! {

/// Compact JSON text that keeps the fields of each object in their order:
/// strings, numbers, booleans and null as serde_json writes them; arrays
/// and objects framed by `[`/`]` and `{`/`}` with `,` and `:`.
pub open spec fn ordered_text(v: JsonV) -> Seq<char>
    decreases v,
{
    match v {
        JsonV::Array(items) => "["@ + ordered_items(items, items.len() as int) + "]"@,
        JsonV::Object(fs) => "{"@ + ordered_fields(fs, fs.len() as int) + "}"@,
        _ => json_string(v),
    }
}

pub open spec fn ordered_items(items: Seq<JsonV>, k: int) -> Seq<char>
    decreases items, k,
{
    if k <= 0 || k > items.len() {
        Seq::empty()
    } else if k == 1 {
        ordered_text(items[0])
    } else {
        ordered_items(items, k - 1) + ","@ + ordered_text(items[k - 1])
    }
}

pub open spec fn ordered_fields(fs: Seq<(Seq<char>, JsonV)>, k: int) -> Seq<char>
    decreases fs, k,
{
    if k <= 0 || k > fs.len() {
        Seq::empty()
    } else {
        let entry = json_string(JsonV::Str(fs[k - 1].0)) + ":"@ + ordered_text(fs[k - 1].1);
        if k == 1 {
            entry
        } else {
            ordered_fields(fs, k - 1) + ","@ + entry
        }
    }
}

} // verus!

verus! {

/// The value as compact JSON text with each object's fields in order (see
/// `ordered_text`).
#[verifier::loop_isolation(false)]
pub fn to_ordered_text(j: &Json) -> (r: Vec<char>)
    ensures
        r@ == ordered_text(j@),
    decreases j,
{
    match j {
        Json::Array(v) => {
            proof {
                crate::json::lemma_array_view(*v);
            }
            let ghost items = crate::json::elems_view(v@);
            let mut out: Vec<char> = Vec::new();
            let mut i: usize = 0;
            while i < v.len()
                invariant
                    i <= v@.len(),
                    items == crate::json::elems_view(v@),
                    j@ == JsonV::Array(items),
                    out@ == ordered_items(items, i as int),
                decreases v@.len() - i,
            {
                proof {
                    assert(decreases_to!(v@ => v@[i as int]));
                }
                let t = to_ordered_text(&v[i]);
                assert(items[i as int] == v@[i as int]@);
                if i > 0 {
                    out.push(',');
                }
                crate::text::push_all(&mut out, t.as_slice());
                proof {
                    reveal_strlit(",");
                    if i == 0 {
                        assert(out@ =~= ordered_items(items, 1));
                    } else {
                        assert(out@ =~= ordered_items(items, i as int) + ","@ + ordered_text(items[i as int]));
                    }
                }
                i = i + 1;
            }
            let mut r: Vec<char> = Vec::new();
            r.push('[');
            crate::text::push_all(&mut r, out.as_slice());
            r.push(']');
            proof {
                reveal_strlit("[");
                reveal_strlit("]");
            }
            assert(r@ =~= "["@ + ordered_items(items, items.len() as int) + "]"@);
            r
        },
        Json::Object(f) => {
            proof {
                crate::json::lemma_object_view(*f);
            }
            let ghost fs = crate::json::fields_view(f@);
            let mut out: Vec<char> = Vec::new();
            let mut i: usize = 0;
            while i < f.len()
                invariant
                    i <= f@.len(),
                    fs == crate::json::fields_view(f@),
                    j@ == JsonV::Object(fs),
                    out@ == ordered_fields(fs, i as int),
                decreases f@.len() - i,
            {
                proof {
                    assert(decreases_to!(f@ => f@[i as int]));
                    assert(decreases_to!(f@[i as int] => f@[i as int].1));
                }
                let t = to_ordered_text(&f[i].1);
                let k = to_json_string(&Json::Str(f[i].0.clone()));
                assert(fs[i as int] == (f@[i as int].0@, f@[i as int].1@));
                if i > 0 {
                    out.push(',');
                }
                crate::text::push_all(&mut out, chars_of(k.as_str()).as_slice());
                out.push(':');
                crate::text::push_all(&mut out, t.as_slice());
                proof {
                    reveal_strlit(":");
                    reveal_strlit(",");
                    if i == 0 {
                        assert(out@ =~= ordered_fields(fs, 1));
                    } else {
                        assert(out@ =~= ordered_fields(fs, i as int) + ","@ + (json_string(JsonV::Str(fs[i as int].0)) + ":"@ + ordered_text(fs[i as int].1)));
                    }
                }
                i = i + 1;
            }
            let mut r: Vec<char> = Vec::new();
            r.push('{');
            crate::text::push_all(&mut r, out.as_slice());
            r.push('}');
            proof {
                reveal_strlit("{");
                reveal_strlit("}");
            }
            assert(r@ =~= "{"@ + ordered_fields(fs, fs.len() as int) + "}"@);
            r
        },
        _ => {
            let s = to_json_string(j);
            chars_of(s.as_str())
        },
    }
}

} // verus!
