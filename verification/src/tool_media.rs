//! Media in tool results: the labels and markers left in tool text when
//! media moves to a user message, and the clamping of huge base64 payloads
//! left in the text.
use vstd::prelude::*;

use crate::json::{deep_clone, field, field_pos, fields_view, lemma_object_view, vget, vget_str, Json, JsonV};
use crate::text::{
    ascii_lower_seq, ascii_lowercase, chars_of, contains, find, has, has_prefix, has_suffix,
    i64_decimal, int_decimal, is, owned, push_all, push_str, slice_range, starts_with, ends_with,
    string_from, trim, trim_chars, u64_digits, nat_digits, utf8, utf8_bytes, utf8_len,
};

verus! {

/// A whole-string image data URL at least this long (bytes) moves out as
/// an image part.
pub const WHOLE_DATA_URL_MIN_BYTES: usize = 8192;

/// Base64-looking text at least this long (bytes) is clamped.
pub const BASE64ISH_MIN_BYTES: usize = 16384;

/// Marker left in tool text whose media moved to the next user message.
pub open spec fn moved_marker() -> Seq<char> {
    "[gateway: tool result media moved to the following user message]"@
}

/// Label put before the media moved out of one tool call's result.
pub open spec fn label(call_id: Seq<char>) -> Seq<char> {
    "[gateway: media output of tool call "@ + call_id + "]"@
}

pub fn media_label(call_id: &str) -> (r: String)
    ensures
        r@ == label(call_id@),
{
    let mut v: Vec<char> = Vec::new();
    push_str(&mut v, "[gateway: media output of tool call ");
    push_str(&mut v, call_id);
    push_str(&mut v, "]");
    string_from(v.as_slice())
}

/// A character of the base64 alphabet (with `=` padding).
pub open spec fn b64_char(c: char) -> bool {
    ('a' <= c <= 'z') || ('A' <= c <= 'Z') || ('0' <= c <= '9') || c == '+' || c == '/' || c == '='
}

/// At least 16 KiB, and nothing but base64 alphabet characters.
pub open spec fn base64_payload(v: Seq<char>) -> bool {
    utf8_len(v) >= BASE64ISH_MIN_BYTES && forall|i: int| 0 <= i < v.len() ==> b64_char(#[trigger] v[i])
}

fn byte_len(v: &[char]) -> (n: usize)
    ensures
        n == utf8_len(v@),
{
    let b = utf8_bytes(v);
    proof {
        crate::text::lemma_utf8_len(v@);
    }
    b.len()
}

pub fn looks_like_base64_payload(value: &str) -> (r: bool)
    ensures
        r == base64_payload(value@),
{
    let v = chars_of(value);
    if byte_len(v.as_slice()) < BASE64ISH_MIN_BYTES {
        return false;
    }
    let mut i: usize = 0;
    while i < v.len()
        invariant
            i <= v@.len(),
            v@ == value@,
            forall|k: int| 0 <= k < i ==> b64_char(#[trigger] v@[k]),
        decreases v@.len() - i,
    {
        let c = v[i];
        if !(('a' <= c && c <= 'z') || ('A' <= c && c <= 'Z') || ('0' <= c && c <= '9') || c == '+'
            || c == '/' || c == '=') {
            assert(!b64_char(v@[i as int]));
            return false;
        }
        i = i + 1;
    }
    true
}

/// Huge base64 or base64 data-URL text (trimmed) becomes a short notice
/// giving its size in bytes; other text is kept as it is.
pub open spec fn clamped(text: Seq<char>) -> Seq<char> {
    let t = trim(text);
    if base64_payload(t) || (has_prefix(t, "data:"@) && utf8_len(t) >= BASE64ISH_MIN_BYTES
        && contains(t, ";base64,"@)) {
        "[gateway: "@ + nat_digits(utf8_len(t)) + " bytes of base64 media payload omitted]"@
    } else {
        text
    }
}

pub fn clamp_base64ish(text: &str) -> (r: String)
    ensures
        r@ == clamped(text@),
{
    let t = trim_chars(chars_of(text).as_slice());
    let ts = t.as_slice();
    let n = byte_len(ts);
    let t_str = string_from(ts);
    let data = chars_of("data:");
    if looks_like_base64_payload(t_str.as_str()) || (starts_with(ts, data.as_slice()) && n
        >= BASE64ISH_MIN_BYTES && has(ts, ";base64,")) {
        let mut v: Vec<char> = Vec::new();
        push_str(&mut v, "[gateway: ");
        push_all(&mut v, u64_digits(n as u64).as_slice());
        push_str(&mut v, " bytes of base64 media payload omitted]");
        string_from(v.as_slice())
    } else {
        owned(text)
    }
}

/// Tool text after its media moved: the marker alone for blank text,
/// otherwise the text, a newline and the marker.
pub open spec fn marked(text: Seq<char>) -> Seq<char> {
    if trim(text).len() == 0 {
        moved_marker()
    } else {
        text + "\n"@ + moved_marker()
    }
}

pub fn with_moved_marker(text: &str) -> (r: String)
    ensures
        r@ == marked(text@),
{
    if trim_chars(chars_of(text).as_slice()).len() == 0 {
        return owned("[gateway: tool result media moved to the following user message]");
    }
    let mut v = chars_of(text);
    push_str(&mut v, "\n");
    push_str(&mut v, "[gateway: tool result media moved to the following user message]");
    string_from(v.as_slice())
}

/// The image part a text makes when, trimmed, it is one image data URL of
/// at least 8 KiB: its header (up to the first comma, ASCII lowercased)
/// starts with `data:image/` and ends with `;base64`.
pub open spec fn image_data_url(text: Seq<char>) -> bool {
    let t = trim(text);
    utf8_len(t) >= WHOLE_DATA_URL_MIN_BYTES && contains(t, ","@) && {
        let c = choose|i: int| crate::text::occurs_at(t, ","@, i) && forall|j: int|
            0 <= j < i ==> !crate::text::occurs_at(t, ","@, j);
        let h = ascii_lower_seq(t.take(c));
        has_prefix(h, "data:image/"@) && has_suffix(h, ";base64"@)
    }
}

pub open spec fn image_part_v(url: Seq<char>) -> JsonV {
    JsonV::Object(
        seq![
            ("type"@, JsonV::Str("image_url"@)),
            ("image_url"@, JsonV::Object(seq![("url"@, JsonV::Str(url))])),
        ],
    )
}

/// `{"type": "image_url", "image_url": {"url": url}}`.
pub fn image_part(url: &[char]) -> (r: Json)
    ensures
        r@ == image_part_v(url@),
{
    let mut inner: Vec<(String, Json)> = Vec::new();
    inner.push((owned("url"), Json::Str(string_from(url))));
    proof {
        lemma_object_view(inner);
    }
    let ghost iv = fields_view(inner@);
    assert(iv =~= seq![("url"@, JsonV::Str(url@))]);
    let mut outer: Vec<(String, Json)> = Vec::new();
    outer.push((owned("type"), Json::Str(owned("image_url"))));
    outer.push((owned("image_url"), Json::Object(inner)));
    proof {
        lemma_object_view(outer);
    }
    assert(fields_view(outer@) =~= seq![
        ("type"@, JsonV::Str("image_url"@)),
        ("image_url"@, JsonV::Object(seq![("url"@, JsonV::Str(url@))])),
    ]);
    Json::Object(outer)
}

/// A whole-string image data URL as a Chat image part (see `image_data_url`).
pub fn whole_string_image_data_url_to_part(text: &str) -> (r: Option<Json>)
    ensures
        r matches Some(j) ==> image_data_url(text@) && j@ == image_part_v(trim(text@)),
        r is None ==> !image_data_url(text@),
{
    let t = trim_chars(chars_of(text).as_slice());
    let ts = t.as_slice();
    if byte_len(ts) < WHOLE_DATA_URL_MIN_BYTES {
        return None;
    }
    let comma = chars_of(",");
    let c = match find(ts, comma.as_slice()) {
        Some(c) => c,
        None => return None,
    };
    proof {
        let k = choose|i: int| crate::text::occurs_at(t@, ","@, i) && forall|j: int|
            0 <= j < i ==> !crate::text::occurs_at(t@, ","@, j);
        assert(crate::text::occurs_at(t@, ","@, c as int));
        assert(k == c) by {
            if k < c {
                assert(!crate::text::occurs_at(t@, ","@, k));
            } else if k > c {
                assert(!crate::text::occurs_at(t@, ","@, c as int));
            }
        }
    }
    let h = ascii_lowercase(slice_range(ts, 0, c).as_slice());
    if !(starts_with(h.as_slice(), chars_of("data:image/").as_slice()) && ends_with(
        h.as_slice(),
        chars_of(";base64").as_slice(),
    )) {
        return None;
    }
    Some(image_part(ts))
}

} // verus!

verus! {

// ---------------------------------------------------------------------------
// Media blocks as Chat media parts
// ---------------------------------------------------------------------------
/// `{"type": ty, key: inner}`.
pub open spec fn typed(ty: Seq<char>, key: Seq<char>, inner: JsonV) -> JsonV {
    JsonV::Object(seq![("type"@, JsonV::Str(ty)), (key, inner)])
}

/// A Chat image part with the given `image_url` fields.
pub open spec fn image_url_v(fields: Seq<(Seq<char>, JsonV)>) -> JsonV {
    typed("image_url"@, "image_url"@, JsonV::Object(fields))
}

/// `data:<mime>;base64,<data>`.
pub open spec fn data_url_v(mime: Seq<char>, data: Seq<char>) -> Seq<char> {
    "data:"@ + mime + ";base64,"@ + data
}

pub open spec fn str_or(s: Option<Seq<char>>, d: Seq<char>) -> Seq<char> {
    match s {
        Some(t) => t,
        None => d,
    }
}

pub open spec fn nonblank_str(s: Option<Seq<char>>) -> bool {
    match s {
        Some(t) => trim(t).len() > 0,
        None => false,
    }
}

/// The string at `a` when that field is present, else the string at `b`.
pub open spec fn str_first_present(o: JsonV, a: Seq<char>, b: Seq<char>) -> Option<Seq<char>> {
    if vget(o, a) is Some {
        vget_str(o, a)
    } else {
        vget_str(o, b)
    }
}

/// `image_url` fields taken from a part's own `image_url`: a non-blank
/// string as `url`; an object's `url` and `detail`.
pub open spec fn own_image_url_fields(o: JsonV) -> Seq<(Seq<char>, JsonV)> {
    match vget(o, "image_url"@) {
        Some(JsonV::Str(s)) => if trim(s).len() > 0 {
            seq![("url"@, JsonV::Str(s))]
        } else {
            Seq::empty()
        },
        Some(JsonV::Object(m)) => {
            let u = match field(m, "url"@) {
                Some(x) => seq![("url"@, x)],
                None => Seq::empty(),
            };
            let d = match field(m, "detail"@) {
                Some(x) => seq![("detail"@, x)],
                None => Seq::empty(),
            };
            u + d
        },
        _ => Seq::empty(),
    }
}

/// The first non-blank string among `image_url`, `url`, `file_id`.
pub open spec fn fallback_image_url(o: JsonV) -> Option<Seq<char>> {
    if nonblank_str(vget_str(o, "image_url"@)) {
        vget_str(o, "image_url"@)
    } else if nonblank_str(vget_str(o, "url"@)) {
        vget_str(o, "url"@)
    } else if nonblank_str(vget_str(o, "file_id"@)) {
        vget_str(o, "file_id"@)
    } else {
        None
    }
}

/// An `input_image` / `image_url` part as a Chat image part; `None` when
/// no non-blank URL string is found.
pub open spec fn image_like_v(o: JsonV) -> Option<JsonV> {
    let f0 = own_image_url_fields(o);
    let f = if field(f0, "url"@) is Some {
        f0
    } else {
        match fallback_image_url(o) {
            Some(s) => f0.push(("url"@, JsonV::Str(s))),
            None => f0,
        }
    };
    match field(f, "url"@) {
        Some(JsonV::Str(u)) => if trim(u).len() > 0 {
            Some(image_url_v(f))
        } else {
            None
        },
        _ => None,
    }
}

/// An Anthropic `image` block: a `source` object (`base64` data, or a
/// `url`), else the MCP form (`mimeType` / `mime_type` and `data`); the
/// media type defaults to `image/png`, `detail` is carried over. Data that
/// already is a `data:` URL passes through unchanged.
pub open spec fn anthropic_image_v(o: JsonV) -> Option<JsonV> {
    let detail = match vget(o, "detail"@) {
        Some(d) => seq![("detail"@, d)],
        None => Seq::empty(),
    };
    match vget(o, "source"@) {
        Some(JsonV::Object(sf)) => {
            let src = JsonV::Object(sf);
            let mime = str_or(str_first_present(src, "media_type"@, "mime_type"@), "image/png"@);
            let ty = vget_str(src, "type"@);
            if ty == Some("base64"@) {
                let data = str_or(vget_str(src, "data"@), Seq::empty());
                if data.len() == 0 {
                    None
                } else {
                    let url = if has_prefix(data, "data:"@) {
                        data
                    } else {
                        data_url_v(mime, data)
                    };
                    Some(image_url_v(detail.push(("url"@, JsonV::Str(url)))))
                }
            } else if ty == Some("url"@) {
                let url = str_or(vget_str(src, "url"@), Seq::empty());
                if trim(url).len() == 0 {
                    None
                } else {
                    Some(image_url_v(detail.push(("url"@, JsonV::Str(url)))))
                }
            } else {
                None
            }
        },
        _ => {
            let mime = str_or(str_first_present(o, "mimeType"@, "mime_type"@), "image/png"@);
            let data = str_or(vget_str(o, "data"@), Seq::empty());
            if data.len() == 0 {
                None
            } else {
                let url = if has_prefix(data, "data:"@) {
                    data
                } else {
                    data_url_v(mime, data)
                };
                Some(image_url_v(detail.push(("url"@, JsonV::Str(url)))))
            }
        },
    }
}

/// The fields among `file_id`, `file_data`, `filename` that a part has.
pub open spec fn file_fields(o: JsonV) -> Seq<(Seq<char>, JsonV)> {
    let a = match vget(o, "file_id"@) {
        Some(x) => seq![("file_id"@, x)],
        None => Seq::empty(),
    };
    let b = match vget(o, "file_data"@) {
        Some(x) => seq![("file_data"@, x)],
        None => Seq::empty(),
    };
    let c = match vget(o, "filename"@) {
        Some(x) => seq![("filename"@, x)],
        None => Seq::empty(),
    };
    a + b + c
}

/// An `input_file` / `file` part as a Chat file part: a nested `file`
/// object is kept whole when it has `file_id` or `file_data`; otherwise a
/// non-blank `file_id` or `file_data` string must be present.
pub open spec fn file_v(o: JsonV) -> Option<JsonV> {
    match vget(o, "file"@) {
        Some(JsonV::Object(f)) => {
            let fo = JsonV::Object(f);
            if vget(fo, "file_id"@) is Some || vget(fo, "file_data"@) is Some {
                Some(typed("file"@, "file"@, fo))
            } else {
                None
            }
        },
        _ => if !nonblank_str(vget_str(o, "file_id"@)) && !nonblank_str(vget_str(o, "file_data"@)) {
            None
        } else {
            Some(typed("file"@, "file"@, JsonV::Object(file_fields(o))))
        },
    }
}

/// An Anthropic `document` block with base64 source data as a Chat file
/// part (`application/pdf` and `document` by default).
pub open spec fn document_v(o: JsonV) -> Option<JsonV> {
    match vget(o, "source"@) {
        Some(JsonV::Object(sf)) => {
            let src = JsonV::Object(sf);
            if vget_str(src, "type"@) != Some("base64"@) {
                None
            } else {
                let media_type = str_or(vget_str(src, "media_type"@), "application/pdf"@);
                let data = str_or(vget_str(src, "data"@), Seq::empty());
                if data.len() == 0 {
                    None
                } else {
                    let filename = str_or(vget_str(o, "filename"@), "document"@);
                    Some(
                        typed(
                            "file"@,
                            "file"@,
                            JsonV::Object(
                                seq![
                                    ("filename"@, JsonV::Str(filename)),
                                    ("file_data"@, JsonV::Str(data_url_v(media_type, data))),
                                ],
                            ),
                        ),
                    )
                }
            }
        },
        _ => None,
    }
}

/// An Anthropic `audio` block with base64 source data as a Chat
/// `input_audio` part; the format is the source's media type, else the
/// block's `mimeType`, else `wav`.
pub open spec fn audio_v(o: JsonV) -> Option<JsonV> {
    match vget(o, "source"@) {
        Some(JsonV::Object(sf)) => {
            let src = JsonV::Object(sf);
            if vget_str(src, "type"@) != Some("base64"@) {
                None
            } else {
                let data = str_or(vget_str(src, "data"@), Seq::empty());
                if data.len() == 0 {
                    None
                } else {
                    let f1 = str_first_present(src, "media_type"@, "mime_type"@);
                    let format = if f1 is Some {
                        f1.unwrap()
                    } else {
                        str_or(vget_str(o, "mimeType"@), "wav"@)
                    };
                    Some(
                        typed(
                            "input_audio"@,
                            "input_audio"@,
                            JsonV::Object(
                                seq![("data"@, JsonV::Str(data)), ("format"@, JsonV::Str(format))],
                            ),
                        ),
                    )
                }
            }
        },
        _ => None,
    }
}

/// An object with a `url` that, trimmed, is a data URL of at least 8 KiB.
pub open spec fn loose_data_url_v(o: JsonV) -> Option<JsonV> {
    match vget_str(o, "url"@) {
        Some(u) => {
            let t = trim(u);
            if utf8_len(t) >= WHOLE_DATA_URL_MIN_BYTES && has_prefix(t, "data:"@) {
                Some(image_part_v(t))
            } else {
                None
            }
        },
        None => None,
    }
}

/// The payload of a part: its field `key`, else its other fields but
/// `type`.
pub open spec fn payload_v(o: JsonV, key: Seq<char>) -> JsonV {
    match vget(o, key) {
        Some(v) => v,
        None => match o {
            JsonV::Object(fs) => JsonV::Object(crate::json::remove_field(fs, "type"@)),
            _ => o,
        },
    }
}

/// A content block or part as a Chat media part, by its trimmed `type`;
/// `None` for what is not media.
pub open spec fn media_part_v(block: JsonV) -> Option<JsonV> {
    if block is Object {
        let ty = trim(str_or(vget_str(block, "type"@), Seq::empty()));
        if ty == "input_image"@ || ty == "image_url"@ {
            image_like_v(block)
        } else if ty == "image"@ {
            anthropic_image_v(block)
        } else if ty == "input_file"@ || ty == "file"@ {
            file_v(block)
        } else if ty == "document"@ {
            document_v(block)
        } else if ty == "input_audio"@ {
            Some(typed("input_audio"@, "input_audio"@, payload_v(block, "input_audio"@)))
        } else if ty == "audio"@ {
            audio_v(block)
        } else {
            loose_data_url_v(block)
        }
    } else {
        None
    }
}

fn obj_of(f: Vec<(String, Json)>) -> (r: Json)
    ensures
        r@ == JsonV::Object(fields_view(f@)),
{
    proof {
        lemma_object_view(f);
    }
    Json::Object(f)
}

fn typed_obj(ty: &str, key: &str, inner: Json) -> (r: Json)
    ensures
        r@ == typed(ty@, key@, inner@),
{
    let ghost iv = inner@;
    let mut f: Vec<(String, Json)> = Vec::new();
    f.push((owned("type"), Json::Str(owned(ty))));
    f.push((owned(key), inner));
    assert(fields_view(f@) =~= seq![("type"@, JsonV::Str(ty@)), (key@, iv)]);
    obj_of(f)
}

fn text_or(o: &Json, k: &str, d: &str) -> (r: String)
    ensures
        r@ == str_or(vget_str(o@, k@), d@),
{
    match o.get_str(k) {
        Some(s) => s.clone(),
        None => owned(d),
    }
}

fn text_or_empty(o: &Json, k: &str) -> (r: String)
    ensures
        r@ == str_or(vget_str(o@, k@), Seq::empty()),
{
    match o.get_str(k) {
        Some(s) => s.clone(),
        None => String::new(),
    }
}

fn first_present<'a>(o: &'a Json, a: &str, b: &str) -> (r: Option<&'a String>)
    ensures
        match r {
            Some(s) => str_first_present(o@, a@, b@) == Some(s@),
            None => str_first_present(o@, a@, b@) is None,
        },
{
    if o.get(a).is_some() {
        o.get_str(a)
    } else {
        o.get_str(b)
    }
}

fn empty_text(s: &String) -> (r: bool)
    ensures
        r == (s@.len() == 0),
{
    chars_of(s.as_str()).len() == 0
}

fn blank(s: &String) -> (r: bool)
    ensures
        r == (trim(s@).len() == 0),
{
    trim_chars(chars_of(s.as_str()).as_slice()).len() == 0
}

fn nonblank_opt(s: Option<&String>) -> (r: bool)
    ensures
        r == nonblank_str(
            match s {
                Some(t) => Some(t@),
                None => None,
            },
        ),
{
    match s {
        Some(t) => !blank(t),
        None => false,
    }
}

fn data_url(mime: &String, data: &String) -> (r: String)
    ensures
        r@ == data_url_v(mime@, data@),
{
    let mut v: Vec<char> = Vec::new();
    push_str(&mut v, "data:");
    push_all(&mut v, chars_of(mime.as_str()).as_slice());
    push_str(&mut v, ";base64,");
    push_all(&mut v, chars_of(data.as_str()).as_slice());
    string_from(v.as_slice())
}

fn field_of<'a>(m: &'a Vec<(String, Json)>, k: &str) -> (r: Option<&'a Json>)
    ensures
        match r {
            Some(x) => field(fields_view(m@), k@) == Some(x@),
            None => field(fields_view(m@), k@) is None,
        },
{
    match field_pos(m, k) {
        Some(i) => Some(&m[i].1),
        None => None,
    }
}

fn image_like_part(o: &Json) -> (r: Option<Json>)
    ensures
        match r {
            Some(x) => image_like_v(o@) == Some(x@),
            None => image_like_v(o@) is None,
        },
{
    let mut iu: Vec<(String, Json)> = Vec::new();
    match o.get("image_url") {
        Some(Json::Str(s)) => {
            if !blank(s) {
                iu.push((owned("url"), Json::Str(s.clone())));
            }
        },
        Some(Json::Object(m)) => {
            proof {
                lemma_object_view(*m);
            }
            if let Some(x) = field_of(m, "url") {
                iu.push((owned("url"), deep_clone(x)));
            }
            let ghost mid = fields_view(iu@);
            if let Some(x) = field_of(m, "detail") {
                iu.push((owned("detail"), deep_clone(x)));
                assert(fields_view(iu@) =~= mid + seq![("detail"@, x@)]);
            } else {
                assert(fields_view(iu@) =~= mid + Seq::empty());
            }
        },
        _ => {},
    }
    assert(fields_view(iu@) =~= own_image_url_fields(o@));
    if field_pos(&iu, "url").is_none() {
        let ghost f0 = fields_view(iu@);
        let fb = if nonblank_opt(o.get_str("image_url")) {
            o.get_str("image_url")
        } else if nonblank_opt(o.get_str("url")) {
            o.get_str("url")
        } else if nonblank_opt(o.get_str("file_id")) {
            o.get_str("file_id")
        } else {
            None
        };
        if let Some(s) = fb {
            iu.push((owned("url"), Json::Str(s.clone())));
            assert(fields_view(iu@) =~= f0.push(("url"@, JsonV::Str(s@))));
        }
    }
    let ok = match field_of(&iu, "url") {
        Some(Json::Str(u)) => !blank(u),
        _ => false,
    };
    if ok {
        let inner = obj_of(iu);
        Some(typed_obj("image_url", "image_url", inner))
    } else {
        None
    }
}

fn image_with_url(detail: Vec<(String, Json)>, url: String) -> (r: Json)
    ensures
        r@ == image_url_v(fields_view(detail@).push(("url"@, JsonV::Str(url@)))),
{
    let ghost d = fields_view(detail@);
    let ghost u = url@;
    let mut f = detail;
    f.push((owned("url"), Json::Str(url)));
    assert(fields_view(f@) =~= d.push(("url"@, JsonV::Str(u))));
    typed_obj("image_url", "image_url", obj_of(f))
}

fn anthropic_image_part(o: &Json) -> (r: Option<Json>)
    ensures
        match r {
            Some(x) => anthropic_image_v(o@) == Some(x@),
            None => anthropic_image_v(o@) is None,
        },
{
    let mut detail: Vec<(String, Json)> = Vec::new();
    if let Some(d) = o.get("detail") {
        detail.push((owned("detail"), deep_clone(d)));
    }
    assert(fields_view(detail@) =~= match vget(o@, "detail"@) {
        Some(d) => seq![("detail"@, d)],
        None => Seq::empty(),
    });
    match o.get("source") {
        Some(src) if src.is_object() => {
            let mime: String = match first_present(src, "media_type", "mime_type") {
                Some(m) => m.clone(),
                None => owned("image/png"),
            };
            let is_b64 = match src.get_str("type") {
                Some(t) => is(chars_of(t.as_str()).as_slice(), "base64"),
                None => false,
            };
            let is_url = match src.get_str("type") {
                Some(t) => is(chars_of(t.as_str()).as_slice(), "url"),
                None => false,
            };
            if is_b64 {
                let data = text_or_empty(src, "data");
                if empty_text(&data) {
                    return None;
                }
                let url = if starts_with(
                    chars_of(data.as_str()).as_slice(),
                    chars_of("data:").as_slice(),
                ) {
                    data
                } else {
                    data_url(&mime, &data)
                };
                Some(image_with_url(detail, url))
            } else if is_url {
                let url = text_or_empty(src, "url");
                if blank(&url) {
                    return None;
                }
                Some(image_with_url(detail, url))
            } else {
                None
            }
        },
        _ => {
            let mime: String = match first_present(o, "mimeType", "mime_type") {
                Some(m) => m.clone(),
                None => owned("image/png"),
            };
            let data = text_or_empty(o, "data");
            if empty_text(&data) {
                return None;
            }
            let url = if starts_with(
                chars_of(data.as_str()).as_slice(),
                chars_of("data:").as_slice(),
            ) {
                data
            } else {
                data_url(&mime, &data)
            };
            Some(image_with_url(detail, url))
        },
    }
}

fn file_part(o: &Json) -> (r: Option<Json>)
    ensures
        match r {
            Some(x) => file_v(o@) == Some(x@),
            None => file_v(o@) is None,
        },
{
    match o.get("file") {
        Some(f) if f.is_object() => {
            if f.get("file_id").is_some() || f.get("file_data").is_some() {
                Some(typed_obj("file", "file", deep_clone(f)))
            } else {
                None
            }
        },
        _ => {
            let has_id = nonblank_opt(o.get_str("file_id"));
            let has_data = nonblank_opt(o.get_str("file_data"));
            if !has_id && !has_data {
                return None;
            }
            let mut file: Vec<(String, Json)> = Vec::new();
            if let Some(v) = o.get("file_id") {
                file.push((owned("file_id"), deep_clone(v)));
            }
            let ghost a = fields_view(file@);
            if let Some(v) = o.get("file_data") {
                file.push((owned("file_data"), deep_clone(v)));
                assert(fields_view(file@) =~= a + seq![("file_data"@, v@)]);
            } else {
                assert(fields_view(file@) =~= a + Seq::empty());
            }
            let ghost b = fields_view(file@);
            if let Some(v) = o.get("filename") {
                file.push((owned("filename"), deep_clone(v)));
                assert(fields_view(file@) =~= b + seq![("filename"@, v@)]);
            } else {
                assert(fields_view(file@) =~= b + Seq::empty());
            }
            assert(fields_view(file@) =~= file_fields(o@));
            Some(typed_obj("file", "file", obj_of(file)))
        },
    }
}

fn source_is_base64(src: &Json) -> (r: bool)
    ensures
        r == (vget_str(src@, "type"@) == Some("base64"@)),
{
    match src.get_str("type") {
        Some(t) => is(chars_of(t.as_str()).as_slice(), "base64"),
        None => false,
    }
}

fn document_part(o: &Json) -> (r: Option<Json>)
    ensures
        match r {
            Some(x) => document_v(o@) == Some(x@),
            None => document_v(o@) is None,
        },
{
    match o.get("source") {
        Some(src) if src.is_object() => {
            if !source_is_base64(src) {
                return None;
            }
            let media_type = text_or(src, "media_type", "application/pdf");
            let data = text_or_empty(src, "data");
            if empty_text(&data) {
                return None;
            }
            let filename = text_or(o, "filename", "document");
            let ghost fname = filename@;
            let fd = data_url(&media_type, &data);
            let ghost fdv = fd@;
            let mut file: Vec<(String, Json)> = Vec::new();
            file.push((owned("filename"), Json::Str(filename)));
            file.push((owned("file_data"), Json::Str(fd)));
            assert(fields_view(file@) =~= seq![
                ("filename"@, JsonV::Str(fname)),
                ("file_data"@, JsonV::Str(fdv)),
            ]);
            Some(typed_obj("file", "file", obj_of(file)))
        },
        _ => None,
    }
}

fn anthropic_audio_part(o: &Json) -> (r: Option<Json>)
    ensures
        match r {
            Some(x) => audio_v(o@) == Some(x@),
            None => audio_v(o@) is None,
        },
{
    match o.get("source") {
        Some(src) if src.is_object() => {
            if !source_is_base64(src) {
                return None;
            }
            let data = text_or_empty(src, "data");
            if empty_text(&data) {
                return None;
            }
            let format: String = match first_present(src, "media_type", "mime_type") {
                Some(m) => m.clone(),
                None => text_or(o, "mimeType", "wav"),
            };
            let ghost dv = data@;
            let ghost fv = format@;
            let mut inner: Vec<(String, Json)> = Vec::new();
            inner.push((owned("data"), Json::Str(data)));
            inner.push((owned("format"), Json::Str(format)));
            assert(fields_view(inner@) =~= seq![
                ("data"@, JsonV::Str(dv)),
                ("format"@, JsonV::Str(fv)),
            ]);
            Some(typed_obj("input_audio", "input_audio", obj_of(inner)))
        },
        _ => None,
    }
}

fn loose_data_url_part(o: &Json) -> (r: Option<Json>)
    ensures
        match r {
            Some(x) => loose_data_url_v(o@) == Some(x@),
            None => loose_data_url_v(o@) is None,
        },
{
    match o.get_str("url") {
        Some(u) => {
            let t = trim_chars(chars_of(u.as_str()).as_slice());
            if byte_len(t.as_slice()) >= WHOLE_DATA_URL_MIN_BYTES && starts_with(
                t.as_slice(),
                chars_of("data:").as_slice(),
            ) {
                Some(image_part(t.as_slice()))
            } else {
                None
            }
        },
        None => None,
    }
}

fn part_payload(o: &Json, key: &str) -> (r: Json)
    ensures
        r@ == payload_v(o@, key@),
{
    match o.get(key) {
        Some(v) => deep_clone(v),
        None => {
            let mut p = deep_clone(o);
            p.remove("type");
            p
        },
    }
}

/// A structured content block or part as a Chat media part: Chat
/// `input_image` / `image_url` / `input_file` / `input_audio` parts,
/// Anthropic `image` / `document` / `audio` blocks, and loose objects
/// carrying a data URL; `None` for anything else.
pub fn chat_media_part(block: &Json) -> (r: Option<Json>)
    ensures
        match r {
            Some(x) => media_part_v(block@) == Some(x@),
            None => media_part_v(block@) is None,
        },
{
    if !block.is_object() {
        return None;
    }
    let ty_raw = text_or_empty(block, "type");
    let ty = trim_chars(chars_of(ty_raw.as_str()).as_slice());
    let t = ty.as_slice();
    if is(t, "input_image") || is(t, "image_url") {
        image_like_part(block)
    } else if is(t, "image") {
        anthropic_image_part(block)
    } else if is(t, "input_file") || is(t, "file") {
        file_part(block)
    } else if is(t, "document") {
        document_part(block)
    } else if is(t, "input_audio") {
        Some(typed_obj("input_audio", "input_audio", part_payload(block, "input_audio")))
    } else if is(t, "audio") {
        anthropic_audio_part(block)
    } else {
        loose_data_url_part(block)
    }
}

} // verus!

verus! {

// ---------------------------------------------------------------------------
// Moving media out of a tool result
// ---------------------------------------------------------------------------
/// How deep a tool result is searched for media.
pub const MAX_DEPTH: usize = 32;

/// The parts that are not blank, in order.
pub open spec fn nonblank_parts(ps: Seq<Seq<char>>) -> Seq<Seq<char>>
    decreases ps.len(),
{
    if ps.len() == 0 {
        Seq::empty()
    } else if trim(ps.last()).len() > 0 {
        nonblank_parts(ps.drop_last()).push(ps.last())
    } else {
        nonblank_parts(ps.drop_last())
    }
}

/// A text part of either API (`text`, `output_text`, `input_text`).
pub open spec fn is_text_part(v: JsonV) -> bool {
    v is Object && (vget_str(v, "type"@) == Some("text"@) || vget_str(v, "type"@) == Some(
        "output_text"@,
    ) || vget_str(v, "type"@) == Some("input_text"@))
}

/// What searching a value at `depth` gives: its text with media taken out
/// (its own representation when none was found), the media parts moved,
/// and the plain texts met on the way. A string that is one image data URL
/// moves whole; a string holding a JSON object or array is searched; an
/// object that is a media part moves, one wrapping `content` is searched
/// there, any other is written as canonical JSON.
pub open spec fn strip_v(v: JsonV, depth: nat) -> (Seq<char>, Seq<JsonV>, Seq<Seq<char>>)
    decreases MAX_DEPTH + 1 - depth, 1int, 0int,
{
    if depth > MAX_DEPTH {
        (Seq::empty(), Seq::empty(), Seq::empty())
    } else {
        match v {
            JsonV::Str(s) => if image_data_url(s) {
                (Seq::empty(), seq![image_part_v(trim(s))], Seq::empty())
            } else {
                match crate::codec::json_parse(utf8(trim(s))) {
                    Some(p) => if p is Object || p is Array {
                        let inner = strip_v(p, depth + 1);
                        if inner.1.len() > 0 {
                            inner
                        } else {
                            (s, Seq::empty(), inner.2)
                        }
                    } else {
                        (s, Seq::empty(), seq![s])
                    },
                    None => (s, Seq::empty(), seq![s]),
                }
            },
            JsonV::Array(items) => {
                let r = strip_items_v(items, depth, items.len() as int);
                (crate::text::join(nonblank_parts(r.0), "\n"@), r.1, r.2)
            },
            JsonV::Object(_) => match media_part_v(v) {
                Some(p) => (Seq::empty(), seq![p], Seq::empty()),
                None => match vget(v, "content"@) {
                    Some(inner) => if inner is Array || inner is Str {
                        let r = strip_v(inner, depth + 1);
                        if r.1.len() > 0 {
                            r
                        } else {
                            (crate::codec::json_string(v), Seq::empty(), r.2)
                        }
                    } else {
                        (crate::codec::json_string(v), Seq::empty(), Seq::empty())
                    },
                    None => (crate::codec::json_string(v), Seq::empty(), Seq::empty()),
                },
            },
            JsonV::Null => (Seq::empty(), Seq::empty(), Seq::empty()),
            _ => (crate::codec::json_string(v), Seq::empty(), Seq::empty()),
        }
    }
}

/// The first `k` elements of an array at `depth`: the text of each, the
/// media moved and the texts met.
pub open spec fn strip_items_v(items: Seq<JsonV>, depth: nat, k: int) -> (Seq<Seq<char>>, Seq<JsonV>, Seq<Seq<char>>)
    decreases MAX_DEPTH + 1 - depth, 0int, k,
{
    if depth > MAX_DEPTH || k <= 0 {
        (Seq::empty(), Seq::empty(), Seq::empty())
    } else {
        let p = strip_items_v(items, depth, k - 1);
        let it = items[k - 1];
        match media_part_v(it) {
            Some(m) => (p.0, p.1.push(m), p.2),
            None => if is_text_part(it) {
                let t = str_or(vget_str(it, "text"@), Seq::empty());
                if trim(t).len() > 0 {
                    (p.0.push(t), p.1, p.2.push(t))
                } else {
                    p
                }
            } else {
                let r = strip_v(it, depth + 1);
                (p.0.push(r.0), p.1 + r.1, p.2 + r.2)
            },
        }
    }
}

/// A tool result split into text and media: without media the text is
/// the result's own representation; with media it is the texts met,
/// clamped and joined by newlines, with the moved-media marker.
pub open spec fn split_v(output: JsonV) -> (Seq<char>, Seq<JsonV>) {
    let r = strip_v(output, 0);
    if r.1.len() == 0 {
        (r.0, Seq::empty())
    } else {
        (marked(crate::text::join(r.2.map_values(|t: Seq<char>| clamped(t)), "\n"@)), r.1)
    }
}

} // verus!

verus! {

pub open spec fn strs_view(v: Seq<String>) -> Seq<Seq<char>> {
    v.map_values(|s: String| s@)
}

fn push_media(media: &mut Vec<Json>, p: Json)
    ensures
        crate::json::elems_view(final(media)@) == crate::json::elems_view(old(media)@).push(p@),
{
    media.push(p);
    assert(crate::json::elems_view(media@) =~= crate::json::elems_view(old(media)@).push(p@));
}

fn push_text(texts: &mut Vec<String>, t: String)
    ensures
        strs_view(final(texts)@) == strs_view(old(texts)@).push(t@),
{
    texts.push(t);
    assert(strs_view(texts@) =~= strs_view(old(texts)@).push(t@));
}

/// Searches a value for media (see `strip_v`), appending what moves to
/// `media` and the texts met to `texts`.
fn strip_at_depth(v: &Json, depth: usize, media: &mut Vec<Json>, texts: &mut Vec<String>) -> (r: String)
    ensures
        r@ == strip_v(v@, depth as nat).0,
        crate::json::elems_view(final(media)@) == crate::json::elems_view(old(media)@) + strip_v(
            v@,
            depth as nat,
        ).1,
        strs_view(final(texts)@) == strs_view(old(texts)@) + strip_v(v@, depth as nat).2,
    decreases MAX_DEPTH + 1 - depth, 1int, 0int,
{
    let ghost m0 = crate::json::elems_view(media@);
    let ghost t0 = strs_view(texts@);
    if depth > MAX_DEPTH {
        assert(m0 + Seq::<JsonV>::empty() =~= m0);
        assert(t0 + Seq::<Seq<char>>::empty() =~= t0);
        return String::new();
    }
    match v {
        Json::Str(_) => strip_string(v, depth, media, texts),
        Json::Array(_) => strip_array(v, depth, media, texts),
        Json::Object(_) => strip_object(v, depth, media, texts),
        Json::Null => {
            assert(m0 + Seq::<JsonV>::empty() =~= m0);
            assert(t0 + Seq::<Seq<char>>::empty() =~= t0);
            String::new()
        },
        _ => {
            assert(m0 + Seq::<JsonV>::empty() =~= m0);
            assert(t0 + Seq::<Seq<char>>::empty() =~= t0);
            crate::codec::to_json_string(v)
        },
    }
}

#[verifier::rlimit(50)]
fn strip_string(v: &Json, depth: usize, media: &mut Vec<Json>, texts: &mut Vec<String>) -> (r: String)
    requires
        depth <= MAX_DEPTH,
        v is Str,
    ensures
        r@ == strip_v(v@, depth as nat).0,
        crate::json::elems_view(final(media)@) == crate::json::elems_view(old(media)@) + strip_v(
            v@,
            depth as nat,
        ).1,
        strs_view(final(texts)@) == strs_view(old(texts)@) + strip_v(v@, depth as nat).2,
    decreases MAX_DEPTH + 1 - depth, 0int, 1int,
{
    let ghost m0 = crate::json::elems_view(media@);
    let ghost t0 = strs_view(texts@);
    let s = match v {
        Json::Str(s) => s,
        _ => return String::new(),
    };
    match whole_string_image_data_url_to_part(s.as_str()) {
        Some(p) => {
            push_media(media, p);
            assert(m0.push(p@) =~= m0 + seq![p@]);
            assert(t0 + Seq::<Seq<char>>::empty() =~= t0);
            return String::new();
        },
        None => {},
    }
    let t = trim_chars(chars_of(s.as_str()).as_slice());
    match crate::codec::parse_json(utf8_bytes(t.as_slice()).as_slice()) {
        Some(p) => {
            let structured = match &p {
                Json::Object(_) => true,
                Json::Array(_) => true,
                _ => false,
            };
            assert(structured == (p@ is Object || p@ is Array));
            if structured {
                let before = media.len();
                let ghost mb = crate::json::elems_view(media@);
                let inner = strip_at_depth(&p, depth + 1, media, texts);
                assert(crate::json::elems_view(media@) == mb + strip_v(p@, (depth + 1) as nat).1);
                assert(crate::json::elems_view(media@).len() == media@.len());
                assert(mb.len() == before);
                if media.len() > before {
                    return inner;
                }
                assert(strip_v(p@, (depth + 1) as nat).1.len() == 0);
                assert(m0 + Seq::<JsonV>::empty() =~= m0);
                return s.clone();
            }
        },
        None => {},
    }
    push_text(texts, s.clone());
    assert(t0.push(s@) =~= t0 + seq![s@]);
    assert(m0 + Seq::<JsonV>::empty() =~= m0);
    s.clone()
}

fn strip_array(v: &Json, depth: usize, media: &mut Vec<Json>, texts: &mut Vec<String>) -> (r: String)
    requires
        depth <= MAX_DEPTH,
        v is Array,
    ensures
        r@ == strip_v(v@, depth as nat).0,
        crate::json::elems_view(final(media)@) == crate::json::elems_view(old(media)@) + strip_v(
            v@,
            depth as nat,
        ).1,
        strs_view(final(texts)@) == strs_view(old(texts)@) + strip_v(v@, depth as nat).2,
    decreases MAX_DEPTH + 1 - depth, 0int, 1int,
{
    let items = match v {
        Json::Array(items) => items,
        _ => return String::new(),
    };
    proof {
        crate::json::lemma_array_view(*items);
    }
    let parts = strip_items(items, depth, media, texts);
    let mut kept: Vec<Vec<char>> = Vec::new();
    let mut i: usize = 0;
    let ghost pv = strs_view(parts@);
    while i < parts.len()
        invariant
            i <= parts@.len(),
            pv == strs_view(parts@),
            kept@.map_values(|w: Vec<char>| w@) == nonblank_parts(pv.take(i as int)),
        decreases parts@.len() - i,
    {
        proof {
            assert(pv.take(i + 1).drop_last() =~= pv.take(i as int));
            assert(pv.take(i + 1).last() == parts@[i as int]@);
        }
        let c = chars_of(parts[i].as_str());
        if trim_chars(c.as_slice()).len() > 0 {
            let ghost before = kept@.map_values(|w: Vec<char>| w@);
            kept.push(c);
            assert(kept@.map_values(|w: Vec<char>| w@) =~= before.push(parts@[i as int]@));
        }
        i = i + 1;
    }
    assert(pv.take(parts@.len() as int) =~= pv);
    string_from(crate::text::join_exec(&kept, chars_of("\n").as_slice()).as_slice())
}

#[verifier::rlimit(50)]
fn strip_object(v: &Json, depth: usize, media: &mut Vec<Json>, texts: &mut Vec<String>) -> (r: String)
    requires
        depth <= MAX_DEPTH,
        v is Object,
    ensures
        r@ == strip_v(v@, depth as nat).0,
        crate::json::elems_view(final(media)@) == crate::json::elems_view(old(media)@) + strip_v(
            v@,
            depth as nat,
        ).1,
        strs_view(final(texts)@) == strs_view(old(texts)@) + strip_v(v@, depth as nat).2,
    decreases MAX_DEPTH + 1 - depth, 0int, 1int,
{
    let ghost m0 = crate::json::elems_view(media@);
    let ghost t0 = strs_view(texts@);
    match chat_media_part(v) {
        Some(p) => {
            push_media(media, p);
            assert(m0.push(p@) =~= m0 + seq![p@]);
            assert(t0 + Seq::<Seq<char>>::empty() =~= t0);
            return String::new();
        },
        None => {},
    }
    match v.get("content") {
        Some(inner) => {
            let wraps = match inner {
                Json::Array(_) => true,
                Json::Str(_) => true,
                _ => false,
            };
            assert(wraps == (inner@ is Array || inner@ is Str));
            if wraps {
                let before = media.len();
                let repr = strip_at_depth(inner, depth + 1, media, texts);
                if media.len() > before {
                    return repr;
                }
                assert(m0 + Seq::<JsonV>::empty() =~= m0);
                return crate::codec::to_json_string(v);
            }
        },
        None => {},
    }
    assert(m0 + Seq::<JsonV>::empty() =~= m0);
    assert(t0 + Seq::<Seq<char>>::empty() =~= t0);
    crate::codec::to_json_string(v)
}

fn is_text_part_exec(v: &Json) -> (r: bool)
    ensures
        r == is_text_part(v@),
{
    if !v.is_object() {
        return false;
    }
    match v.get_str("type") {
        Some(t) => {
            let c = chars_of(t.as_str());
            is(c.as_slice(), "text") || is(c.as_slice(), "output_text") || is(c.as_slice(), "input_text")
        },
        None => false,
    }
}

/// The elements of an array (see `strip_items_v`): the text of each.
fn strip_items(items: &Vec<Json>, depth: usize, media: &mut Vec<Json>, texts: &mut Vec<String>) -> (r: Vec<String>)
    requires
        depth <= MAX_DEPTH,
    ensures
        ({
            let s = strip_items_v(crate::json::elems_view(items@), depth as nat, items@.len() as int);
            &&& strs_view(r@) == s.0
            &&& crate::json::elems_view(final(media)@) == crate::json::elems_view(old(media)@) + s.1
            &&& strs_view(final(texts)@) == strs_view(old(texts)@) + s.2
        }),
    decreases MAX_DEPTH + 1 - depth, 0int, 0int,
{
    let ghost iv = crate::json::elems_view(items@);
    let ghost m0 = crate::json::elems_view(media@);
    let ghost t0 = strs_view(texts@);
    let mut parts: Vec<String> = Vec::new();
    let mut i: usize = 0;
    assert(m0 + Seq::<JsonV>::empty() =~= m0);
    assert(t0 + Seq::<Seq<char>>::empty() =~= t0);
    assert(strs_view(parts@) =~= Seq::<Seq<char>>::empty());
    while i < items.len()
        invariant
            depth <= MAX_DEPTH,
            i <= items@.len(),
            iv == crate::json::elems_view(items@),
            strs_view(parts@) == strip_items_v(iv, depth as nat, i as int).0,
            crate::json::elems_view(media@) == m0 + strip_items_v(iv, depth as nat, i as int).1,
            strs_view(texts@) == t0 + strip_items_v(iv, depth as nat, i as int).2,
        decreases items@.len() - i,
    {
        let it = &items[i];
        assert(iv[i as int] == it@);
        let ghost p = strip_items_v(iv, depth as nat, i as int);
        match chat_media_part(it) {
            Some(m) => {
                push_media(media, m);
                assert(m0 + p.1.push(m@) =~= (m0 + p.1).push(m@));
            },
            None => {
                if is_text_part_exec(it) {
                    let t: String = match it.get_str("text") {
                        Some(x) => x.clone(),
                        None => String::new(),
                    };
                    if trim_chars(chars_of(t.as_str()).as_slice()).len() > 0 {
                        push_text(texts, t.clone());
                        push_text(&mut parts, t);
                        assert(t0 + p.2.push(t@) =~= (t0 + p.2).push(t@));
                    }
                } else {
                    let r = strip_at_depth(it, depth + 1, media, texts);
                    let ghost rv = strip_v(it@, (depth + 1) as nat);
                    push_text(&mut parts, r);
                    assert(m0 + (p.1 + rv.1) =~= m0 + p.1 + rv.1);
                    assert(t0 + (p.2 + rv.2) =~= t0 + p.2 + rv.2);
                }
            },
        }
        i = i + 1;
    }
    parts
}

/// What a tool result splits into.
pub struct ToolMediaSplit {
    pub text: String,
    pub media: Vec<Json>,
}

/// A tool result split into text and media parts (see `split_v`).
pub fn split_tool_output(output: &Json) -> (r: ToolMediaSplit)
    ensures
        (r.text@, crate::json::elems_view(r.media@)) == split_v(output@),
{
    let mut media: Vec<Json> = Vec::new();
    let mut texts: Vec<String> = Vec::new();
    let text = strip_at_depth(output, 0, &mut media, &mut texts);
    assert(crate::json::elems_view(media@) =~= strip_v(output@, 0).1);
    assert(strs_view(texts@) =~= strip_v(output@, 0).2);
    if media.len() == 0 {
        let r = ToolMediaSplit { text, media };
        assert(crate::json::elems_view(r.media@) =~= Seq::<JsonV>::empty());
        return r;
    }
    let mut clamped_texts: Vec<Vec<char>> = Vec::new();
    let mut i: usize = 0;
    let ghost tv = strs_view(texts@);
    while i < texts.len()
        invariant
            i <= texts@.len(),
            tv == strs_view(texts@),
            clamped_texts@.map_values(|w: Vec<char>| w@) == tv.take(i as int).map_values(
                |t: Seq<char>| clamped(t),
            ),
        decreases texts@.len() - i,
    {
        let c = clamp_base64ish(texts[i].as_str());
        let ghost before = clamped_texts@.map_values(|w: Vec<char>| w@);
        clamped_texts.push(chars_of(c.as_str()));
        assert(clamped_texts@.map_values(|w: Vec<char>| w@) =~= before.push(clamped(tv[i as int])));
        assert(tv.take(i + 1).map_values(|t: Seq<char>| clamped(t)) =~= tv.take(i as int).map_values(
            |t: Seq<char>| clamped(t),
        ).push(clamped(tv[i as int])));
        i = i + 1;
    }
    assert(tv.take(texts@.len() as int) =~= tv);
    let joined = string_from(crate::text::join_exec(&clamped_texts, chars_of("\n").as_slice()).as_slice());
    ToolMediaSplit { text: with_moved_marker(joined.as_str()), media }
}

} // verus!
