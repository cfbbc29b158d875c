//! Rules of the proxy pipeline that do not touch the network: dialect
//! pairing, outbound body normalisation (extra_body merge, role and tool
//! normalisation, private-field stripping, usage injection), retry
//! classification, SSE sniffing, secret redaction and request body
//! decoding.
use vstd::prelude::*;

use crate::json::{
    deep_clone, field, field_pos, key_index, fields_set, fields_view, is_obj, jstr, lemma_object_view,
    remove_field, set_field, vget, vget_arr, vget_str, vset, Json, JsonV,
};
use crate::text::{
    cap, chars_of, contains, eq_ignore_ascii_case, eq_ignore_ascii_case_exec, is, occurs_at, owned,
    replace_all, replace_all_exec, rfind, slice_range, string_from, take_chars, trim, trim_chars,
};

verus! {

// ---------------------------------------------------------------------------
// extra_body deep merge
// ---------------------------------------------------------------------------
/// Deep merge: `s` overrides `d`'s fields of the same name; where both are
/// objects they merge recursively; any other value replaces. Nothing
/// happens unless both are objects.
pub open spec fn merge_v(d: JsonV, s: JsonV) -> JsonV
    decreases s, 1nat,
{
    match (d, s) {
        (JsonV::Object(df), JsonV::Object(sf)) => JsonV::Object(
            merge_fields(df, sf, sf.len() as int, false),
        ),
        _ => d,
    }
}

/// Keys the gateway manages itself; an extra_body never sets them.
pub open spec fn managed_key(k: Seq<char>) -> bool {
    k == "model"@ || k == "stream"@ || k == "stream_options"@
}

/// Merging the first `n` source fields into `df` (skipping managed keys
/// when `skip_managed`).
pub open spec fn merge_fields(
    df: Seq<(Seq<char>, JsonV)>,
    sf: Seq<(Seq<char>, JsonV)>,
    n: int,
    skip_managed: bool,
) -> Seq<(Seq<char>, JsonV)>
    decreases sf, 0nat, n,
{
    if n <= 0 || n > sf.len() {
        df
    } else {
        let acc = merge_fields(df, sf, n - 1, skip_managed);
        let k = sf[n - 1].0;
        let sv = sf[n - 1].1;
        if skip_managed && managed_key(k) {
            acc
        } else {
            match field(acc, k) {
                Some(dv) => if is_obj(dv) && is_obj(sv) {
                    set_field(acc, k, merge_v(dv, sv))
                } else {
                    set_field(acc, k, sv)
                },
                None => set_field(acc, k, sv),
            }
        }
    }
}

fn is_managed_key(k: &[char]) -> (r: bool)
    ensures
        r == managed_key(k@),
{
    is(k, "model") || is(k, "stream") || is(k, "stream_options")
}

/// Merge of the fields of `s` into a copy of the fields of `d`.
fn merged_fields(
    df: &Vec<(String, Json)>,
    sf: &Vec<(String, Json)>,
    skip_managed: bool,
    Ghost(s): Ghost<Json>,
) -> (r: Vec<(String, Json)>)
    requires
        s == Json::Object(*sf),
    ensures
        fields_view(r@) == merge_fields(
            fields_view(df@),
            fields_view(sf@),
            sf@.len() as int,
            skip_managed,
        ),
    decreases s, 0nat,
{
    let ghost dv0 = fields_view(df@);
    let ghost sv0 = fields_view(sf@);
    let mut acc: Vec<(String, Json)> = Vec::new();
    let mut i: usize = 0;
    while i < df.len()
        invariant
            i <= df@.len(),
            fields_view(acc@) == fields_view(df@).take(i as int),
        decreases df@.len() - i,
    {
        let ghost before = acc@;
        acc.push((df[i].0.clone(), deep_clone(&df[i].1)));
        assert(fields_view(acc@) =~= fields_view(before).push((df@[i as int].0@, df@[i as int].1@)));
        assert(fields_view(df@).take(i + 1) =~= fields_view(df@).take(i as int).push(
            (df@[i as int].0@, df@[i as int].1@),
        ));
        i = i + 1;
    }
    assert(fields_view(df@).take(df@.len() as int) =~= fields_view(df@));
    let mut j: usize = 0;
    while j < sf.len()
        invariant
            j <= sf@.len(),
            s == Json::Object(*sf),
            sv0 == fields_view(sf@),
            dv0 == fields_view(df@),
            fields_view(acc@) == merge_fields(dv0, sv0, j as int, skip_managed),
        decreases sf@.len() - j,
    {
        let key = chars_of(sf[j].0.as_str());
        if skip_managed && is_managed_key(key.as_slice()) {
        } else {
            let pos = field_pos(&acc, sf[j].0.as_str());
            let both_objects = match pos {
                Some(p) => acc[p].1.is_object() && sf[j].1.is_object(),
                None => false,
            };
            if both_objects {
                let p = pos.unwrap();
                proof {
                    assert(s->Object_0 == *sf);
                    assert(decreases_to!(s => s->Object_0));
                    assert(decreases_to!(*sf => sf@));
                    assert(decreases_to!(sf@ => sf@[j as int]));
                    assert(decreases_to!(sf@[j as int] => sf@[j as int].1));
                    assert(decreases_to!(s => sf@[j as int].1));
                }
                let m = merged_value(&acc[p].1, &sf[j].1);
                fields_set(&mut acc, sf[j].0.clone(), m);
            } else {
                fields_set(&mut acc, sf[j].0.clone(), deep_clone(&sf[j].1));
            }
        }
        j = j + 1;
    }
    acc
}

/// `merge_v` computed.
fn merged_value(d: &Json, s: &Json) -> (r: Json)
    ensures
        r@ == merge_v(d@, s@),
    decreases s, 1nat,
{
    match (d, s) {
        (Json::Object(df), Json::Object(sf)) => {
            proof {
                lemma_object_view(*df);
                lemma_object_view(*sf);
            }
            let f = merged_fields(df, sf, false, Ghost(*s));
            proof {
                lemma_object_view(f);
            }
            Json::Object(f)
        },
        _ => deep_clone(d),
    }
}

/// Deep merge of `src` into `dst` (see `merge_v`).
pub fn merge_deep(dst: &mut Json, src: &Json)
    ensures
        final(dst)@ == merge_v(old(dst)@, src@),
{
    let m = merged_value(dst, src);
    *dst = m;
}

/// Managed keys removed from an object's fields.
pub open spec fn without_managed(fs: Seq<(Seq<char>, JsonV)>) -> Seq<(Seq<char>, JsonV)> {
    remove_field(remove_field(remove_field(fs, "model"@), "stream"@), "stream_options"@)
}

/// The effective extra_body of one forward: the provider's as the base, the
/// route's overriding; managed keys dropped; `None` when not an object or
/// nothing is left.
pub open spec fn effective_extra_spec(route_extra: JsonV, provider_extra: JsonV) -> Option<JsonV> {
    match merge_v(provider_extra, route_extra) {
        JsonV::Object(fs) => {
            let kept = without_managed(fs);
            if kept.len() == 0 {
                None
            } else {
                Some(JsonV::Object(kept))
            }
        },
        _ => None,
    }
}

pub fn effective_extra(route_extra: &Json, provider_extra: &Json) -> (r: Option<Json>)
    ensures
        match r {
            Some(v) => effective_extra_spec(route_extra@, provider_extra@) == Some(v@),
            None => effective_extra_spec(route_extra@, provider_extra@) is None,
        },
{
    let mut merged = deep_clone(provider_extra);
    merge_deep(&mut merged, route_extra);
    if !merged.is_object() {
        return None;
    }
    merged.remove("model");
    merged.remove("stream");
    merged.remove("stream_options");
    let empty = match &merged {
        Json::Object(f) => {
            proof {
                lemma_object_view(*f);
            }
            f.len() == 0
        },
        _ => true,
    };
    if empty {
        None
    } else {
        Some(merged)
    }
}

/// The outbound body after applying an extra_body: every non-managed field
/// of the extra merges into the body (objects recursively); a non-object
/// body or extra leaves the body as it is.
pub open spec fn apply_extra_spec(body: JsonV, extra: Option<JsonV>) -> JsonV {
    match (body, extra) {
        (JsonV::Object(bf), Some(JsonV::Object(ef))) => JsonV::Object(
            merge_fields(bf, ef, ef.len() as int, true),
        ),
        _ => body,
    }
}

pub fn apply_extra(body: &mut Json, extra: Option<&Json>)
    ensures
        final(body)@ == apply_extra_spec(old(body)@, match extra {
            Some(e) => Some(e@),
            None => None,
        }),
{
    let e = match extra {
        Some(e) => e,
        None => return ,
    };
    match (&*body, e) {
        (Json::Object(bf), Json::Object(ef)) => {
            proof {
                lemma_object_view(*bf);
                lemma_object_view(*ef);
            }
            let f = merged_fields(bf, ef, true, Ghost(*e));
            proof {
                lemma_object_view(f);
            }
            *body = Json::Object(f);
        },
        _ => {},
    }
}

} // verus!

verus! {

// ---------------------------------------------------------------------------
// Tool and role normalisation
// ---------------------------------------------------------------------------
/// Tools kept for the upstream: untyped ones, `function` and `custom`
/// (hosted tools such as `web_search` are dropped).
pub open spec fn tool_kept(t: JsonV) -> bool {
    match vget_str(t, "type"@) {
        None => true,
        Some(s) => s == "function"@ || s == "custom"@,
    }
}

pub open spec fn kept_tools(a: Seq<JsonV>) -> Seq<JsonV>
    decreases a.len(),
{
    if a.len() == 0 {
        a
    } else {
        let r = kept_tools(a.drop_last());
        if tool_kept(a.last()) {
            r.push(a.last())
        } else {
            r
        }
    }
}

fn is_tool_kept(t: &Json) -> (r: bool)
    ensures
        r == tool_kept(t@),
{
    match t.get_str("type") {
        None => true,
        Some(s) => {
            let c = chars_of(s.as_str());
            is(c.as_slice(), "function") || is(c.as_slice(), "custom")
        },
    }
}

/// Drops hosted tools from `tools`; reports whether any was dropped.
pub fn normalize_tools(json: &mut Json) -> (r: bool)
    ensures
        match vget_arr(old(json)@, "tools"@) {
            Some(a) => final(json)@ == crate::json::vset(
                old(json)@,
                "tools"@,
                JsonV::Array(kept_tools(a)),
            ) && r == (kept_tools(a).len() != a.len()),
            None => final(json)@ == old(json)@ && !r,
        },
{
    let (kept, before) = match json.get("tools") {
        Some(t) => match t.as_array() {
            Some(tools) => {
                let ghost a = crate::json::elems_view(tools@);
                let mut kept: Vec<Json> = Vec::new();
                let mut i: usize = 0;
                while i < tools.len()
                    invariant
                        i <= tools@.len(),
                        a == crate::json::elems_view(tools@),
                        crate::json::elems_view(kept@) == kept_tools(a.take(i as int)),
                    decreases tools@.len() - i,
                {
                    proof {
                        assert(a.take(i + 1).drop_last() =~= a.take(i as int));
                        assert(a.take(i + 1).last() == a[i as int]);
                    }
                    if is_tool_kept(&tools[i]) {
                        let ghost prev = kept@;
                        kept.push(deep_clone(&tools[i]));
                        assert(crate::json::elems_view(kept@) =~= crate::json::elems_view(prev).push(
                            a[i as int],
                        ));
                    }
                    i = i + 1;
                }
                assert(a.take(tools@.len() as int) =~= a);
                (kept, tools.len())
            },
            None => return false,
        },
        None => return false,
    };
    let n = kept.len();
    proof {
        crate::json::lemma_array_view(kept);
    }
    json.set("tools", Json::Array(kept));
    n != before
}

/// The role a message is rewritten to: `developer` -> `system`,
/// `latest_reminder` -> `user`.
pub open spec fn fixed_role(m: JsonV) -> Option<Seq<char>> {
    match vget_str(m, "role"@) {
        Some(r) => if r == "developer"@ {
            Some("system"@)
        } else if r == "latest_reminder"@ {
            Some("user"@)
        } else {
            None
        },
        None => None,
    }
}

pub open spec fn fix_msg(m: JsonV) -> JsonV {
    match fixed_role(m) {
        Some(r) => crate::json::vset(m, "role"@, JsonV::Str(r)),
        None => m,
    }
}

pub open spec fn is_message_item(it: JsonV) -> bool {
    vget_str(it, "type"@) == Some("message"@)
}

pub open spec fn fix_item(it: JsonV) -> JsonV {
    if is_message_item(it) {
        fix_msg(it)
    } else {
        it
    }
}

/// The rewrite applied to one element (`items_only`: message items of
/// `input[]`, else any message of `messages[]`).
pub open spec fn role_fix(m: JsonV, items_only: bool) -> JsonV {
    if items_only {
        fix_item(m)
    } else {
        fix_msg(m)
    }
}

/// The element is rewritten.
pub open spec fn role_hit(m: JsonV, items_only: bool) -> bool {
    (!items_only || is_message_item(m)) && fixed_role(m) is Some
}

pub open spec fn any_role_hit(a: Seq<JsonV>, items_only: bool) -> bool {
    exists|i: int| 0 <= i < a.len() && #[trigger] role_hit(a[i], items_only)
}

/// `messages[]` rewritten (when it is an array).
pub open spec fn messages_normalized(j: JsonV) -> JsonV {
    match vget_arr(j, "messages"@) {
        Some(a) => crate::json::vset(
            j,
            "messages"@,
            JsonV::Array(a.map_values(|m: JsonV| role_fix(m, false))),
        ),
        None => j,
    }
}

/// The body after role normalisation of `messages[]` and then of the
/// message items of `input[]`.
pub open spec fn roles_normalized(j: JsonV) -> JsonV {
    let step1 = messages_normalized(j);
    match vget_arr(step1, "input"@) {
        Some(a) => crate::json::vset(
            step1,
            "input"@,
            JsonV::Array(a.map_values(|m: JsonV| role_fix(m, true))),
        ),
        None => step1,
    }
}

/// Whether role normalisation rewrites anything.
pub open spec fn roles_changed(j: JsonV) -> bool {
    ||| (vget_arr(j, "messages"@) matches Some(a) && any_role_hit(a, false))
    ||| (vget_arr(messages_normalized(j), "input"@) matches Some(b) && any_role_hit(b, true))
}

/// Rewrites the roles of one array's elements.
fn fix_roles_in(arr: &Vec<Json>, items_only: bool) -> (r: (Vec<Json>, bool))
    ensures
        crate::json::elems_view(r.0@) == crate::json::elems_view(arr@).map_values(
            |m: JsonV| role_fix(m, items_only),
        ),
        r.1 == any_role_hit(crate::json::elems_view(arr@), items_only),
{
    let ghost a = crate::json::elems_view(arr@);
    let ghost f = |m: JsonV| role_fix(m, items_only);
    let mut out: Vec<Json> = Vec::new();
    let mut changed = false;
    let mut i: usize = 0;
    while i < arr.len()
        invariant
            i <= arr@.len(),
            a == crate::json::elems_view(arr@),
            f == (|m: JsonV| role_fix(m, items_only)),
            crate::json::elems_view(out@) == a.take(i as int).map_values(f),
            changed == any_role_hit(a.take(i as int), items_only),
        decreases arr@.len() - i,
    {
        let m = &arr[i];
        let eligible = if items_only {
            match m.get_str("type") {
                Some(t) => is(chars_of(t.as_str()).as_slice(), "message"),
                None => false,
            }
        } else {
            true
        };
        let mut nm = deep_clone(m);
        let mut hit = false;
        if eligible {
            let role = match m.get_str("role") {
                Some(r) => {
                    let c = chars_of(r.as_str());
                    if is(c.as_slice(), "developer") {
                        Some("system")
                    } else if is(c.as_slice(), "latest_reminder") {
                        Some("user")
                    } else {
                        None
                    }
                },
                None => None,
            };
            match role {
                Some(r) => {
                    nm.set("role", jstr(r));
                    hit = true;
                },
                None => {},
            }
        }
        proof {
            assert(a[i as int] == m@);
            assert(hit == role_hit(m@, items_only));
            assert(nm@ == role_fix(m@, items_only));
            let pre = a.take(i as int);
            let post = a.take(i + 1);
            assert(post =~= pre.push(a[i as int]));
            if hit {
                assert(role_hit(post[i as int], items_only));
            }
            if any_role_hit(pre, items_only) {
                let k = choose|k: int| 0 <= k < pre.len() && #[trigger] role_hit(pre[k], items_only);
                assert(post[k] == pre[k]);
            }
            if any_role_hit(post, items_only) {
                let k = choose|k: int| 0 <= k < post.len() && #[trigger] role_hit(post[k], items_only);
                if k < i {
                    assert(pre[k] == post[k]);
                }
            }
        }
        changed = changed || hit;
        let ghost prev = out@;
        out.push(nm);
        proof {
            assert(crate::json::elems_view(out@) =~= crate::json::elems_view(prev).push(f(a[i as int])));
            assert(a.take(i + 1).map_values(f) =~= a.take(i as int).map_values(f).push(f(a[i as int])));
        }
        i = i + 1;
    }
    assert(a.take(arr@.len() as int) =~= a);
    (out, changed)
}

/// Role normalisation (`developer` -> `system`, `latest_reminder` -> `user`)
/// of `messages[]` and of the message items of `input[]`; reports whether
/// anything was rewritten.
pub fn normalize_chat_roles(json: &mut Json) -> (r: bool)
    ensures
        final(json)@ == roles_normalized(old(json)@),
        r == roles_changed(old(json)@),
{
    let mut changed = false;
    let m = match json.get("messages") {
        Some(v) => match v.as_array() {
            Some(arr) => Some(fix_roles_in(arr, false)),
            None => None,
        },
        None => None,
    };
    match m {
        Some((fixed, c)) => {
            proof {
                crate::json::lemma_array_view(fixed);
            }
            json.set("messages", Json::Array(fixed));
            changed = c;
        },
        None => {},
    }
    assert(json@ == messages_normalized(old(json)@));
    let it = match json.get("input") {
        Some(v) => match v.as_array() {
            Some(arr) => Some(fix_roles_in(arr, true)),
            None => None,
        },
        None => None,
    };
    match it {
        Some((fixed, c)) => {
            proof {
                crate::json::lemma_array_view(fixed);
            }
            json.set("input", Json::Array(fixed));
            changed = changed || c;
        },
        None => {},
    }
    changed
}

} // verus!

verus! {

// ---------------------------------------------------------------------------
// Private (`_`-prefixed) fields
// ---------------------------------------------------------------------------
/// Keys whose object maps property names (a JSON Schema name map): its keys
/// are names, not private fields.
pub open spec fn schema_map_key(k: Seq<char>) -> bool {
    k == "properties"@ || k == "patternProperties"@ || k == "definitions"@ || k == "$defs"@
}

pub open spec fn underscored(k: Seq<char>) -> bool {
    k.len() > 0 && k[0] == '_'
}

/// Recursive removal of `_`-prefixed fields down to nesting depth 32,
/// except for the keys directly inside a schema name map.
pub open spec fn strip_v(v: JsonV, depth: nat, in_schema: bool) -> JsonV
    decreases v, 1nat,
{
    if depth > 32 {
        v
    } else {
        match v {
            JsonV::Object(fs) => JsonV::Object(strip_fields(fs, depth, in_schema, fs.len() as int)),
            JsonV::Array(a) => JsonV::Array(strip_elems(a, depth, in_schema, a.len() as int)),
            _ => v,
        }
    }
}

/// The first `n` fields of an object at `depth` after stripping: a private
/// key is dropped (unless in a schema name map), every kept value is
/// stripped one level deeper.
pub open spec fn strip_fields(
    fs: Seq<(Seq<char>, JsonV)>,
    depth: nat,
    in_schema: bool,
    n: int,
) -> Seq<(Seq<char>, JsonV)>
    decreases fs, 0nat, n,
{
    if n <= 0 || n > fs.len() {
        Seq::empty()
    } else {
        let acc = strip_fields(fs, depth, in_schema, n - 1);
        let k = fs[n - 1].0;
        if !in_schema && underscored(k) {
            acc
        } else {
            acc.push((k, strip_v(fs[n - 1].1, depth + 1, schema_map_key(k))))
        }
    }
}

/// The first `n` items of an array at `depth`, each stripped one level deeper.
pub open spec fn strip_elems(a: Seq<JsonV>, depth: nat, in_schema: bool, n: int) -> Seq<JsonV>
    decreases a, 0nat, n,
{
    if n <= 0 || n > a.len() {
        Seq::empty()
    } else {
        strip_elems(a, depth, in_schema, n - 1).push(strip_v(a[n - 1], depth + 1, in_schema))
    }
}

fn is_schema_map_key(k: &String) -> (r: bool)
    ensures
        r == schema_map_key(k@),
{
    let c = chars_of(k.as_str());
    is(c.as_slice(), "properties") || is(c.as_slice(), "patternProperties") || is(
        c.as_slice(),
        "definitions",
    ) || is(c.as_slice(), "$defs")
}

fn is_underscored(k: &String) -> (r: bool)
    ensures
        r == underscored(k@),
{
    let c = chars_of(k.as_str());
    c.len() > 0 && c[0] == '_'
}

#[verifier::loop_isolation(false)]
fn stripped(v: &Json, depth: usize, in_schema: bool) -> (r: Json)
    requires
        depth <= 33,
    ensures
        r@ == strip_v(v@, depth as nat, in_schema),
    decreases v,
{
    if depth > 32 {
        return deep_clone(v);
    }
    match v {
        Json::Object(f) => {
            proof {
                lemma_object_view(*f);
            }
            let ghost fv = fields_view(f@);
            let mut out: Vec<(String, Json)> = Vec::new();
            let mut i: usize = 0;
            while i < f.len()
                invariant
                    depth <= 32,
                    i <= f@.len(),
                    fv == fields_view(f@),
                    fields_view(out@) == strip_fields(fv, depth as nat, in_schema, i as int),
                decreases f@.len() - i,
            {
                proof {
                    assert(decreases_to!(f@ => f@[i as int]));
                    assert(decreases_to!(f@[i as int] => f@[i as int].1));
                }
                if in_schema || !is_underscored(&f[i].0) {
                    let child = stripped(&f[i].1, depth + 1, is_schema_map_key(&f[i].0));
                    let ghost prev = out@;
                    out.push((f[i].0.clone(), child));
                    assert(fields_view(out@) =~= fields_view(prev).push(
                        (fv[i as int].0, child@),
                    ));
                }
                i = i + 1;
            }
            proof {
                lemma_object_view(out);
            }
            Json::Object(out)
        },
        Json::Array(a) => {
            proof {
                crate::json::lemma_array_view(*a);
            }
            let ghost av = crate::json::elems_view(a@);
            let mut out: Vec<Json> = Vec::new();
            let mut i: usize = 0;
            while i < a.len()
                invariant
                    depth <= 32,
                    i <= a@.len(),
                    av == crate::json::elems_view(a@),
                    crate::json::elems_view(out@) == strip_elems(av, depth as nat, in_schema, i as int),
                decreases a@.len() - i,
            {
                proof {
                    assert(decreases_to!(a@ => a@[i as int]));
                }
                let child = stripped(&a[i], depth + 1, in_schema);
                let ghost prev = out@;
                out.push(child);
                assert(crate::json::elems_view(out@) =~= crate::json::elems_view(prev).push(child@));
                i = i + 1;
            }
            proof {
                crate::json::lemma_array_view(out);
            }
            Json::Array(out)
        },
        _ => deep_clone(v),
    }
}

/// Removes `_`-prefixed private fields recursively (see `strip_v`).
pub fn strip_underscore_fields(v: &mut Json)
    ensures
        final(v)@ == strip_v(old(v)@, 0, false),
{
    let s = stripped(v, 0, false);
    *v = s;
}

/// Some `_`-prefixed field would be stripped (same exemptions as `strip_v`).
pub open spec fn has_us(v: JsonV, depth: nat, in_schema: bool) -> bool
    decreases v, 1nat,
{
    if depth > 32 {
        false
    } else {
        match v {
            JsonV::Object(fs) => fields_have_us(fs, depth, in_schema, fs.len() as int),
            JsonV::Array(a) => elems_have_us(a, depth, in_schema, a.len() as int),
            _ => false,
        }
    }
}

/// Among the first `n` fields: a private key outside a schema name map, or
/// a value that holds one one level deeper.
pub open spec fn fields_have_us(
    fs: Seq<(Seq<char>, JsonV)>,
    depth: nat,
    in_schema: bool,
    n: int,
) -> bool
    decreases fs, 0nat, n,
{
    if n <= 0 || n > fs.len() {
        false
    } else {
        fields_have_us(fs, depth, in_schema, n - 1) || (!in_schema && underscored(fs[n - 1].0))
            || has_us(fs[n - 1].1, depth + 1, schema_map_key(fs[n - 1].0))
    }
}

/// Among the first `n` items: one that holds a private field.
pub open spec fn elems_have_us(a: Seq<JsonV>, depth: nat, in_schema: bool, n: int) -> bool
    decreases a, 0nat, n,
{
    if n <= 0 || n > a.len() {
        false
    } else {
        elems_have_us(a, depth, in_schema, n - 1) || has_us(a[n - 1], depth + 1, in_schema)
    }
}

#[verifier::loop_isolation(false)]
fn has_us_exec(v: &Json, depth: usize, in_schema: bool) -> (r: bool)
    requires
        depth <= 33,
    ensures
        r == has_us(v@, depth as nat, in_schema),
    decreases v,
{
    if depth > 32 {
        return false;
    }
    match v {
        Json::Object(f) => {
            proof {
                lemma_object_view(*f);
            }
            let ghost fv = fields_view(f@);
            let mut found = false;
            let mut i: usize = 0;
            while i < f.len()
                invariant
                    depth <= 32,
                    i <= f@.len(),
                    fv == fields_view(f@),
                    found == fields_have_us(fv, depth as nat, in_schema, i as int),
                decreases f@.len() - i,
            {
                proof {
                    assert(decreases_to!(f@ => f@[i as int]));
                    assert(decreases_to!(f@[i as int] => f@[i as int].1));
                }
                if !found {
                    found = (!in_schema && is_underscored(&f[i].0)) || has_us_exec(
                        &f[i].1,
                        depth + 1,
                        is_schema_map_key(&f[i].0),
                    );
                }
                i = i + 1;
            }
            found
        },
        Json::Array(a) => {
            proof {
                crate::json::lemma_array_view(*a);
            }
            let ghost av = crate::json::elems_view(a@);
            let mut found = false;
            let mut i: usize = 0;
            while i < a.len()
                invariant
                    depth <= 32,
                    i <= a@.len(),
                    av == crate::json::elems_view(a@),
                    found == elems_have_us(av, depth as nat, in_schema, i as int),
                decreases a@.len() - i,
            {
                proof {
                    assert(decreases_to!(a@ => a@[i as int]));
                }
                if !found {
                    found = has_us_exec(&a[i], depth + 1, in_schema);
                }
                i = i + 1;
            }
            found
        },
        _ => false,
    }
}

/// Whether the body holds a private field that stripping would remove.
pub fn has_underscore_fields(v: &Json) -> (r: bool)
    ensures
        r == has_us(v@, 0, false),
{
    has_us_exec(v, 0, false)
}


proof fn lemma_fields_have_us_prefix(
    fs: Seq<(Seq<char>, JsonV)>,
    x: (Seq<char>, JsonV),
    depth: nat,
    in_schema: bool,
    n: int,
)
    requires
        n <= fs.len(),
    ensures
        fields_have_us(fs.push(x), depth, in_schema, n) == fields_have_us(fs, depth, in_schema, n),
    decreases n,
{
    if n > 0 {
        lemma_fields_have_us_prefix(fs, x, depth, in_schema, n - 1);
        assert(fs.push(x)[n - 1] == fs[n - 1]);
    }
}

proof fn lemma_elems_have_us_prefix(a: Seq<JsonV>, x: JsonV, depth: nat, in_schema: bool, n: int)
    requires
        n <= a.len(),
    ensures
        elems_have_us(a.push(x), depth, in_schema, n) == elems_have_us(a, depth, in_schema, n),
    decreases n,
{
    if n > 0 {
        lemma_elems_have_us_prefix(a, x, depth, in_schema, n - 1);
        assert(a.push(x)[n - 1] == a[n - 1]);
    }
}

proof fn lemma_strip_fields_clean(fs: Seq<(Seq<char>, JsonV)>, depth: nat, in_schema: bool, n: int)
    requires
        depth <= 32,
        n <= fs.len(),
    ensures
        !fields_have_us(
            strip_fields(fs, depth, in_schema, n),
            depth,
            in_schema,
            strip_fields(fs, depth, in_schema, n).len() as int,
        ),
    decreases fs, 0nat, n,
{
    if n > 0 {
        lemma_strip_fields_clean(fs, depth, in_schema, n - 1);
        let acc = strip_fields(fs, depth, in_schema, n - 1);
        let k = fs[n - 1].0;
        if !(!in_schema && underscored(k)) {
            let x = (k, strip_v(fs[n - 1].1, depth + 1, schema_map_key(k)));
            lemma_fields_have_us_prefix(acc, x, depth, in_schema, acc.len() as int);
            assert(decreases_to!(fs => fs[n - 1]));
            law_strip_leaves_no_private_field(fs[n - 1].1, depth + 1, schema_map_key(k));
            assert(acc.push(x)[acc.len() as int] == x);
        }
    }
}

proof fn lemma_strip_elems_clean(a: Seq<JsonV>, depth: nat, in_schema: bool, n: int)
    requires
        depth <= 32,
        n <= a.len(),
    ensures
        !elems_have_us(
            strip_elems(a, depth, in_schema, n),
            depth,
            in_schema,
            strip_elems(a, depth, in_schema, n).len() as int,
        ),
    decreases a, 0nat, n,
{
    if n > 0 {
        lemma_strip_elems_clean(a, depth, in_schema, n - 1);
        let acc = strip_elems(a, depth, in_schema, n - 1);
        let x = strip_v(a[n - 1], depth + 1, in_schema);
        lemma_elems_have_us_prefix(acc, x, depth, in_schema, acc.len() as int);
        law_strip_leaves_no_private_field(a[n - 1], depth + 1, in_schema);
        assert(acc.push(x)[acc.len() as int] == x);
    }
}

/// After stripping, no private field is left that stripping would remove:
/// `has_underscore_fields` is false on what `strip_underscore_fields` gives.
pub proof fn law_strip_leaves_no_private_field(v: JsonV, depth: nat, in_schema: bool)
    ensures
        !has_us(strip_v(v, depth, in_schema), depth, in_schema),
    decreases v, 1nat,
{
    if depth <= 32 {
        match v {
            JsonV::Object(fs) => lemma_strip_fields_clean(fs, depth, in_schema, fs.len() as int),
            JsonV::Array(a) => lemma_strip_elems_clean(a, depth, in_schema, a.len() as int),
            _ => {},
        }
    }
}


// ---------------------------------------------------------------------------
// Dialect pairing
// ---------------------------------------------------------------------------
/// An upstream channel as the proxy rules read it.
pub struct Provider {
    pub id: i64,
    pub name: String,
    /// `openai`, `openai-responses` or `anthropic` (ASCII case ignored).
    pub api_type: String,
    pub base_url: String,
    pub api_key_encrypted: String,
    pub timeout_ms: i64,
    pub extra_body: Json,
    pub auth_scheme: String,
    pub extra_headers: Json,
    pub supports_images: bool,
}

/// A proxied endpoint: its public path, the upstream path, and its dialect.
#[derive(Clone, Copy)]
pub struct Endpoint {
    pub api: &'static str,
    pub upstream: &'static str,
    /// `/v1/responses`.
    pub responses: bool,
    /// `/v1/messages`.
    pub anthropic: bool,
}

/// Why a client dialect cannot be served by an upstream dialect (`None`
/// where the gateway passes through or converts to Chat).
pub open spec fn pairing_reason(anthropic: bool, responses: bool, api_type: Seq<char>) -> Option<
    Seq<char>,
> {
    let native_responses = eq_ignore_ascii_case(api_type, "openai-responses"@);
    let native_anthropic = eq_ignore_ascii_case(api_type, "anthropic"@);
    if anthropic {
        if native_responses {
            Some("anthropic client (/v1/messages) → openai-responses upstream is not supported"@)
        } else {
            None
        }
    } else if responses {
        if native_anthropic {
            Some("responses client (/v1/responses) → anthropic upstream is not supported"@)
        } else {
            None
        }
    } else if native_responses || native_anthropic {
        Some("chat completions client → non-chat upstream is not supported"@)
    } else {
        None
    }
}

/// The reason an endpoint × provider pairing is refused, if it is.
pub fn pairing_unsupported(endpoint: Endpoint, provider: &Provider) -> (r: Option<String>)
    ensures
        r matches Some(m) ==> pairing_reason(endpoint.anthropic, endpoint.responses, provider.api_type@)
            == Some(m@),
        r is None ==> pairing_reason(endpoint.anthropic, endpoint.responses, provider.api_type@) is None,
{
    let t = chars_of(provider.api_type.as_str());
    let native_responses = eq_ignore_ascii_case_exec(t.as_slice(), "openai-responses");
    let native_anthropic = eq_ignore_ascii_case_exec(t.as_slice(), "anthropic");
    if endpoint.anthropic {
        if native_responses {
            return Some(
                owned("anthropic client (/v1/messages) → openai-responses upstream is not supported"),
            );
        }
    } else if endpoint.responses {
        if native_anthropic {
            return Some(
                owned("responses client (/v1/responses) → anthropic upstream is not supported"),
            );
        }
    } else if native_responses || native_anthropic {
        return Some(owned("chat completions client → non-chat upstream is not supported"));
    }
    None
}

// ---------------------------------------------------------------------------
// Session ids
// ---------------------------------------------------------------------------
/// The first candidate (header values in priority order) whose trimmed
/// value is not empty, cut to 128 characters.
pub open spec fn first_session(vals: Seq<Option<Seq<char>>>, i: int) -> Option<Seq<char>>
    decreases vals.len() - i,
{
    if i < 0 || i >= vals.len() {
        None
    } else {
        match vals[i] {
            Some(v) => if trim(v).len() > 0 {
                Some(cap(trim(v), 128))
            } else {
                first_session(vals, i + 1)
            },
            None => first_session(vals, i + 1),
        }
    }
}

pub open spec fn opt_views(vals: Seq<Option<String>>) -> Seq<Option<Seq<char>>> {
    vals.map_values(
        |o: Option<String>|
            match o {
                Some(s) => Some(s@),
                None => None,
            },
    )
}

/// Session id from the client's header values, in priority order
/// (the coding agent's session header, `session_id`, `x-grok-conv-id`; a value that
/// is not visible ASCII counts as absent).
pub fn extract_session_id(values: &[Option<String>]) -> (r: Option<String>)
    ensures
        r matches Some(s) ==> first_session(opt_views(values@), 0) == Some(s@),
        r is None ==> first_session(opt_views(values@), 0) is None,
{
    let ghost vals = opt_views(values@);
    let mut i: usize = values.len();
    let mut found: Option<String> = None;
    while i > 0
        invariant
            i <= values@.len(),
            vals == opt_views(values@),
            found matches Some(s) ==> first_session(vals, i as int) == Some(s@),
            found is None ==> first_session(vals, i as int) is None,
        decreases i,
    {
        i = i - 1;
        match &values[i] {
            Some(v) => {
                let t = trim_chars(chars_of(v.as_str()).as_slice());
                if t.len() > 0 {
                    found = Some(string_from(take_chars(t.as_slice(), 128).as_slice()));
                }
            },
            None => {},
        }
    }
    found
}

/// `u` has its last `_session_` at `i`.
pub open spec fn last_occurrence(u: Seq<char>, p: Seq<char>, i: int) -> bool {
    occurs_at(u, p, i) && forall|j: int| i < j ==> !occurs_at(u, p, j)
}

/// What follows the last `_session_` in `metadata.user_id`, trimmed and cut
/// to 128 characters; only on the Anthropic endpoint, and only when not empty.
pub open spec fn metadata_session(j: JsonV, anthropic_endpoint: bool) -> Option<Seq<char>> {
    if !anthropic_endpoint {
        None
    } else {
        match vget(j, "metadata"@) {
            Some(m) => match vget_str(m, "user_id"@) {
                Some(u) => if contains(u, "_session_"@) {
                    let i = choose|i: int| last_occurrence(u, "_session_"@, i);
                    let t = trim(u.subrange(i + "_session_"@.len(), u.len() as int));
                    if t.len() == 0 {
                        None
                    } else {
                        Some(cap(t, 128))
                    }
                } else {
                    None
                },
                None => None,
            },
            None => None,
        }
    }
}

/// Session id from the `_session_` suffix of an Anthropic body's
/// `metadata.user_id`.
pub fn session_id_from_metadata(json: &Json, anthropic_endpoint: bool) -> (r: Option<String>)
    ensures
        r matches Some(s) ==> metadata_session(json@, anthropic_endpoint) == Some(s@),
        r is None ==> metadata_session(json@, anthropic_endpoint) is None,
{
    if !anthropic_endpoint {
        return None;
    }
    let m = match json.get("metadata") {
        Some(m) => m,
        None => return None,
    };
    let u = match m.get_str("user_id") {
        Some(u) => u,
        None => return None,
    };
    let uc = chars_of(u.as_str());
    let pat = chars_of("_session_");
    match rfind(uc.as_slice(), pat.as_slice()) {
        None => None,
        Some(i) => {
            let ghost us = u@;
            proof {
                assert(last_occurrence(us, pat@, i as int));
                let c = choose|k: int| last_occurrence(us, "_session_"@, k);
                assert(last_occurrence(us, "_session_"@, c));
                assert(c == i) by {
                    if c < i {
                        assert(!occurs_at(us, pat@, i as int));
                    } else if c > i {
                        assert(!occurs_at(us, pat@, c));
                    }
                }
            }
            let n = uc.len();
            assert(occurs_at(uc@, pat@, i as int));
            let tail = slice_range(uc.as_slice(), i + pat.len(), n);
            let t = trim_chars(tail.as_slice());
            if t.len() == 0 {
                None
            } else {
                Some(string_from(take_chars(t.as_slice(), 128).as_slice()))
            }
        },
    }
}

// ---------------------------------------------------------------------------
// Usage reporting on streams
// ---------------------------------------------------------------------------
/// The body with `stream_options.include_usage` set to `true`: an existing
/// `stream_options` object keeps its other keys; anything else is replaced
/// by `{"include_usage": true}`. A `null` body becomes an object.
pub open spec fn with_usage_option(body: JsonV) -> JsonV {
    let so = match vget(body, "stream_options"@) {
        Some(JsonV::Object(fs)) => JsonV::Object(set_field(fs, "include_usage"@, JsonV::Bool(true))),
        _ => JsonV::Object(seq![("include_usage"@, JsonV::Bool(true))]),
    };
    match body {
        JsonV::Object(fs) => JsonV::Object(set_field(fs, "stream_options"@, so)),
        _ => JsonV::Object(seq![("stream_options"@, so)]),
    }
}

/// Forces `stream_options.include_usage = true` on a streamed request.
pub fn ensure_include_usage(body: &mut Json, streamed: bool)
    requires
        streamed ==> (old(body)@ is Object || old(body)@ is Null),
    ensures
        final(body)@ == if streamed {
            with_usage_option(old(body)@)
        } else {
            old(body)@
        },
{
    if !streamed {
        return;
    }
    let existing = match body.get("stream_options") {
        Some(o) => if o.is_object() {
            Some(deep_clone(o))
        } else {
            None
        },
        None => None,
    };
    let so = match existing {
        Some(c0) => {
            let mut c = c0;
            c.set("include_usage", Json::Bool(true));
            c
        },
        None => {
            let mut f: Vec<(String, Json)> = Vec::new();
            f.push((owned("include_usage"), Json::Bool(true)));
            proof {
                lemma_object_view(f);
                assert(fields_view(f@) =~= seq![("include_usage"@, JsonV::Bool(true))]);
            }
            Json::Object(f)
        },
    };
    match body {
        Json::Object(_) => body.set("stream_options", so),
        _ => {
            let mut f: Vec<(String, Json)> = Vec::new();
            let ghost sv = so@;
            f.push((owned("stream_options"), so));
            proof {
                lemma_object_view(f);
                assert(fields_view(f@) =~= seq![("stream_options"@, sv)]);
            }
            *body = Json::Object(f);
        },
    }
}

// ---------------------------------------------------------------------------
// Retry classification and body sniffing
// ---------------------------------------------------------------------------
/// Statuses on which the next provider is tried: every non-2xx status but
/// the protocol / semantic errors 400, 405, 406, 413, 414, 415, 422, 501.
pub open spec fn retryable(status: u16) -> bool {
    !(200 <= status <= 299) && !(status == 400 || status == 405 || status == 406 || status == 413
        || status == 414 || status == 415 || status == 422 || status == 501)
}

pub fn status_retryable(status: u16) -> (r: bool)
    ensures
        r == retryable(status),
{
    if 200 <= status && status <= 299 {
        return false;
    }
    !(status == 400 || status == 405 || status == 406 || status == 413 || status == 414 || status
        == 415 || status == 422 || status == 501)
}

/// A failed first stream chunk switches provider on the same statuses.
pub fn is_stream_retryable(status: u16) -> (r: bool)
    ensures
        r == retryable(status),
{
    status_retryable(status)
}

/// Bytes skipped before sniffing: space, tab, CR, LF and a BOM's first byte.
pub open spec fn sniff_skip(b: u8) -> bool {
    b == 0x20 || b == 0x09 || b == 0x0D || b == 0x0A || b == 0xEF
}

/// Number of leading skipped bytes.
pub open spec fn sniff_lead(s: Seq<u8>) -> nat
    decreases s.len(),
{
    if s.len() > 0 && sniff_skip(s[0]) {
        1 + sniff_lead(s.drop_first())
    } else {
        0
    }
}

pub open spec fn bytes_prefix(s: Seq<u8>, p: Seq<u8>) -> bool {
    p.len() <= s.len() && s.take(p.len() as int) == p
}

/// After the skipped bytes, the body starts like an SSE line (`data:`,
/// `event:`, `id:`, `retry:` or a `:` comment).
pub open spec fn sse_like(bytes: Seq<u8>) -> bool {
    let t = bytes.skip(sniff_lead(bytes) as int);
    bytes_prefix(t, seq![100u8, 97u8, 116u8, 97u8, 58u8]) || bytes_prefix(
        t,
        seq![101u8, 118u8, 101u8, 110u8, 116u8, 58u8],
    ) || bytes_prefix(t, seq![105u8, 100u8, 58u8]) || bytes_prefix(
        t,
        seq![114u8, 101u8, 116u8, 114u8, 121u8, 58u8],
    ) || bytes_prefix(t, seq![58u8])
}

pub proof fn lemma_sniff_lead(s: Seq<u8>, n: int)
    requires
        0 <= n <= s.len(),
        forall|k: int| 0 <= k < n ==> sniff_skip(#[trigger] s[k]),
        n == s.len() || !sniff_skip(s[n]),
    ensures
        sniff_lead(s) == n,
    decreases n,
{
    if n > 0 {
        let t = s.drop_first();
        assert forall|k: int| 0 <= k < n - 1 implies sniff_skip(#[trigger] t[k]) by {
            assert(t[k] == s[k + 1]);
        }
        if n - 1 < t.len() {
            assert(t[n - 1] == s[n]);
        }
        lemma_sniff_lead(t, n - 1);
    }
}

pub fn bytes_start_with(s: &[u8], from: usize, p: &[u8]) -> (r: bool)
    requires
        from <= s@.len(),
    ensures
        r == bytes_prefix(s@.skip(from as int), p@),
{
    let n = s.len();
    if p.len() > n - from {
        return false;
    }
    let mut k: usize = 0;
    while k < p.len()
        invariant
            n == s@.len(),
            from + p@.len() <= n,
            k <= p@.len(),
            forall|j: int| 0 <= j < k ==> s@[from + j] == p@[j],
        decreases p@.len() - k,
    {
        if s[from + k] != p[k] {
            assert(s@.skip(from as int).take(p@.len() as int)[k as int] != p@[k as int]);
            return false;
        }
        k = k + 1;
    }
    assert(s@.skip(from as int).take(p@.len() as int) =~= p@);
    true
}

/// Whether a body whose content type claims otherwise is really SSE.
pub fn looks_like_sse(bytes: &[u8]) -> (r: bool)
    ensures
        r == sse_like(bytes@),
{
    let mut i: usize = 0;
    while i < bytes.len() && (bytes[i] == 0x20 || bytes[i] == 0x09 || bytes[i] == 0x0D || bytes[i]
        == 0x0A || bytes[i] == 0xEF)
        invariant
            i <= bytes@.len(),
            forall|k: int| 0 <= k < i ==> sniff_skip(#[trigger] bytes@[k]),
        decreases bytes@.len() - i,
    {
        i = i + 1;
    }
    proof {
        lemma_sniff_lead(bytes@, i as int);
    }
    let data: [u8; 5] = [100u8, 97u8, 116u8, 97u8, 58u8];
    let event: [u8; 6] = [101u8, 118u8, 101u8, 110u8, 116u8, 58u8];
    let id: [u8; 3] = [105u8, 100u8, 58u8];
    let retry: [u8; 6] = [114u8, 101u8, 116u8, 114u8, 121u8, 58u8];
    let colon: [u8; 1] = [58u8];
    assert(data@ =~= seq![100u8, 97u8, 116u8, 97u8, 58u8]);
    assert(event@ =~= seq![101u8, 118u8, 101u8, 110u8, 116u8, 58u8]);
    assert(id@ =~= seq![105u8, 100u8, 58u8]);
    assert(retry@ =~= seq![114u8, 101u8, 116u8, 114u8, 121u8, 58u8]);
    assert(colon@ =~= seq![58u8]);
    bytes_start_with(bytes, i, data.as_slice()) || bytes_start_with(bytes, i, event.as_slice())
        || bytes_start_with(bytes, i, id.as_slice()) || bytes_start_with(bytes, i, retry.as_slice())
        || bytes_start_with(bytes, i, colon.as_slice())
}

// ---------------------------------------------------------------------------
// Log redaction and body checks
// ---------------------------------------------------------------------------
/// The message with every occurrence of the provider key replaced by
/// `***`; unchanged when the key is blank.
pub open spec fn redacted(message: Seq<char>, key: Seq<char>) -> Seq<char> {
    if trim(key).len() == 0 {
        message
    } else {
        replace_all(message, key, "***"@)
    }
}

/// Hides a provider key in a message bound for the logs.
pub fn redact_secrets(message: String, provider_key: &str) -> (r: String)
    ensures
        r@ == redacted(message@, provider_key@),
{
    let k = chars_of(provider_key);
    if trim_chars(k.as_slice()).len() == 0 {
        return message;
    }
    let stars = chars_of("***");
    let m = chars_of(message.as_str());
    string_from(replace_all_exec(m.as_slice(), k.as_slice(), stars.as_slice()).as_slice())
}

/// An upstream Chat body whose `choices` is a non-empty array.
pub open spec fn usable_choices(v: JsonV) -> bool {
    match vget_arr(v, "choices"@) {
        Some(a) => a.len() > 0,
        None => false,
    }
}

pub fn has_usable_choices(v: &Json) -> (r: bool)
    ensures
        r == usable_choices(v@),
{
    match v.get("choices") {
        Some(c) => match c.as_array() {
            Some(a) => a.len() > 0,
            None => false,
        },
        None => false,
    }
}


// ---------------------------------------------------------------------------
// Error envelope
// ---------------------------------------------------------------------------
/// `{"error": {"message": msg, "type": "upstream_error", "code": "upstream_error"}}`.
pub open spec fn envelope_v(msg: Seq<char>) -> JsonV {
    JsonV::Object(
        seq![
            (
                "error"@,
                JsonV::Object(
                    seq![
                        ("message"@, JsonV::Str(msg)),
                        ("type"@, JsonV::Str("upstream_error"@)),
                        ("code"@, JsonV::Str("upstream_error"@)),
                    ],
                ),
            ),
        ],
    )
}

/// The OpenAI-style error body sent when an upstream fails mid-way.
pub fn upstream_error_envelope(msg: &str) -> (r: Vec<u8>)
    ensures
        r@ == crate::codec::json_text(envelope_v(msg@)),
{
    let mut inner: Vec<(String, Json)> = Vec::new();
    inner.push((owned("message"), Json::Str(owned(msg))));
    inner.push((owned("type"), Json::Str(owned("upstream_error"))));
    inner.push((owned("code"), Json::Str(owned("upstream_error"))));
    proof {
        lemma_object_view(inner);
    }
    assert(fields_view(inner@) =~= seq![
        ("message"@, JsonV::Str(msg@)),
        ("type"@, JsonV::Str("upstream_error"@)),
        ("code"@, JsonV::Str("upstream_error"@)),
    ]);
    let ghost iv = fields_view(inner@);
    let mut outer: Vec<(String, Json)> = Vec::new();
    outer.push((owned("error"), Json::Object(inner)));
    proof {
        lemma_object_view(outer);
    }
    assert(fields_view(outer@) =~= seq![("error"@, JsonV::Object(iv))]);
    crate::codec::to_json_bytes(&Json::Object(outer))
}


// ---------------------------------------------------------------------------
// Per-route outbound rewrites
// ---------------------------------------------------------------------------
/// With the route's switch on, the system messages of `messages` move to
/// the head (see `system_head`).
pub open spec fn system_head_applied(body: JsonV, enabled: bool, merge: bool) -> (JsonV, bool) {
    if !enabled {
        (body, false)
    } else {
        match vget_arr(body, "messages"@) {
            Some(ms) => {
                let (nm, changed) = crate::system_head::system_head(ms, merge);
                (vset(body, "messages"@, JsonV::Array(nm)), changed)
            },
            None => (body, false),
        }
    }
}

pub fn apply_system_head(body: &mut Json, enabled: bool, merge: bool) -> (r: bool)
    ensures
        final(body)@ == system_head_applied(old(body)@, enabled, merge).0,
        r == system_head_applied(old(body)@, enabled, merge).1,
{
    if !enabled {
        return false;
    }
    let mut ms = match body.get("messages") {
        Some(m) => match m.as_array() {
            Some(a) => {
                let mut c: Vec<Json> = Vec::new();
                let mut i: usize = 0;
                while i < a.len()
                    invariant
                        i <= a@.len(),
                        crate::json::elems_view(c@) == crate::json::elems_view(a@).take(i as int),
                    decreases a@.len() - i,
                {
                    let ghost before = crate::json::elems_view(c@);
                    let x = deep_clone(&a[i]);
                    let ghost xv = x@;
                    c.push(x);
                    assert(crate::json::elems_view(c@) =~= before.push(xv));
                    assert(crate::json::elems_view(a@).take(i + 1) =~= crate::json::elems_view(a@).take(
                        i as int,
                    ).push(a@[i as int]@));
                    i = i + 1;
                }
                assert(crate::json::elems_view(a@).take(a@.len() as int) =~= crate::json::elems_view(a@));
                c
            },
            None => return false,
        },
        None => return false,
    };
    let changed = crate::system_head::collect_system_to_head(&mut ms, merge);
    proof {
        crate::json::lemma_array_view(ms);
    }
    body.set("messages", Json::Array(ms));
    changed
}

/// Fields that only the Responses dialect knows.
pub open spec fn responses_only_fields() -> Seq<Seq<char>> {
    seq!["store"@, "safety_identifier"@, "prompt_cache_retention"@, "prompt_cache_key"@]
}

/// The body without the Responses-only fields that the route does not let
/// through.
pub open spec fn dialect_gated(body: JsonV, allowed: Seq<Seq<char>>) -> JsonV
    decreases 4nat,
{
    gate_fields(body, allowed, 4)
}

pub open spec fn gate_fields(body: JsonV, allowed: Seq<Seq<char>>, k: int) -> JsonV
    decreases k,
{
    if k <= 0 || k > 4 {
        body
    } else {
        let b = gate_fields(body, allowed, k - 1);
        let f = responses_only_fields()[k - 1];
        if allowed.contains(f) {
            b
        } else {
            match b {
                JsonV::Object(fs) => JsonV::Object(remove_field(fs, f)),
                _ => b,
            }
        }
    }
}

fn allowed_has(allowed: &[String], f: &str) -> (r: bool)
    ensures
        r == allowed@.map_values(|s: String| s@).contains(f@),
{
    let ghost av = allowed@.map_values(|s: String| s@);
    let fc = chars_of(f);
    let mut i: usize = 0;
    while i < allowed.len()
        invariant
            i <= allowed@.len(),
            av == allowed@.map_values(|s: String| s@),
            fc@ == f@,
            forall|j: int| 0 <= j < i ==> av[j] != f@,
        decreases allowed@.len() - i,
    {
        if crate::text::seq_eq(chars_of(allowed[i].as_str()).as_slice(), fc.as_slice()) {
            assert(av[i as int] == f@);
            return true;
        }
        i = i + 1;
    }
    false
}

/// Drops the Responses-only fields that the route's pass-through list does
/// not name.
pub fn apply_dialect_field_gate(body: &mut Json, allowed: &[String])
    ensures
        final(body)@ == dialect_gated(old(body)@, allowed@.map_values(|s: String| s@)),
{
    let ghost av = allowed@.map_values(|s: String| s@);
    let fields: [&str; 4] = ["store", "safety_identifier", "prompt_cache_retention", "prompt_cache_key"];
    let mut k: usize = 0;
    while k < 4
        invariant
            k <= 4,
            av == allowed@.map_values(|s: String| s@),
            fields@.map_values(|s: &str| s@) == responses_only_fields(),
            body@ == gate_fields(old(body)@, av, k as int),
        decreases 4 - k,
    {
        assert(fields@.map_values(|s: &str| s@)[k as int] == fields@[k as int]@);
        if !allowed_has(allowed, fields[k]) {
            body.remove(fields[k]);
        }
        k = k + 1;
    }
}

} // verus!

verus! {

// ---------------------------------------------------------------------------
// Upstream error context
// ---------------------------------------------------------------------------
/// The sixteen bytes of a 128-bit value, most significant first.
pub open spec fn be_bytes(id: u128) -> Seq<u8> {
    Seq::new(16, |i: int| ((id as int / vstd::arithmetic::power2::pow2((8 * (15 - i)) as nat) as int) % 256) as u8)
}

/// A UUID in its hyphenated lowercase form (8-4-4-4-12 hex digits).
pub open spec fn uuid_hyphenated(id: u128) -> Seq<char> {
    let b = be_bytes(id);
    crate::text::hex(b.subrange(0, 4)) + "-"@ + crate::text::hex(b.subrange(4, 6)) + "-"@
        + crate::text::hex(b.subrange(6, 8)) + "-"@ + crate::text::hex(b.subrange(8, 10)) + "-"@
        + crate::text::hex(b.subrange(10, 16))
}

/// Calls `uuid::Uuid::from_u128` and formats it with `Display`, which
/// uuid writes as the hyphenated lowercase form of the big-endian bytes.
#[verifier::external_body]
fn uuid_text(id: u128) -> (r: String)
    ensures
        r@ == uuid_hyphenated(id),
{
    uuid::Uuid::from_u128(id).to_string()
}

/// Where an upstream error came from: the provider's name, the model and
/// the gateway's request id.
pub struct UpstreamErrorContext {
    pub provider: String,
    pub model: String,
    pub request_id: u128,
}

/// ` [provider=…, model=…, request_id=…]`.
pub open spec fn error_suffix(ctx: UpstreamErrorContext) -> Seq<char> {
    " [provider="@ + ctx.provider@ + ", model="@ + ctx.model@ + ", request_id="@ + uuid_hyphenated(
        ctx.request_id,
    ) + "]"@
}

impl UpstreamErrorContext {
    /// The request id in its hyphenated form.
    pub fn request_id_text(&self) -> (r: String)
        ensures
            r@ == uuid_hyphenated(self.request_id),
    {
        uuid_text(self.request_id)
    }

    /// The suffix appended to upstream error messages.
    pub fn message_suffix(&self) -> (r: String)
        ensures
            r@ == error_suffix(*self),
    {
        let mut v: Vec<char> = Vec::new();
        crate::text::push_str(&mut v, " [provider=");
        crate::text::push_all(&mut v, chars_of(self.provider.as_str()).as_slice());
        crate::text::push_str(&mut v, ", model=");
        crate::text::push_all(&mut v, chars_of(self.model.as_str()).as_slice());
        crate::text::push_str(&mut v, ", request_id=");
        crate::text::push_all(&mut v, chars_of(self.request_id_text().as_str()).as_slice());
        crate::text::push_str(&mut v, "]");
        string_from(v.as_slice())
    }
}

} // verus!

verus! {

// ---------------------------------------------------------------------------
// Upstream URL
// ---------------------------------------------------------------------------
/// Number of `/` at the end.
pub open spec fn trailing_slashes(s: Seq<char>) -> nat
    decreases s.len(),
{
    if s.len() > 0 && s.last() == '/' {
        1 + trailing_slashes(s.drop_last())
    } else {
        0
    }
}

/// Index of the first `?` or `#` (the length when none).
pub open spec fn query_cut(s: Seq<char>) -> int
    decreases s.len(),
{
    if s.len() == 0 {
        0
    } else if s[0] == '?' || s[0] == '#' {
        0
    } else {
        1 + query_cut(s.drop_first())
    }
}

/// The base URL as joined: trimmed, without trailing slashes, cut at the
/// first `?` or `#`.
pub open spec fn clean_base(base_url: Seq<char>) -> Seq<char> {
    let t = trim(base_url);
    let u = t.take(t.len() - trailing_slashes(t));
    u.take(query_cut(u))
}

/// The upstream URL: a base that already ends with the endpoint path
/// (ASCII case ignored) is used as it is; a base ending in `/v1` joins a
/// `/v1/…` path without repeating `/v1`; otherwise base and path join.
pub open spec fn upstream_url_v(base_url: Seq<char>, upstream: Seq<char>) -> Seq<char> {
    let base = clean_base(base_url);
    let bl = crate::text::ascii_lower_seq(base);
    let ul = crate::text::ascii_lower_seq(upstream);
    if crate::text::has_suffix(bl, ul) {
        base
    } else if crate::text::has_suffix(bl, "/v1"@) && crate::text::has_prefix(ul, "/v1/"@) {
        base + upstream.skip(3)
    } else {
        base + upstream
    }
}

proof fn lemma_trailing_bound(s: Seq<char>)
    ensures
        trailing_slashes(s) <= s.len(),
    decreases s.len(),
{
    if s.len() > 0 && s.last() == '/' {
        lemma_trailing_bound(s.drop_last());
    }
}

proof fn lemma_query_cut(s: Seq<char>, i: int)
    requires
        0 <= i <= s.len(),
        forall|j: int| 0 <= j < i ==> s[j] != '?' && s[j] != '#',
        i < s.len() ==> (s[i] == '?' || s[i] == '#'),
    ensures
        query_cut(s) == i,
    decreases i,
{
    if i > 0 {
        assert forall|j: int| 0 <= j < i - 1 implies s.drop_first()[j] != '?' && s.drop_first()[j]
            != '#' by {
            assert(s.drop_first()[j] == s[j + 1]);
        }
        lemma_query_cut(s.drop_first(), i - 1);
    }
}

fn clean_base_exec(base_url: &str) -> (r: Vec<char>)
    ensures
        r@ == clean_base(base_url@),
{
    let t = trim_chars(chars_of(base_url).as_slice());
    let mut n: usize = t.len();
    assert(t@.take(n as int) =~= t@);
    while n > 0 && t[n - 1] == '/'
        invariant
            n <= t@.len(),
            trailing_slashes(t@) == (t@.len() - n) + trailing_slashes(t@.take(n as int)),
        decreases n,
    {
        proof {
            assert(t@.take(n as int).drop_last() =~= t@.take(n - 1));
        }
        n = n - 1;
    }
    proof {
        if n > 0 {
            assert(t@.take(n as int).last() == t@[n - 1]);
        }
        lemma_trailing_bound(t@);
    }
    let u = slice_range(t.as_slice(), 0, n);
    let mut c: usize = 0;
    while c < u.len() && u[c] != '?' && u[c] != '#'
        invariant
            c <= u@.len(),
            forall|j: int| 0 <= j < c ==> u@[j] != '?' && u@[j] != '#',
        decreases u@.len() - c,
    {
        c = c + 1;
    }
    proof {
        lemma_query_cut(u@, c as int);
        assert(u@ =~= t@.take(t@.len() - trailing_slashes(t@)));
    }
    slice_range(u.as_slice(), 0, c)
}

pub fn upstream_url(base_url: &str, upstream: &str) -> (r: String)
    ensures
        r@ == upstream_url_v(base_url@, upstream@),
{
    let base = clean_base_exec(base_url);
    let up = chars_of(upstream);
    let bl = crate::text::ascii_lowercase(base.as_slice());
    let ul = crate::text::ascii_lowercase(up.as_slice());
    if crate::text::ends_with(bl.as_slice(), ul.as_slice()) {
        string_from(base.as_slice())
    } else if crate::text::ends_with(bl.as_slice(), chars_of("/v1").as_slice())
        && crate::text::starts_with(ul.as_slice(), chars_of("/v1/").as_slice()) {
        proof {
            reveal_strlit("/v1/");
            assert(ul@.len() == up@.len());
        }
        let rest = slice_range(up.as_slice(), 3, up.len());
        assert(rest@ =~= upstream@.skip(3));
        string_from(crate::text::concat(base.as_slice(), rest.as_slice()).as_slice())
    } else {
        string_from(crate::text::concat(base.as_slice(), up.as_slice()).as_slice())
    }
}

} // verus!

verus! {

// ---------------------------------------------------------------------------
// Upstream request headers
// ---------------------------------------------------------------------------
pub open spec fn pairs_view(h: Seq<(String, Vec<u8>)>) -> Seq<(Seq<char>, Seq<u8>)> {
    h.map_values(|p: (String, Vec<u8>)| (p.0@, p.1@))
}

pub open spec fn text_pairs_view(h: Seq<(String, String)>) -> Seq<(Seq<char>, Seq<char>)> {
    h.map_values(|p: (String, String)| (p.0@, p.1@))
}

/// First value of header `n`.
pub open spec fn header_first(h: Seq<(Seq<char>, Seq<u8>)>, n: Seq<char>) -> Option<Seq<u8>>
    decreases h.len(),
{
    if h.len() == 0 {
        None
    } else if h[0].0 == n {
        Some(h[0].1)
    } else {
        header_first(h.drop_first(), n)
    }
}

/// All values of header `n`, in order.
pub open spec fn header_values(h: Seq<(Seq<char>, Seq<u8>)>, n: Seq<char>) -> Seq<Seq<u8>>
    decreases h.len(),
{
    if h.len() == 0 {
        Seq::empty()
    } else {
        let r = header_values(h.drop_last(), n);
        if h.last().0 == n {
            r.push(h.last().1)
        } else {
            r
        }
    }
}

/// A byte a header value may show as text: visible ASCII or tab.
pub open spec fn visible_ascii(b: u8) -> bool {
    (32 <= b && b < 127) || b == 9
}

/// A header value as text, when all of its bytes are visible ASCII.
pub open spec fn header_text(v: Seq<u8>) -> Option<Seq<char>> {
    if forall|i: int| 0 <= i < v.len() ==> visible_ascii(#[trigger] v[i]) {
        Some(Seq::new(v.len(), |i: int| v[i] as char))
    } else {
        None
    }
}

/// The comma-separated tokens (trimmed, non-empty) of the values that
/// read as text.
pub open spec fn beta_tokens(vals: Seq<Seq<u8>>) -> Seq<Seq<char>>
    decreases vals.len(),
{
    if vals.len() == 0 {
        Seq::empty()
    } else {
        beta_tokens(vals.drop_last()) + match header_text(vals.last()) {
            Some(t) => crate::decode::kept_codings(crate::decode::split_commas(t)),
            None => Seq::empty(),
        }
    }
}

/// `anthropic-beta` for a native Anthropic upstream: the client's tokens,
/// then the configured marker (when there is one) and the 1M-context
/// marker (when the model asks for it), each added once.
pub open spec fn betas_v(client: Seq<(Seq<char>, Seq<u8>)>, marker: Option<Seq<char>>, wants_1m: bool) -> Seq<
    Seq<char>,
> {
    let b0 = beta_tokens(header_values(client, "anthropic-beta"@));
    let b1 = match marker {
        Some(m) => if !b0.contains(m) {
            b0.push(m)
        } else {
            b0
        },
        None => b0,
    };
    if wants_1m && !b1.contains("context-1m-2025-08-07"@) {
        b1.push("context-1m-2025-08-07"@)
    } else {
        b1
    }
}

/// The first value of each passed-through header (`names`) the client
/// sent, in the list's order (`anthropic-beta` is rebuilt for native
/// Anthropic upstreams instead).
pub open spec fn passthrough_v(client: Seq<(Seq<char>, Seq<u8>)>, names: Seq<Seq<char>>, native: bool) -> Seq<
    (Seq<char>, Seq<u8>),
>
    decreases names.len(),
{
    if names.len() == 0 {
        Seq::empty()
    } else {
        let r = passthrough_v(client, names.drop_last(), native);
        let n = names.last();
        if native && n == "anthropic-beta"@ {
            r
        } else {
            match header_first(client, n) {
                Some(v) => r.push((n, v)),
                None => r,
            }
        }
    }
}

/// The client's `x-stainless-*` headers, in order.
pub open spec fn stainless_v(client: Seq<(Seq<char>, Seq<u8>)>) -> Seq<(Seq<char>, Seq<u8>)>
    decreases client.len(),
{
    if client.len() == 0 {
        Seq::empty()
    } else {
        let r = stainless_v(client.drop_last());
        if crate::text::has_prefix(client.last().0, "x-stainless-"@) {
            r.push(client.last())
        } else {
            r
        }
    }
}

/// The string-valued fields of the provider's extra headers.
pub open spec fn extra_headers_v(fs: Seq<(Seq<char>, JsonV)>) -> Seq<(Seq<char>, Seq<u8>)>
    decreases fs.len(),
{
    if fs.len() == 0 {
        Seq::empty()
    } else {
        let r = extra_headers_v(fs.drop_last());
        match fs.last().1 {
            JsonV::Str(s) => r.push((fs.last().0, crate::text::utf8(s))),
            _ => r,
        }
    }
}

pub open spec fn auth_seg(p: Provider, key: Seq<char>, request_id: Seq<char>) -> Seq<(Seq<char>, Seq<u8>)> {
    let auth = if eq_ignore_ascii_case(trim(p.auth_scheme@), "x-api-key"@) {
        seq![("x-api-key"@, crate::text::utf8(key))]
    } else {
        seq![("authorization"@, crate::text::utf8("Bearer "@ + key))]
    };
    auth + seq![
        ("content-type"@, crate::text::utf8("application/json"@)),
        ("x-request-id"@, crate::text::utf8(request_id)),
    ]
}

pub open spec fn version_seg(client: Seq<(Seq<char>, Seq<u8>)>, native: bool) -> Seq<(Seq<char>, Seq<u8>)> {
    if native {
        let v = match header_first(client, "anthropic-version"@) {
            Some(b) => match header_text(b) {
                Some(t) => if trim(t).len() > 0 {
                    t
                } else {
                    "2023-06-01"@
                },
                None => "2023-06-01"@,
            },
            None => "2023-06-01"@,
        };
        seq![("anthropic-version"@, crate::text::utf8(v))]
    } else {
        Seq::empty()
    }
}

pub open spec fn beta_seg(client: Seq<(Seq<char>, Seq<u8>)>, native: bool, marker: Option<Seq<char>>, wants_1m: bool) -> Seq<(Seq<char>, Seq<u8>)> {
    if native && betas_v(client, marker, wants_1m).len() > 0 {
        seq![("anthropic-beta"@, crate::text::utf8(crate::text::join(betas_v(client, marker, wants_1m), ","@)))]
    } else {
        Seq::empty()
    }
}

pub open spec fn custom_seg(custom: Seq<(Seq<char>, Seq<char>)>) -> Seq<(Seq<char>, Seq<u8>)> {
    custom.map_values(|c: (Seq<char>, Seq<char>)| (c.0, crate::text::utf8(c.1)))
}

pub open spec fn extra_seg(extra: JsonV) -> Seq<(Seq<char>, Seq<u8>)> {
    match extra {
        JsonV::Object(fs) => extra_headers_v(fs),
        _ => Seq::empty(),
    }
}

pub open spec fn accept_seg(client: Seq<(Seq<char>, Seq<u8>)>, streamed: bool) -> Seq<(Seq<char>, Seq<u8>)> {
    if streamed {
        seq![("accept"@, crate::text::utf8("text/event-stream"@))]
    } else {
        match header_first(client, "accept"@) {
            Some(v) => seq![("accept"@, v)],
            None => seq![("accept"@, crate::text::utf8("application/json"@))],
        }
    }
}

/// The headers of an upstream request, in the order they are added:
/// authentication (`x-api-key`, else a bearer token), content type and
/// request id; for a native Anthropic upstream `anthropic-version` (the
/// client's non-blank value, else `2023-06-01`); the passed-through client
/// headers; the rebuilt `anthropic-beta`; the client's `x-stainless-*`
/// headers; the configured custom headers; the provider's extra headers;
/// and `accept` (the event stream when streaming, else the client's value
/// or JSON).
pub open spec fn header_plan(
    p: Provider,
    key: Seq<char>,
    request_id: Seq<char>,
    client: Seq<(Seq<char>, Seq<u8>)>,
    passthrough: Seq<Seq<char>>,
    marker: Option<Seq<char>>,
    wants_1m: bool,
    custom: Seq<(Seq<char>, Seq<char>)>,
    streamed: bool,
) -> Seq<(Seq<char>, Seq<u8>)> {
    let native = eq_ignore_ascii_case(p.api_type@, "anthropic"@);
    auth_seg(p, key, request_id) + version_seg(client, native) + passthrough_v(
        client,
        passthrough,
        native,
    ) + beta_seg(client, native, marker, wants_1m) + stainless_v(client) + custom_seg(custom)
        + extra_seg(p.extra_headers@) + accept_seg(client, streamed)
}

} // verus!

verus! {

fn bytes_of(s: &str) -> (r: Vec<u8>)
    ensures
        r@ == crate::text::utf8(s@),
{
    crate::text::utf8_bytes(chars_of(s).as_slice())
}

proof fn lemma_header_first(h: Seq<(Seq<char>, Seq<u8>)>, n: Seq<char>, i: int)
    requires
        0 <= i <= h.len(),
        forall|j: int| 0 <= j < i ==> h[j].0 != n,
        i < h.len() ==> h[i].0 == n,
    ensures
        header_first(h, n) == if i < h.len() {
            Some(h[i].1)
        } else {
            None
        },
    decreases i,
{
    if i > 0 {
        assert forall|j: int| 0 <= j < i - 1 implies h.drop_first()[j].0 != n by {
            assert(h.drop_first()[j] == h[j + 1]);
        }
        lemma_header_first(h.drop_first(), n, i - 1);
    }
}

fn name_is(s: &String, n: &str) -> (r: bool)
    ensures
        r == (s@ == n@),
{
    crate::text::seq_eq(chars_of(s.as_str()).as_slice(), chars_of(n).as_slice())
}

fn header_first_exec<'a>(h: &'a [(String, Vec<u8>)], n: &str) -> (r: Option<&'a Vec<u8>>)
    ensures
        match r {
            Some(v) => header_first(pairs_view(h@), n@) == Some(v@),
            None => header_first(pairs_view(h@), n@) is None,
        },
{
    let ghost hv = pairs_view(h@);
    let mut i: usize = 0;
    while i < h.len()
        invariant
            i <= h@.len(),
            hv == pairs_view(h@),
            forall|j: int| 0 <= j < i ==> hv[j].0 != n@,
        decreases h@.len() - i,
    {
        if name_is(&h[i].0, n) {
            proof {
                lemma_header_first(hv, n@, i as int);
            }
            return Some(&h[i].1);
        }
        i = i + 1;
    }
    proof {
        lemma_header_first(hv, n@, i as int);
    }
    None
}

fn header_text_exec(v: &[u8]) -> (r: Option<Vec<char>>)
    ensures
        match r {
            Some(t) => header_text(v@) == Some(t@),
            None => header_text(v@) is None,
        },
{
    let mut out: Vec<char> = Vec::new();
    let mut i: usize = 0;
    while i < v.len()
        invariant
            i <= v@.len(),
            out@ =~= Seq::new(i as nat, |k: int| v@[k] as char),
            forall|k: int| 0 <= k < i ==> visible_ascii(#[trigger] v@[k]),
        decreases v@.len() - i,
    {
        let b = v[i];
        if !((32u8 <= b && b < 127u8) || b == 9u8) {
            assert(!visible_ascii(v@[i as int]));
            return None;
        }
        out.push(b as char);
        i = i + 1;
    }
    Some(out)
}

fn beta_tokens_exec(client: &[(String, Vec<u8>)]) -> (r: Vec<Vec<char>>)
    ensures
        r@.map_values(|w: Vec<char>| w@) == beta_tokens(header_values(pairs_view(client@), "anthropic-beta"@)),
{
    let ghost hv = pairs_view(client@);
    let mut toks: Vec<Vec<char>> = Vec::new();
    let mut i: usize = 0;
    while i < client.len()
        invariant
            i <= client@.len(),
            hv == pairs_view(client@),
            toks@.map_values(|w: Vec<char>| w@) == beta_tokens(header_values(hv.take(i as int), "anthropic-beta"@)),
        decreases client@.len() - i,
    {
        proof {
            assert(hv.take(i + 1).drop_last() =~= hv.take(i as int));
            assert(hv.take(i + 1).last() == hv[i as int]);
        }
        let ghost before = toks@.map_values(|w: Vec<char>| w@);
        if name_is(&client[i].0, "anthropic-beta") {
            let ghost vals0 = header_values(hv.take(i as int), "anthropic-beta"@);
            assert(header_values(hv.take(i + 1), "anthropic-beta"@) == vals0.push(client@[i as int].1@));
            assert(vals0.push(client@[i as int].1@).drop_last() =~= vals0);
            match header_text_exec(client[i].1.as_slice()) {
                Some(t) => {
                    let parts = crate::decode::codings_of(t.as_slice());
                    let ghost pv = parts@.map_values(|w: Vec<char>| w@);
                    let mut k: usize = 0;
                    while k < parts.len()
                        invariant
                            k <= parts@.len(),
                            pv == parts@.map_values(|w: Vec<char>| w@),
                            toks@.map_values(|w: Vec<char>| w@) == before + pv.take(k as int),
                        decreases parts@.len() - k,
                    {
                        let ghost b2 = toks@.map_values(|w: Vec<char>| w@);
                        toks.push(parts[k].clone());
                        assert(toks@.map_values(|w: Vec<char>| w@) =~= b2.push(pv[k as int]));
                        assert(pv.take(k + 1) =~= pv.take(k as int).push(pv[k as int]));
                        k = k + 1;
                    }
                    assert(pv.take(parts@.len() as int) =~= pv);
                },
                None => {
                    assert(toks@.map_values(|w: Vec<char>| w@) =~= before + Seq::empty());
                },
            }
        }
        i = i + 1;
    }
    assert(hv.take(client@.len() as int) =~= hv);
    toks
}

fn tokens_contain(toks: &Vec<Vec<char>>, lit: &str) -> (r: bool)
    ensures
        r == toks@.map_values(|w: Vec<char>| w@).contains(lit@),
{
    let ghost tv = toks@.map_values(|w: Vec<char>| w@);
    let l = chars_of(lit);
    let mut i: usize = 0;
    while i < toks.len()
        invariant
            i <= toks@.len(),
            tv == toks@.map_values(|w: Vec<char>| w@),
            l@ == lit@,
            forall|j: int| 0 <= j < i ==> tv[j] != lit@,
        decreases toks@.len() - i,
    {
        if crate::text::seq_eq(toks[i].as_slice(), l.as_slice()) {
            assert(tv[i as int] == lit@);
            return true;
        }
        i = i + 1;
    }
    false
}

fn push_pair(out: &mut Vec<(String, Vec<u8>)>, name: &str, value: Vec<u8>)
    ensures
        pairs_view(final(out)@) == pairs_view(old(out)@).push((name@, value@)),
{
    let ghost v0 = pairs_view(out@);
    let ghost vv = value@;
    out.push((owned(name), value));
    assert(pairs_view(out@) =~= v0.push((name@, vv)));
}

fn push_pair_string(out: &mut Vec<(String, Vec<u8>)>, name: &String, value: Vec<u8>)
    ensures
        pairs_view(final(out)@) == pairs_view(old(out)@).push((name@, value@)),
{
    let ghost v0 = pairs_view(out@);
    let ghost vv = value@;
    out.push((name.clone(), value));
    assert(pairs_view(out@) =~= v0.push((name@, vv)));
}

fn auth_headers(out: &mut Vec<(String, Vec<u8>)>, provider: &Provider, provider_key: &str, request_id: &str)
    ensures
        pairs_view(final(out)@) == pairs_view(old(out)@) + auth_seg(*provider, provider_key@, request_id@),
{
    let ghost v0 = pairs_view(out@);
    let scheme = trim_chars(chars_of(provider.auth_scheme.as_str()).as_slice());
    if eq_ignore_ascii_case_exec(scheme.as_slice(), "x-api-key") {
        push_pair(out, "x-api-key", bytes_of(provider_key));
    } else {
        let mut v = chars_of("Bearer ");
        crate::text::push_all(&mut v, chars_of(provider_key).as_slice());
        push_pair(out, "authorization", crate::text::utf8_bytes(v.as_slice()));
    }
    push_pair(out, "content-type", bytes_of("application/json"));
    push_pair(out, "x-request-id", bytes_of(request_id));
    assert(pairs_view(out@) =~= v0 + auth_seg(*provider, provider_key@, request_id@));
}

fn version_header(out: &mut Vec<(String, Vec<u8>)>, client: &[(String, Vec<u8>)], native: bool)
    ensures
        pairs_view(final(out)@) == pairs_view(old(out)@) + version_seg(pairs_view(client@), native),
{
    let ghost v0 = pairs_view(out@);
    if native {
        let v: Vec<char> = match header_first_exec(client, "anthropic-version") {
            Some(b) => match header_text_exec(b.as_slice()) {
                Some(t) => if trim_chars(t.as_slice()).len() > 0 {
                    t
                } else {
                    chars_of("2023-06-01")
                },
                None => chars_of("2023-06-01"),
            },
            None => chars_of("2023-06-01"),
        };
        push_pair(out, "anthropic-version", crate::text::utf8_bytes(v.as_slice()));
    }
    assert(pairs_view(out@) =~= v0 + version_seg(pairs_view(client@), native));
}

fn passthrough_headers(out: &mut Vec<(String, Vec<u8>)>, client: &[(String, Vec<u8>)], names: &[String], native: bool)
    ensures
        pairs_view(final(out)@) == pairs_view(old(out)@) + passthrough_v(
            pairs_view(client@),
            names@.map_values(|s: String| s@),
            native,
        ),
{
    let ghost cv = pairs_view(client@);
    let ghost s0 = pairs_view(out@);
    let ghost nv = names@.map_values(|s: String| s@);
    let mut i: usize = 0;
    assert(s0 + passthrough_v(cv, nv.take(0), native) =~= s0);
    while i < names.len()
        invariant
            i <= names@.len(),
            nv == names@.map_values(|s: String| s@),
            cv == pairs_view(client@),
            pairs_view(out@) == s0 + passthrough_v(cv, nv.take(i as int), native),
        decreases names@.len() - i,
    {
        proof {
            assert(nv.take(i + 1).drop_last() =~= nv.take(i as int));
            assert(nv.take(i + 1).last() == names@[i as int]@);
        }
        let name = names[i].as_str();
        let skip = native && is(chars_of(name).as_slice(), "anthropic-beta");
        if !skip {
            match header_first_exec(client, name) {
                Some(v) => {
                    push_pair(out, name, v.clone());
                    assert(pairs_view(out@) =~= s0 + passthrough_v(cv, nv.take(i + 1), native));
                },
                None => {},
            }
        }
        i = i + 1;
    }
    assert(nv.take(names@.len() as int) =~= nv);
}

fn beta_header(out: &mut Vec<(String, Vec<u8>)>, client: &[(String, Vec<u8>)], native: bool, marker: Option<&str>, wants_1m: bool)
    ensures
        pairs_view(final(out)@) == pairs_view(old(out)@) + beta_seg(
            pairs_view(client@),
            native,
            match marker {
                Some(m) => Some(m@),
                None => None,
            },
            wants_1m,
        ),
{
    let ghost v0 = pairs_view(out@);
    let ghost mv: Option<Seq<char>> = match marker {
        Some(m) => Some(m@),
        None => None,
    };
    if native {
        let mut betas = beta_tokens_exec(client);
        match marker {
            Some(m) => if !tokens_contain(&betas, m) {
                let ghost b0 = betas@.map_values(|w: Vec<char>| w@);
                betas.push(chars_of(m));
                assert(betas@.map_values(|w: Vec<char>| w@) =~= b0.push(m@));
            },
            None => {},
        }
        if wants_1m && !tokens_contain(&betas, "context-1m-2025-08-07") {
            let ghost b1 = betas@.map_values(|w: Vec<char>| w@);
            betas.push(chars_of("context-1m-2025-08-07"));
            assert(betas@.map_values(|w: Vec<char>| w@) =~= b1.push("context-1m-2025-08-07"@));
        }
        assert(betas@.map_values(|w: Vec<char>| w@) == betas_v(pairs_view(client@), mv, wants_1m));
        if betas.len() > 0 {
            let joined = crate::text::join_exec(&betas, chars_of(",").as_slice());
            push_pair(out, "anthropic-beta", crate::text::utf8_bytes(joined.as_slice()));
        }
    }
    assert(pairs_view(out@) =~= v0 + beta_seg(pairs_view(client@), native, mv, wants_1m));
}

fn stainless_headers(out: &mut Vec<(String, Vec<u8>)>, client: &[(String, Vec<u8>)])
    ensures
        pairs_view(final(out)@) == pairs_view(old(out)@) + stainless_v(pairs_view(client@)),
{
    let ghost cv = pairs_view(client@);
    let ghost s0 = pairs_view(out@);
    assert(s0 + stainless_v(cv.take(0)) =~= s0);
    let mut k: usize = 0;
    while k < client.len()
        invariant
            k <= client@.len(),
            cv == pairs_view(client@),
            pairs_view(out@) == s0 + stainless_v(cv.take(k as int)),
        decreases client@.len() - k,
    {
        proof {
            assert(cv.take(k + 1).drop_last() =~= cv.take(k as int));
            assert(cv.take(k + 1).last() == cv[k as int]);
        }
        if crate::text::starts_with(chars_of(client[k].0.as_str()).as_slice(), chars_of("x-stainless-").as_slice()) {
            push_pair_string(out, &client[k].0, client[k].1.clone());
            assert(pairs_view(out@) =~= s0 + stainless_v(cv.take(k + 1)));
        }
        k = k + 1;
    }
    assert(cv.take(client@.len() as int) =~= cv);
}

fn custom_headers(out: &mut Vec<(String, Vec<u8>)>, custom: &[(String, String)])
    ensures
        pairs_view(final(out)@) == pairs_view(old(out)@) + custom_seg(text_pairs_view(custom@)),
{
    let ghost s0 = pairs_view(out@);
    let ghost tv = text_pairs_view(custom@);
    assert(s0 + custom_seg(tv.take(0)) =~= s0);
    let mut c: usize = 0;
    while c < custom.len()
        invariant
            c <= custom@.len(),
            tv == text_pairs_view(custom@),
            pairs_view(out@) == s0 + custom_seg(tv.take(c as int)),
        decreases custom@.len() - c,
    {
        push_pair_string(out, &custom[c].0, bytes_of(custom[c].1.as_str()));
        assert(custom_seg(tv.take(c + 1)) =~= custom_seg(tv.take(c as int)).push(
            (tv[c as int].0, crate::text::utf8(tv[c as int].1)),
        ));
        assert(pairs_view(out@) =~= s0 + custom_seg(tv.take(c + 1)));
        c = c + 1;
    }
    assert(tv.take(custom@.len() as int) =~= tv);
}

fn extra_headers(out: &mut Vec<(String, Vec<u8>)>, extra: &Json)
    ensures
        pairs_view(final(out)@) == pairs_view(old(out)@) + extra_seg(extra@),
{
    let ghost s0 = pairs_view(out@);
    match extra {
        Json::Object(fs) => {
            proof {
                lemma_object_view(*fs);
            }
            let ghost fv = crate::json::fields_view(fs@);
            assert(s0 + extra_headers_v(fv.take(0)) =~= s0);
            let mut e: usize = 0;
            while e < fs.len()
                invariant
                    e <= fs@.len(),
                    fv == crate::json::fields_view(fs@),
                    pairs_view(out@) == s0 + extra_headers_v(fv.take(e as int)),
                decreases fs@.len() - e,
            {
                proof {
                    assert(fv.take(e + 1).drop_last() =~= fv.take(e as int));
                    assert(fv.take(e + 1).last() == fv[e as int]);
                }
                match &fs[e].1 {
                    Json::Str(s) => {
                        push_pair_string(out, &fs[e].0, bytes_of(s.as_str()));
                        assert(pairs_view(out@) =~= s0 + extra_headers_v(fv.take(e + 1)));
                    },
                    _ => {},
                }
                e = e + 1;
            }
            assert(fv.take(fs@.len() as int) =~= fv);
        },
        _ => {
            assert(pairs_view(out@) =~= s0 + extra_seg(extra@));
        },
    }
}

fn accept_header(out: &mut Vec<(String, Vec<u8>)>, client: &[(String, Vec<u8>)], streamed: bool)
    ensures
        pairs_view(final(out)@) == pairs_view(old(out)@) + accept_seg(pairs_view(client@), streamed),
{
    let ghost v0 = pairs_view(out@);
    if streamed {
        push_pair(out, "accept", bytes_of("text/event-stream"));
    } else {
        match header_first_exec(client, "accept") {
            Some(v) => push_pair(out, "accept", v.clone()),
            None => push_pair(out, "accept", bytes_of("application/json")),
        }
    }
    assert(pairs_view(out@) =~= v0 + accept_seg(pairs_view(client@), streamed));
}

/// The headers of an upstream request (see `header_plan`). `passthrough`
/// names the client headers forwarded as they are; `beta_marker` is the
/// configured token added to a native Anthropic upstream's
/// `anthropic-beta`; `custom` holds the configured upstream headers that
/// are valid header names and values.
pub fn upstream_headers(
    provider: &Provider,
    provider_key: &str,
    request_id: &str,
    client: &[(String, Vec<u8>)],
    passthrough: &[String],
    beta_marker: Option<&str>,
    wants_1m: bool,
    custom: &[(String, String)],
    streamed: bool,
) -> (r: Vec<(String, Vec<u8>)>)
    ensures
        pairs_view(r@) == header_plan(
            *provider,
            provider_key@,
            request_id@,
            pairs_view(client@),
            passthrough@.map_values(|s: String| s@),
            match beta_marker {
                Some(m) => Some(m@),
                None => None,
            },
            wants_1m,
            text_pairs_view(custom@),
            streamed,
        ),
{
    let mut out: Vec<(String, Vec<u8>)> = Vec::new();
    assert(pairs_view(out@) =~= Seq::<(Seq<char>, Seq<u8>)>::empty());
    let native = eq_ignore_ascii_case_exec(chars_of(provider.api_type.as_str()).as_slice(), "anthropic");
    auth_headers(&mut out, provider, provider_key, request_id);
    version_header(&mut out, client, native);
    passthrough_headers(&mut out, client, passthrough, native);
    beta_header(&mut out, client, native, beta_marker, wants_1m);
    stainless_headers(&mut out, client);
    custom_headers(&mut out, custom);
    extra_headers(&mut out, &provider.extra_headers);
    accept_header(&mut out, client, streamed);
    proof {
        let c = pairs_view(client@);
        let mv: Option<Seq<char>> = match beta_marker {
            Some(m) => Some(m@),
            None => None,
        };
        assert(pairs_view(out@) =~= auth_seg(*provider, provider_key@, request_id@) + version_seg(c, native)
            + passthrough_v(c, passthrough@.map_values(|s: String| s@), native) + beta_seg(
            c,
            native,
            mv,
            wants_1m,
        ) + stainless_v(c) + custom_seg(text_pairs_view(custom@)) + extra_seg(provider.extra_headers@)
            + accept_seg(c, streamed));
    }
    out
}

} // verus!

verus! {

/// Milliseconds to wait for an upstream's response headers: the
/// provider's timeout, at least one second.
pub fn header_timeout_ms(timeout_ms: i64) -> (r: u64)
    ensures
        r == if timeout_ms < 1000 {
            1000
        } else {
            timeout_ms
        },
{
    if timeout_ms < 1000 {
        1000
    } else {
        timeout_ms as u64
    }
}

/// An upstream response header relayed to the client: `retry-after`,
/// `openai-organization`, `openai-processing-ms`, and the
/// `x-ratelimit-*` and `anthropic-ratelimit-*` families.
pub open spec fn relayed_header(n: Seq<char>) -> bool {
    n == "retry-after"@ || n == "openai-organization"@ || n == "openai-processing-ms"@
        || crate::text::has_prefix(n, "x-ratelimit-"@) || crate::text::has_prefix(
        n,
        "anthropic-ratelimit-"@,
    )
}

pub fn is_rate_limit_header(name: &str) -> (r: bool)
    ensures
        r == relayed_header(name@),
{
    let n = chars_of(name);
    let s = n.as_slice();
    is(s, "retry-after") || is(s, "openai-organization") || is(s, "openai-processing-ms")
        || crate::text::starts_with(s, chars_of("x-ratelimit-").as_slice())
        || crate::text::starts_with(s, chars_of("anthropic-ratelimit-").as_slice())
}

/// The upstream response headers relayed to the client, in order.
pub open spec fn relayed_headers_v(h: Seq<(Seq<char>, Seq<u8>)>) -> Seq<(Seq<char>, Seq<u8>)>
    decreases h.len(),
{
    if h.len() == 0 {
        Seq::empty()
    } else {
        let r = relayed_headers_v(h.drop_last());
        if relayed_header(h.last().0) {
            r.push(h.last())
        } else {
            r
        }
    }
}

pub fn rate_limit_headers(headers: &[(String, Vec<u8>)]) -> (r: Vec<(String, Vec<u8>)>)
    ensures
        pairs_view(r@) == relayed_headers_v(pairs_view(headers@)),
{
    let ghost hv = pairs_view(headers@);
    let mut out: Vec<(String, Vec<u8>)> = Vec::new();
    assert(pairs_view(out@) =~= relayed_headers_v(hv.take(0)));
    let mut i: usize = 0;
    while i < headers.len()
        invariant
            i <= headers@.len(),
            hv == pairs_view(headers@),
            pairs_view(out@) == relayed_headers_v(hv.take(i as int)),
        decreases headers@.len() - i,
    {
        proof {
            assert(hv.take(i + 1).drop_last() =~= hv.take(i as int));
            assert(hv.take(i + 1).last() == hv[i as int]);
        }
        if is_rate_limit_header(headers[i].0.as_str()) {
            push_pair_string(&mut out, &headers[i].0, headers[i].1.clone());
        }
        i = i + 1;
    }
    assert(hv.take(headers@.len() as int) =~= hv);
    out
}

/// The error context of a provider, model and request id.
pub fn error_context(provider: &Provider, model: &str, request_id: u128) -> (c: UpstreamErrorContext)
    ensures
        c.provider@ == provider.name@,
        c.model@ == model@,
        c.request_id == request_id,
{
    UpstreamErrorContext { provider: provider.name.clone(), model: owned(model), request_id }
}

} // verus!

verus! {

// ---------------------------------------------------------------------------
// Candidate upstreams
// ---------------------------------------------------------------------------
/// Two provider records hold the same values.
pub open spec fn same_provider(a: Provider, b: Provider) -> bool {
    &&& a.id == b.id
    &&& a.name@ == b.name@
    &&& a.api_type@ == b.api_type@
    &&& a.base_url@ == b.base_url@
    &&& a.api_key_encrypted@ == b.api_key_encrypted@
    &&& a.timeout_ms == b.timeout_ms
    &&& a.extra_body@ == b.extra_body@
    &&& a.auth_scheme@ == b.auth_scheme@
    &&& a.extra_headers@ == b.extra_headers@
    &&& a.supports_images == b.supports_images
}

pub fn clone_provider(p: &Provider) -> (r: Provider)
    ensures
        same_provider(r, *p),
{
    Provider {
        id: p.id,
        name: p.name.clone(),
        api_type: p.api_type.clone(),
        base_url: p.base_url.clone(),
        api_key_encrypted: p.api_key_encrypted.clone(),
        timeout_ms: p.timeout_ms,
        extra_body: deep_clone(&p.extra_body),
        auth_scheme: p.auth_scheme.clone(),
        extra_headers: deep_clone(&p.extra_headers),
        supports_images: p.supports_images,
    }
}

/// Index of the first provider with the id (the length when none).
pub open spec fn provider_index(ps: Seq<Provider>, id: i64) -> int
    decreases ps.len(),
{
    if ps.len() == 0 {
        0
    } else if ps[0].id == id {
        0
    } else {
        1 + provider_index(ps.drop_first(), id)
    }
}

proof fn lemma_provider_index(ps: Seq<Provider>, id: i64, i: int)
    requires
        0 <= i <= ps.len(),
        forall|j: int| 0 <= j < i ==> ps[j].id != id,
        i < ps.len() ==> ps[i].id == id,
    ensures
        provider_index(ps, id) == i,
    decreases i,
{
    if i > 0 {
        assert forall|j: int| 0 <= j < i - 1 implies ps.drop_first()[j].id != id by {
            assert(ps.drop_first()[j] == ps[j + 1]);
        }
        lemma_provider_index(ps.drop_first(), id, i - 1);
    }
}

/// The ids tried, in order: those of `ids` that name a known provider,
/// each once.
pub open spec fn candidate_ids(ids: Seq<i64>, ps: Seq<Provider>) -> Seq<i64>
    decreases ids.len(),
{
    if ids.len() == 0 {
        Seq::empty()
    } else {
        let r = candidate_ids(ids.drop_last(), ps);
        let id = ids.last();
        if provider_index(ps, id) < ps.len() && !r.contains(id) {
            r.push(id)
        } else {
            r
        }
    }
}

fn find_provider(providers: &[Provider], id: i64) -> (r: Option<usize>)
    ensures
        match r {
            Some(i) => i == provider_index(providers@, id) && i < providers@.len()
                && providers@[i as int].id == id,
            None => provider_index(providers@, id) == providers@.len(),
        },
{
    let mut i: usize = 0;
    while i < providers.len()
        invariant
            i <= providers@.len(),
            forall|j: int| 0 <= j < i ==> providers@[j].id != id,
        decreases providers@.len() - i,
    {
        if providers[i].id == id {
            proof {
                lemma_provider_index(providers@, id, i as int);
            }
            return Some(i);
        }
        i = i + 1;
    }
    proof {
        lemma_provider_index(providers@, id, i as int);
    }
    None
}

/// The primary provider followed by the fallbacks, skipping ids that name
/// no provider and ids already listed; each entry is the first provider
/// record with that id.
pub fn resolve_candidates(providers: &[Provider], provider_id: i64, fallback_ids: &[i64]) -> (r: Vec<Provider>)
    ensures
        r@.len() == candidate_ids(seq![provider_id] + fallback_ids@, providers@).len(),
        forall|i: int|
            0 <= i < r@.len() ==> {
                let id = #[trigger] candidate_ids(seq![provider_id] + fallback_ids@, providers@)[i];
                same_provider(r@[i], providers@[provider_index(providers@, id)])
                    && r@[i].id == id
            },
{
    let mut all: Vec<i64> = Vec::new();
    all.push(provider_id);
    let mut f: usize = 0;
    while f < fallback_ids.len()
        invariant
            f <= fallback_ids@.len(),
            all@ == seq![provider_id] + fallback_ids@.take(f as int),
        decreases fallback_ids@.len() - f,
    {
        all.push(fallback_ids[f]);
        assert(fallback_ids@.take(f + 1) =~= fallback_ids@.take(f as int).push(fallback_ids@[f as int]));
        f = f + 1;
    }
    assert(fallback_ids@.take(fallback_ids@.len() as int) =~= fallback_ids@);
    let ghost ids = all@;
    let mut list: Vec<Provider> = Vec::new();
    let mut k: usize = 0;
    while k < all.len()
        invariant
            k <= all@.len(),
            ids == all@,
            list@.len() == candidate_ids(ids.take(k as int), providers@).len(),
            forall|i: int|
                0 <= i < list@.len() ==> {
                    let id = #[trigger] candidate_ids(ids.take(k as int), providers@)[i];
                    provider_index(providers@, id) < providers@.len()
                        && same_provider(list@[i], providers@[provider_index(providers@, id)])
                        && list@[i].id == id
                },
        decreases all@.len() - k,
    {
        let id = all[k];
        let ghost prev = candidate_ids(ids.take(k as int), providers@);
        proof {
            assert(ids.take(k + 1).drop_last() =~= ids.take(k as int));
            assert(ids.take(k + 1).last() == id);
        }
        match find_provider(providers, id) {
            Some(pi) => {
                let mut dup = false;
                let mut j: usize = 0;
                while j < list.len()
                    invariant
                        j <= list@.len(),
                        list@.len() == prev.len(),
                        forall|q: int| 0 <= q < list@.len() ==> #[trigger] list@[q].id == prev[q],
                        dup == exists|q: int| 0 <= q < j && prev[q] == id,
                    decreases list@.len() - j,
                {
                    if list[j].id == id {
                        dup = true;
                    }
                    j = j + 1;
                }
                assert(dup == prev.contains(id));
                if !dup {
                    let ghost l0 = list@;
                    list.push(clone_provider(&providers[pi]));
                    assert(candidate_ids(ids.take(k + 1), providers@) == prev.push(id));
                    assert forall|i: int| 0 <= i < list@.len() implies {
                        let x = #[trigger] candidate_ids(ids.take(k + 1), providers@)[i];
                        provider_index(providers@, x) < providers@.len()
                            && same_provider(list@[i], providers@[provider_index(providers@, x)])
                            && list@[i].id == x
                    } by {
                        if i < l0.len() {
                            assert(list@[i] == l0[i]);
                            assert(candidate_ids(ids.take(k + 1), providers@)[i] == prev[i]);
                        }
                    }
                } else {
                    assert(candidate_ids(ids.take(k + 1), providers@) == prev);
                }
            },
            None => {
                assert(candidate_ids(ids.take(k + 1), providers@) == prev);
            },
        }
        k = k + 1;
    }
    assert(ids.take(all@.len() as int) =~= ids);
    list
}

} // verus!

verus! {

// ---------------------------------------------------------------------------
// What a merge does to one key
// ---------------------------------------------------------------------------
/// No two fields share a key.
pub open spec fn distinct_keys(fs: Seq<(Seq<char>, JsonV)>) -> bool {
    forall|i: int, j: int| 0 <= i < j < fs.len() ==> fs[i].0 != fs[j].0
}

/// The value a key ends with when a source value `sv` merges over the
/// destination's value `dv`: objects merge recursively, anything else
/// replaces.
pub open spec fn merged_at(dv: Option<JsonV>, sv: JsonV) -> JsonV {
    match dv {
        Some(d) => if is_obj(d) && is_obj(sv) {
            merge_v(d, sv)
        } else {
            sv
        },
        None => sv,
    }
}

/// Key `k` after the merge: left as the destination had it when the
/// source does not set it (or it is managed and skipped); else the merged
/// value.
pub open spec fn merged_key(
    df: Seq<(Seq<char>, JsonV)>,
    sf: Seq<(Seq<char>, JsonV)>,
    skip_managed: bool,
    k: Seq<char>,
) -> Option<JsonV> {
    if (skip_managed && managed_key(k)) || field(sf, k) is None {
        field(df, k)
    } else {
        Some(merged_at(field(df, k), field(sf, k).unwrap()))
    }
}

proof fn lemma_merge_fields_key(
    df: Seq<(Seq<char>, JsonV)>,
    sf: Seq<(Seq<char>, JsonV)>,
    n: int,
    skip_managed: bool,
    k: Seq<char>,
)
    requires
        0 <= n <= sf.len(),
        distinct_keys(sf),
    ensures
        field(merge_fields(df, sf, n, skip_managed), k) == if (skip_managed && managed_key(k))
            || key_index(sf, k) >= n {
            field(df, k)
        } else {
            Some(merged_at(field(df, k), sf[key_index(sf, k)].1))
        },
    decreases n,
{
    crate::json::lemma_key_index_bound(sf, k);
    if n > 0 {
        lemma_merge_fields_key(df, sf, n - 1, skip_managed, k);
        let acc = merge_fields(df, sf, n - 1, skip_managed);
        let kp = sf[n - 1].0;
        let sv = sf[n - 1].1;
        if !(skip_managed && managed_key(kp)) {
            assert forall|j: int| 0 <= j < n - 1 implies sf[j].0 != kp by {}
            crate::json::lemma_key_index(sf, kp, n - 1);
            lemma_merge_fields_key(df, sf, n - 1, skip_managed, kp);
            let val = match field(acc, kp) {
                Some(dv) => if is_obj(dv) && is_obj(sv) {
                    merge_v(dv, sv)
                } else {
                    sv
                },
                None => sv,
            };
            assert(merge_fields(df, sf, n, skip_managed) == set_field(acc, kp, val));
            crate::json::lemma_vget_vset(JsonV::Object(acc), kp, val, k);
            if k == kp {
                assert(key_index(sf, k) == n - 1);
            } else {
                assert(key_index(sf, k) != n - 1);
            }
        } else {
            if k == kp {
                assert forall|j: int| 0 <= j < n - 1 implies sf[j].0 != kp by {}
                crate::json::lemma_key_index(sf, kp, n - 1);
            } else {
                assert(key_index(sf, k) != n - 1);
            }
        }
    }
}

proof fn lemma_merged_key(
    df: Seq<(Seq<char>, JsonV)>,
    sf: Seq<(Seq<char>, JsonV)>,
    skip_managed: bool,
    k: Seq<char>,
)
    requires
        distinct_keys(sf),
    ensures
        field(merge_fields(df, sf, sf.len() as int, skip_managed), k) == merged_key(
            df,
            sf,
            skip_managed,
            k,
        ),
{
    crate::json::lemma_key_index_bound(sf, k);
    lemma_merge_fields_key(df, sf, sf.len() as int, skip_managed, k);
}

/// A route's extra_body merges over its provider's: each key the route
/// sets takes the route's value (objects merge recursively); the other
/// keys keep the provider's value.
pub proof fn law_route_extra_overrides_provider(
    provider_fields: Seq<(Seq<char>, JsonV)>,
    route_fields: Seq<(Seq<char>, JsonV)>,
    k: Seq<char>,
)
    requires
        distinct_keys(route_fields),
    ensures
        vget(merge_v(JsonV::Object(provider_fields), JsonV::Object(route_fields)), k)
            == merged_key(provider_fields, route_fields, false, k),
{
    lemma_merged_key(provider_fields, route_fields, false, k);
}

/// Applying an extra_body to a client body: each key the extra sets
/// overrides the client's value (objects merge recursively), except the
/// gateway-managed `model`, `stream` and `stream_options`; every other
/// client field is kept as it was.
pub proof fn law_extra_body_keeps_client_fields(
    body_fields: Seq<(Seq<char>, JsonV)>,
    extra_fields: Seq<(Seq<char>, JsonV)>,
    k: Seq<char>,
)
    requires
        distinct_keys(extra_fields),
    ensures
        vget(apply_extra_spec(JsonV::Object(body_fields), Some(JsonV::Object(extra_fields))), k)
            == merged_key(body_fields, extra_fields, true, k),
        managed_key(k) ==> vget(
            apply_extra_spec(JsonV::Object(body_fields), Some(JsonV::Object(extra_fields))),
            k,
        ) == field(body_fields, k),
        field(extra_fields, k) is None ==> vget(
            apply_extra_spec(JsonV::Object(body_fields), Some(JsonV::Object(extra_fields))),
            k,
        ) == field(body_fields, k),
{
    lemma_merged_key(body_fields, extra_fields, true, k);
}

} // verus!

verus! {

// ---------------------------------------------------------------------------
// Trying the candidates of a non-streamed request
// ---------------------------------------------------------------------------
/// How many candidates are tried: the configured maximum (at least one),
/// but no more than there are candidates.
pub open spec fn max_attempts_v(candidates: nat, configured: i64) -> nat {
    let m: nat = if configured < 1 { 1 } else { configured as nat };
    if candidates < m { candidates } else { m }
}

pub fn max_attempts(candidates: usize, configured: i64) -> (r: usize)
    ensures
        r as nat == max_attempts_v(candidates as nat, configured),
{
    if configured < 1 {
        if candidates < 1 { candidates } else { 1 }
    } else if (candidates as u64) < (configured as u64) {
        candidates
    } else {
        configured as usize
    }
}

/// What one attempt at a candidate came to.
#[derive(Clone, Copy, Debug, PartialEq, Eq, Structural)]
pub enum AttemptEvent {
    /// The circuit breaker holds the candidate back.
    BreakerOpen,
    /// The provider's key could not be decrypted.
    KeyFailed,
    /// The request could not be sent.
    SendFailed,
    /// A rectification miss whose error body was already read.
    PreRead,
    /// The upstream answered with `status`; `body_read` when its body was
    /// read in full.
    Answered { status: u16, body_read: bool },
}

/// What the breaker learns of the candidate.
#[derive(Clone, Copy, Debug, PartialEq, Eq, Structural)]
pub enum BreakerNote {
    Nothing,
    Failure,
    Success,
}

/// What the loop does next.
#[derive(Clone, Copy, Debug, PartialEq, Eq, Structural)]
pub enum AttemptAction {
    /// Try the next candidate.
    Next,
    /// Answer the client from this candidate's response.
    Answer,
}

/// The loop's memory: candidates tried, the last one that failed, and the
/// status of the last retryable answer (passed on when all fail).
#[derive(Clone, Copy, Debug, PartialEq, Eq, Structural)]
pub struct AttemptState {
    pub tried: usize,
    pub last_failed: Option<usize>,
    pub last_status: Option<u16>,
}

/// One attempt at candidate `i`: a held-back candidate is skipped; a key,
/// send or body-read failure or a retryable status counts as the
/// candidate's failure and moves on (a retryable answer is remembered);
/// anything else is the answer and the candidate is healthy.
pub open spec fn attempt_step_v(s: AttemptState, i: usize, e: AttemptEvent) -> (AttemptState, BreakerNote, AttemptAction) {
    let s1 = AttemptState { tried: (s.tried + 1) as usize, ..s };
    match e {
        AttemptEvent::BreakerOpen => (s1, BreakerNote::Nothing, AttemptAction::Next),
        AttemptEvent::KeyFailed | AttemptEvent::SendFailed => (
            AttemptState { last_failed: Some(i), ..s1 },
            BreakerNote::Failure,
            AttemptAction::Next,
        ),
        AttemptEvent::PreRead => (s1, BreakerNote::Success, AttemptAction::Answer),
        AttemptEvent::Answered { status, body_read } => if retryable(status) {
            (AttemptState { last_failed: Some(i), last_status: Some(status), ..s1 }, BreakerNote::Failure, AttemptAction::Next)
        } else if !body_read {
            (AttemptState { last_failed: Some(i), ..s1 }, BreakerNote::Failure, AttemptAction::Next)
        } else {
            (s1, BreakerNote::Success, AttemptAction::Answer)
        },
    }
}

/// The loop's next state, breaker note and action (see `attempt_step_v`).
pub fn next_attempt(s: AttemptState, i: usize, e: AttemptEvent) -> (r: (AttemptState, BreakerNote, AttemptAction))
    requires
        s.tried < usize::MAX,
    ensures
        r == attempt_step_v(s, i, e),
{
    let s1 = AttemptState { tried: s.tried + 1, last_failed: s.last_failed, last_status: s.last_status };
    match e {
        AttemptEvent::BreakerOpen => (s1, BreakerNote::Nothing, AttemptAction::Next),
        AttemptEvent::KeyFailed | AttemptEvent::SendFailed => (
            AttemptState { tried: s1.tried, last_failed: Some(i), last_status: s1.last_status },
            BreakerNote::Failure,
            AttemptAction::Next,
        ),
        AttemptEvent::PreRead => (s1, BreakerNote::Success, AttemptAction::Answer),
        AttemptEvent::Answered { status, body_read } => if status_retryable(status) {
            (
                AttemptState { tried: s1.tried, last_failed: Some(i), last_status: Some(status) },
                BreakerNote::Failure,
                AttemptAction::Next,
            )
        } else if !body_read {
            (AttemptState { tried: s1.tried, last_failed: Some(i), last_status: s1.last_status }, BreakerNote::Failure, AttemptAction::Next)
        } else {
            (s1, BreakerNote::Success, AttemptAction::Answer)
        },
    }
}

/// Every attempt moves the loop on by one candidate, and the breaker hears
/// a failure exactly when the candidate is remembered as the last one to
/// fail; an answer always comes with a healthy candidate.
pub proof fn law_attempt_step(s: AttemptState, i: usize, e: AttemptEvent)
    requires
        s.tried < usize::MAX,
    ensures
        ({
            let r = attempt_step_v(s, i, e);
            &&& r.0.tried == s.tried + 1
            &&& (r.1 == BreakerNote::Failure <==> (r.0.last_failed == Some(i) && r.2 == AttemptAction::Next && e != AttemptEvent::BreakerOpen))
            &&& (r.2 == AttemptAction::Answer ==> r.1 == BreakerNote::Success)
            &&& (r.1 == BreakerNote::Nothing <==> e == AttemptEvent::BreakerOpen)
        }),
{
}

} // verus!

verus! {

// ---------------------------------------------------------------------------
// Taking a request in
// ---------------------------------------------------------------------------
/// Why a request is refused before routing.
pub enum IntakeError {
    /// The endpoint is switched off (503).
    ServiceUnavailable(String),
    /// The body cannot be used (400).
    BadRequest(String),
}

/// A request body ready for routing.
pub struct Intake {
    pub json: Json,
    /// Roles or tools were rewritten.
    pub rewritten: bool,
    /// The body came with a content coding.
    pub had_content_encoding: bool,
    pub model: String,
    pub streamed: bool,
}

/// The body with hosted tools dropped from `tools`, and whether any was.
pub open spec fn tools_normalized(j: JsonV) -> (JsonV, bool) {
    match vget_arr(j, "tools"@) {
        Some(a) => (crate::json::vset(j, "tools"@, JsonV::Array(kept_tools(a))), kept_tools(a).len() != a.len()),
        None => (j, false),
    }
}

/// The body's normalisations: roles unless it is an Anthropic request,
/// and hosted tools too for a Chat request.
pub open spec fn normalized_body(j: JsonV, responses: bool, anthropic: bool) -> (JsonV, bool) {
    if anthropic {
        (j, false)
    } else {
        let r = roles_normalized(j);
        if responses {
            (r, roles_changed(j))
        } else {
            let t = tools_normalized(r);
            (t.0, roles_changed(j) || t.1)
        }
    }
}

/// Whether a `Content-Encoding` header names a coding: not blank and not
/// `identity` (ASCII case ignored).
pub open spec fn has_coding(ce: Option<Seq<char>>) -> bool {
    match ce {
        Some(v) => trim(v).len() > 0 && !crate::text::eq_ignore_ascii_case(v, "identity"@),
        None => false,
    }
}

pub open spec fn responses_off_message() -> Seq<char> {
    "the Responses API (/v1/responses) is currently disabled by the administrator"@
}

pub open spec fn messages_off_message() -> Seq<char> {
    "the Anthropic Messages API (/v1/messages) is currently disabled by the administrator"@
}

/// Takes a request in: a switched-off endpoint is refused (503); the body
/// is decoded by its `Content-Encoding` and parsed as JSON (400 on
/// failure); roles and tools are normalised; a non-empty `model` string is
/// required (400); `stream` is read as a flag.
pub fn request_intake(
    body: &[u8],
    content_encoding: Option<&str>,
    endpoint: &Endpoint,
    responses_enabled: bool,
    messages_enabled: bool,
) -> (r: Result<Intake, IntakeError>)
    ensures
        endpoint.responses && !responses_enabled ==> (r matches Err(IntakeError::ServiceUnavailable(m)) && m@
            == responses_off_message()),
        !(endpoint.responses && !responses_enabled) && endpoint.anthropic && !messages_enabled ==> (r matches Err(
            IntakeError::ServiceUnavailable(m),
        ) && m@ == messages_off_message()),
        r matches Err(IntakeError::ServiceUnavailable(_)) ==> (endpoint.responses && !responses_enabled) || (
        endpoint.anthropic && !messages_enabled),
        ({
            let ce = match content_encoding {
                Some(c) => Some(c@),
                None => None,
            };
            let d = crate::decode::decompressed(body@, ce);
            match r {
                Ok(i) => {
                    &&& d matches Ok(bytes) && crate::codec::json_parse(bytes) matches Some(j) && ({
                        let n = normalized_body(j, endpoint.responses, endpoint.anthropic);
                        &&& i.json@ == n.0
                        &&& i.rewritten == n.1
                        &&& vget_str(n.0, "model"@) == Some(i.model@)
                        &&& i.model@.len() > 0
                        &&& i.streamed == (vget(n.0, "stream"@) == Some(JsonV::Bool(true)))
                    })
                    &&& i.had_content_encoding == has_coding(ce)
                },
                Err(IntakeError::BadRequest(m)) => {
                    ||| (d matches Err(e) && m@ == e)
                    ||| (crate::text::has_prefix(m@, "zstd decode init failed: "@) && crate::decode::needs_zstd(crate::decode::codings(ce)))
                    ||| (d matches Ok(bytes) && crate::codec::json_parse(bytes) is None && crate::text::has_prefix(m@, "invalid JSON: "@))
                    ||| (d matches Ok(bytes) && crate::codec::json_parse(bytes) matches Some(j) && !(vget_str(
                        normalized_body(j, endpoint.responses, endpoint.anthropic).0,
                        "model"@,
                    ) matches Some(x) && x.len() > 0) && m@ == "missing 'model' field"@)
                },
                Err(IntakeError::ServiceUnavailable(_)) => true,
            }
        }),
{
    if endpoint.responses && !responses_enabled {
        return Err(IntakeError::ServiceUnavailable(crate::text::owned(
            "the Responses API (/v1/responses) is currently disabled by the administrator",
        )));
    }
    if endpoint.anthropic && !messages_enabled {
        return Err(IntakeError::ServiceUnavailable(crate::text::owned(
            "the Anthropic Messages API (/v1/messages) is currently disabled by the administrator",
        )));
    }
    let bytes = match crate::decode::decompress_request_body(body, content_encoding) {
        Ok(b) => b,
        Err(e) => return Err(IntakeError::BadRequest(e)),
    };
    let mut json = match crate::codec::parse_json_detailed(bytes.as_slice()) {
        Ok(j) => j,
        Err(e) => {
            let mut v = chars_of("invalid JSON: ");
            crate::text::push_all(&mut v, chars_of(e.as_str()).as_slice());
            let m = crate::text::string_from(v.as_slice());
            proof {
                reveal_strlit("invalid JSON: ");
                assert(m@.subrange(0, 14) =~= "invalid JSON: "@);
            }
            return Err(IntakeError::BadRequest(m));
        },
    };
    let had_content_encoding = match content_encoding {
        Some(v) => {
            let c = chars_of(v);
            crate::text::trim_chars(c.as_slice()).len() > 0 && !crate::text::eq_ignore_ascii_case_exec(
                c.as_slice(),
                "identity",
            )
        },
        None => false,
    };
    let ghost j0 = json@;
    let mut rewritten = false;
    if !endpoint.anthropic {
        rewritten = normalize_chat_roles(&mut json);
        if !endpoint.responses {
            let t = normalize_tools(&mut json);
            rewritten = rewritten || t;
        }
    }
    assert(json@ == normalized_body(j0, endpoint.responses, endpoint.anthropic).0);
    let model = match json.get_str("model") {
        Some(m) => if m.as_str().is_empty() {
            return Err(IntakeError::BadRequest(crate::text::owned("missing 'model' field")));
        } else {
            m.clone()
        },
        None => return Err(IntakeError::BadRequest(crate::text::owned("missing 'model' field"))),
    };
    let streamed = match json.get("stream") {
        Some(Json::Bool(b)) => *b,
        _ => false,
    };
    Ok(Intake { json, rewritten, had_content_encoding, model, streamed })
}

} // verus!

verus! {

/// The indices of the candidates whose dialect pairing with the endpoint
/// is supported, in order.
pub open spec fn supported_indices(endpoint: Endpoint, ps: Seq<Provider>, k: int) -> Seq<usize>
    decreases k,
{
    if k <= 0 {
        Seq::empty()
    } else {
        let p = supported_indices(endpoint, ps, k - 1);
        if pairing_reason(endpoint.anthropic, endpoint.responses, ps[k - 1].api_type@) is None {
            p.push((k - 1) as usize)
        } else {
            p
        }
    }
}

/// The message refusing a request no candidate can serve: the first
/// candidate's reason (empty without candidates).
pub open spec fn pairing_refusal(endpoint: Endpoint, ps: Seq<Provider>, model: Seq<char>) -> Seq<char> {
    "no provider supports this client/upstream dialect pairing for model '"@ + model + "': "@ + if ps.len() > 0 {
        match pairing_reason(endpoint.anthropic, endpoint.responses, ps[0].api_type@) {
            Some(m) => m,
            None => Seq::empty(),
        }
    } else {
        Seq::empty()
    }
}

/// The candidates that can serve the endpoint's dialect (by index, in
/// order); a request none can serve is refused with the first candidate's
/// reason.
pub fn supported_candidates(endpoint: Endpoint, candidates: &Vec<Provider>, model: &str) -> (r: Result<Vec<usize>, String>)
    ensures
        ({
            let s = supported_indices(endpoint, candidates@, candidates@.len() as int);
            match r {
                Ok(v) => s.len() > 0 && v@ == s,
                Err(e) => s.len() == 0 && e@ == pairing_refusal(endpoint, candidates@, model@),
            }
        }),
{
    let mut out: Vec<usize> = Vec::new();
    let mut i: usize = 0;
    while i < candidates.len()
        invariant
            i <= candidates@.len(),
            out@ == supported_indices(endpoint, candidates@, i as int),
        decreases candidates@.len() - i,
    {
        if pairing_unsupported(endpoint, &candidates[i]).is_none() {
            out.push(i);
        }
        i = i + 1;
    }
    if out.len() > 0 {
        return Ok(out);
    }
    let mut v = chars_of("no provider supports this client/upstream dialect pairing for model '");
    crate::text::push_all(&mut v, chars_of(model).as_slice());
    crate::text::push_str(&mut v, "': ");
    if candidates.len() > 0 {
        match pairing_unsupported(endpoint, &candidates[0]) {
            Some(m) => crate::text::push_all(&mut v, chars_of(m.as_str()).as_slice()),
            None => {},
        }
    }
    assert(v@ =~= pairing_refusal(endpoint, candidates@, model@));
    Err(string_from(v.as_slice()))
}

/// The breaker is consulted inside the loop only when it did not already
/// let every candidate through and there is more than one candidate.
pub fn check_breaker(breaker_bypassed: bool, candidates: usize) -> (r: bool)
    ensures
        r == (!breaker_bypassed && candidates > 1),
{
    !breaker_bypassed && candidates > 1
}

} // verus!

verus! {

// ---------------------------------------------------------------------------
// Candidates a user may use
// ---------------------------------------------------------------------------
/// The user may use the provider for the model (see `user_can_use`).
pub open spec fn can_use_v(access: &crate::routing::UserAccess, user_id: i64, provider_id: i64, model: Seq<char>) -> bool {
    match access.spec_rules(user_id) {
        None => true,
        Some(rules) => rules.len() == 0 || exists|i: int|
            0 <= i < rules.len() && crate::routing::rule_allows(#[trigger] rules[i], provider_id, model),
    }
}

/// The indices of the candidates a caller may use, in order: all of them
/// for a request without a user or from an administrator.
pub open spec fn allowed_indices(
    access: &crate::routing::UserAccess,
    user: Option<i64>,
    is_admin: bool,
    ps: Seq<Provider>,
    model: Seq<char>,
    k: int,
) -> Seq<usize>
    decreases k,
{
    if k <= 0 {
        Seq::empty()
    } else {
        let p = allowed_indices(access, user, is_admin, ps, model, k - 1);
        let ok = match user {
            Some(u) => is_admin || can_use_v(access, u, ps[k - 1].id, model),
            None => true,
        };
        if ok {
            p.push((k - 1) as usize)
        } else {
            p
        }
    }
}

/// The candidates the caller may use (by index, in order); a request left
/// with none is refused as not permitted.
pub fn allowed_candidates(
    access: &crate::routing::UserAccess,
    user: Option<i64>,
    is_admin: bool,
    candidates: &Vec<Provider>,
    model: &str,
) -> (r: Result<Vec<usize>, String>)
    ensures
        ({
            let s = allowed_indices(access, user, is_admin, candidates@, model@, candidates@.len() as int);
            match r {
                Ok(v) => s.len() > 0 && v@ == s,
                Err(e) => s.len() == 0 && e@ == "model '"@ + model@ + "' is not permitted for this user"@,
            }
        }),
{
    let mut out: Vec<usize> = Vec::new();
    let mut i: usize = 0;
    while i < candidates.len()
        invariant
            i <= candidates@.len(),
            out@ == allowed_indices(access, user, is_admin, candidates@, model@, i as int),
        decreases candidates@.len() - i,
    {
        let ok = match user {
            Some(u) => is_admin || crate::routing::user_can_use(access, u, candidates[i].id, model),
            None => true,
        };
        if ok {
            out.push(i);
        }
        i = i + 1;
    }
    if out.len() > 0 {
        return Ok(out);
    }
    let mut v = chars_of("model '");
    crate::text::push_all(&mut v, chars_of(model).as_slice());
    crate::text::push_str(&mut v, "' is not permitted for this user");
    Err(string_from(v.as_slice()))
}

// ---------------------------------------------------------------------------
// The outbound body
// ---------------------------------------------------------------------------
/// The model sent upstream: the route's upstream model, else the client's
/// model without a trailing `[1m]`.
pub open spec fn outbound_model_v(upstream: Option<Seq<char>>, model: Seq<char>) -> Seq<char> {
    match upstream {
        Some(u) => u,
        None => if crate::text::has_suffix(model, "[1m]"@) {
            model.take(model.len() - 4)
        } else {
            model
        },
    }
}

pub fn outbound_model(upstream: Option<&str>, model: &str) -> (r: String)
    ensures
        r@ == outbound_model_v(
            match upstream {
                Some(u) => Some(u@),
                None => None,
            },
            model@,
        ),
{
    match upstream {
        Some(u) => owned(u),
        None => {
            let m = chars_of(model);
            proof {
                reveal_strlit("[1m]");
            }
            if crate::text::ends_with(m.as_slice(), chars_of("[1m]").as_slice()) {
                string_from(crate::text::slice_range(m.as_slice(), 0, m.len() - 4).as_slice())
            } else {
                owned(model)
            }
        },
    }
}

/// The client asks for the long context: either model ends in `[1m]`.
pub fn wants_1m(model: &str, outbound: &str) -> (r: bool)
    ensures
        r == (crate::text::has_suffix(model@, "[1m]"@) || crate::text::has_suffix(outbound@, "[1m]"@)),
{
    crate::text::ends_with(chars_of(model).as_slice(), chars_of("[1m]").as_slice())
        || crate::text::ends_with(chars_of(outbound).as_slice(), chars_of("[1m]").as_slice())
}

/// How the outbound body is made.
#[derive(Clone, Copy, Debug, PartialEq, Eq, Structural)]
pub enum OutboundPlan {
    /// An Anthropic request converted to Chat.
    AnthropicToChat,
    /// A Responses request converted to Chat.
    ResponsesToChat,
    /// A streamed Chat request, always rebuilt.
    StreamedChat,
    /// The client's body, rebuilt.
    Rebuilt,
    /// The client's bytes as they came.
    Passthrough,
}

/// The way the outbound body is made: conversions first; a streamed Chat
/// request is always rebuilt; otherwise the body is rebuilt when anything
/// in it changes (extra body, rewritten roles, a content coding, the
/// system head, another model name, private fields, a plan downgrade) and
/// passed through byte for byte when nothing does.
pub open spec fn outbound_plan_v(
    anthropic_convert: bool,
    responses_convert: bool,
    streamed: bool,
    endpoint: Endpoint,
    changes: bool,
) -> OutboundPlan {
    if anthropic_convert {
        OutboundPlan::AnthropicToChat
    } else if responses_convert {
        OutboundPlan::ResponsesToChat
    } else if streamed && !endpoint.responses && !endpoint.anthropic {
        OutboundPlan::StreamedChat
    } else if changes {
        OutboundPlan::Rebuilt
    } else {
        OutboundPlan::Passthrough
    }
}

pub fn outbound_plan(
    anthropic_convert: bool,
    responses_convert: bool,
    streamed: bool,
    endpoint: Endpoint,
    extra: bool,
    roles_rewritten: bool,
    had_content_encoding: bool,
    system_head: bool,
    model_changed: bool,
    private_fields: bool,
    plan_downgraded: bool,
) -> (r: OutboundPlan)
    ensures
        r == outbound_plan_v(
            anthropic_convert,
            responses_convert,
            streamed,
            endpoint,
            extra || roles_rewritten || had_content_encoding || system_head || model_changed || private_fields
                || plan_downgraded,
        ),
{
    let changes = extra || roles_rewritten || had_content_encoding || system_head || model_changed || private_fields
        || plan_downgraded;
    if anthropic_convert {
        OutboundPlan::AnthropicToChat
    } else if responses_convert {
        OutboundPlan::ResponsesToChat
    } else if streamed && !endpoint.responses && !endpoint.anthropic {
        OutboundPlan::StreamedChat
    } else if changes {
        OutboundPlan::Rebuilt
    } else {
        OutboundPlan::Passthrough
    }
}

// ---------------------------------------------------------------------------
// When every candidate failed
// ---------------------------------------------------------------------------
/// The answer once every candidate of a stream failed without a response
/// to pass on.
#[derive(Clone, Copy, Debug, PartialEq, Eq, Structural)]
pub enum Exhausted {
    /// The last upstream answer is passed on.
    PassOn,
    /// 504: some attempt timed out.
    Timeout,
    /// 502: attempts failed at connection.
    BadGateway,
    /// 503: all attempts failed otherwise.
    Unavailable,
}

/// The last upstream answer when there is one; else a timeout, a failed
/// connection, or plain exhaustion, in that order.
pub fn exhausted_answer(has_last_answer: bool, saw_timeout: bool, saw_connect_error: bool) -> (r: Exhausted)
    ensures
        r == if has_last_answer {
            Exhausted::PassOn
        } else if saw_timeout {
            Exhausted::Timeout
        } else if saw_connect_error {
            Exhausted::BadGateway
        } else {
            Exhausted::Unavailable
        },
{
    if has_last_answer {
        Exhausted::PassOn
    } else if saw_timeout {
        Exhausted::Timeout
    } else if saw_connect_error {
        Exhausted::BadGateway
    } else {
        Exhausted::Unavailable
    }
}

} // verus!

verus! {

// ---------------------------------------------------------------------------
// Usage on a relayed stream
// ---------------------------------------------------------------------------
/// Token usage as a relayed stream reports it.
#[derive(Clone, Copy, Debug, PartialEq, Eq, Structural)]
pub struct SniffUsage {
    pub prompt_tokens: Option<i64>,
    pub completion_tokens: Option<i64>,
    pub input_tokens: Option<i64>,
    pub output_tokens: Option<i64>,
    /// `cache_read_tokens` or `cache_read_input_tokens`.
    pub cache_read_tokens: Option<i64>,
    /// `cache_write_tokens` or `cache_creation_input_tokens`.
    pub cache_write_tokens: Option<i64>,
}

impl SniffUsage {
    /// Input tokens: `prompt_tokens`, else `input_tokens`, else 0.
    pub fn input(&self) -> (r: i64)
        ensures
            r == match self.prompt_tokens {
                Some(x) => x,
                None => match self.input_tokens {
                    Some(y) => y,
                    None => 0,
                },
            },
    {
        match self.prompt_tokens {
            Some(x) => x,
            None => match self.input_tokens {
                Some(y) => y,
                None => 0,
            },
        }
    }

    /// Output tokens: `completion_tokens`, else `output_tokens`, else 0.
    pub fn output(&self) -> (r: i64)
        ensures
            r == match self.completion_tokens {
                Some(x) => x,
                None => match self.output_tokens {
                    Some(y) => y,
                    None => 0,
                },
            },
    {
        match self.completion_tokens {
            Some(x) => x,
            None => match self.output_tokens {
                Some(y) => y,
                None => 0,
            },
        }
    }
}

/// A count field: absent or null is none; an integer that fits in `i64`
/// is its value; anything else makes the usage unreadable.
pub open spec fn count_field(o: JsonV, k: Seq<char>) -> Result<Option<i64>, ()> {
    match vget(o, k) {
        None => Ok(None),
        Some(JsonV::Null) => Ok(None),
        Some(JsonV::Number(crate::json::NumV::PosInt(u))) => if u <= i64::MAX {
            Ok(Some(u as i64))
        } else {
            Err(())
        },
        Some(JsonV::Number(crate::json::NumV::NegInt(i))) => Ok(Some(i)),
        _ => Err(()),
    }
}

/// A count under either of two names (both at once is unreadable).
pub open spec fn aliased_field(o: JsonV, a: Seq<char>, b: Seq<char>) -> Result<Option<i64>, ()> {
    if vget(o, a) is Some && vget(o, b) is Some {
        Err(())
    } else if vget(o, a) is Some {
        count_field(o, a)
    } else {
        count_field(o, b)
    }
}

/// The usage a JSON object states, or none when it is not an object or a
/// count is unreadable.
pub open spec fn usage_from_v(v: JsonV) -> Option<SniffUsage> {
    if !(v is Object) {
        None
    } else {
        match (
            count_field(v, "prompt_tokens"@),
            count_field(v, "completion_tokens"@),
            count_field(v, "input_tokens"@),
            count_field(v, "output_tokens"@),
            aliased_field(v, "cache_read_tokens"@, "cache_read_input_tokens"@),
            aliased_field(v, "cache_write_tokens"@, "cache_creation_input_tokens"@),
        ) {
            (Ok(p), Ok(c), Ok(i), Ok(o), Ok(r), Ok(w)) => Some(
                SniffUsage {
                    prompt_tokens: p,
                    completion_tokens: c,
                    input_tokens: i,
                    output_tokens: o,
                    cache_read_tokens: r,
                    cache_write_tokens: w,
                },
            ),
            _ => None,
        }
    }
}

pub open spec fn usage_at(v: Option<JsonV>) -> Option<SniffUsage> {
    match v {
        Some(x) => usage_from_v(x),
        None => None,
    }
}

/// The usage of one stream payload: top-level `usage`, else
/// `message.usage`, else `response.usage`.
pub open spec fn payload_usage(v: JsonV) -> Option<SniffUsage> {
    match usage_at(vget(v, "usage"@)) {
        Some(u) => Some(u),
        None => match usage_at(match vget(v, "message"@) {
            Some(m) => vget(m, "usage"@),
            None => None,
        }) {
            Some(u) => Some(u),
            None => usage_at(match vget(v, "response"@) {
                Some(r) => vget(r, "usage"@),
                None => None,
            }),
        },
    }
}

/// A terminal Responses event type.
pub open spec fn responses_terminal(t: Option<Seq<char>>) -> bool {
    t == Some("response.completed"@) || t == Some("response.incomplete"@) || t == Some("response.failed"@)
        || t == Some("response.done"@)
}

/// One data payload: `[DONE]` ends the stream; a JSON payload gives the
/// first usage seen and ends the stream when it is a terminal Responses
/// event.
pub open spec fn sniff_data(st: (Option<SniffUsage>, bool), d: Seq<char>) -> (Option<SniffUsage>, bool) {
    if d == "[DONE]"@ {
        (st.0, true)
    } else {
        match crate::codec::json_parse(crate::text::utf8(d)) {
            None => st,
            Some(v) => (
                if st.0 is None { payload_usage(v) } else { st.0 },
                st.1 || responses_terminal(vget_str(v, "type"@)),
            ),
        }
    }
}

pub open spec fn sniff_datas(st: (Option<SniffUsage>, bool), ds: Seq<Seq<char>>) -> (Option<SniffUsage>, bool)
    decreases ds.len(),
{
    if ds.len() == 0 {
        st
    } else {
        sniff_data(sniff_datas(st, ds.drop_last()), ds.last())
    }
}

/// The complete events at the front of `b`, read until one ends the
/// stream, and the bytes left over.
pub open spec fn sniff(b: Seq<u8>, st: (Option<SniffUsage>, bool)) -> ((Option<SniffUsage>, bool), Seq<u8>)
    decreases b.len(),
{
    match crate::sse::event_end(b) {
        Some(k) => if 0 < k <= b.len() {
            let st2 = sniff_datas(st, crate::sse::frame_datas(crate::sse::lines(crate::sse::utf8_lossy(b.take(k)))));
            if st2.1 {
                (st2, b.skip(k))
            } else {
                sniff(b.skip(k), st2)
            }
        } else {
            (st, b)
        },
        None => (st, b),
    }
}

} // verus!

verus! {

fn count_field_exec(o: &Json, k: &str) -> (r: Result<Option<i64>, ()>)
    ensures
        r == count_field(o@, k@),
{
    match o.get(k) {
        None => Ok(None),
        Some(Json::Null) => Ok(None),
        Some(Json::Number(crate::json::JsonNumber::PosInt(u))) => if *u <= i64::MAX as u64 {
            Ok(Some(*u as i64))
        } else {
            Err(())
        },
        Some(Json::Number(crate::json::JsonNumber::NegInt(i))) => Ok(Some(*i)),
        _ => Err(()),
    }
}

fn aliased_field_exec(o: &Json, a: &str, b: &str) -> (r: Result<Option<i64>, ()>)
    ensures
        r == aliased_field(o@, a@, b@),
{
    let ha = o.get(a).is_some();
    let hb = o.get(b).is_some();
    if ha && hb {
        Err(())
    } else if ha {
        count_field_exec(o, a)
    } else {
        count_field_exec(o, b)
    }
}

/// The usage a JSON object states (see `usage_from_v`).
pub fn parse_usage_value(v: &Json) -> (r: Option<SniffUsage>)
    ensures
        r == usage_from_v(v@),
{
    if !v.is_object() {
        return None;
    }
    let p = count_field_exec(v, "prompt_tokens");
    let c = count_field_exec(v, "completion_tokens");
    let i = count_field_exec(v, "input_tokens");
    let o = count_field_exec(v, "output_tokens");
    let r = aliased_field_exec(v, "cache_read_tokens", "cache_read_input_tokens");
    let w = aliased_field_exec(v, "cache_write_tokens", "cache_creation_input_tokens");
    match (p, c, i, o, r, w) {
        (Ok(p), Ok(c), Ok(i), Ok(o), Ok(r), Ok(w)) => Some(
            SniffUsage {
                prompt_tokens: p,
                completion_tokens: c,
                input_tokens: i,
                output_tokens: o,
                cache_read_tokens: r,
                cache_write_tokens: w,
            },
        ),
        _ => None,
    }
}

fn usage_at_exec(v: Option<&Json>) -> (r: Option<SniffUsage>)
    ensures
        r == usage_at(
            match v {
                Some(x) => Some(x@),
                None => None,
            },
        ),
{
    match v {
        Some(x) => parse_usage_value(x),
        None => None,
    }
}

fn payload_usage_exec(v: &Json) -> (r: Option<SniffUsage>)
    ensures
        r == payload_usage(v@),
{
    match usage_at_exec(v.get("usage")) {
        Some(u) => Some(u),
        None => {
            let m = match v.get("message") {
                Some(m) => m.get("usage"),
                None => None,
            };
            match usage_at_exec(m) {
                Some(u) => Some(u),
                None => {
                    let r = match v.get("response") {
                        Some(r) => r.get("usage"),
                        None => None,
                    };
                    usage_at_exec(r)
                },
            }
        },
    }
}

/// The usage of a JSON body's top-level `usage` (none when the body is
/// not JSON or the usage is unreadable).
pub fn parse_usage(body: &[u8]) -> (r: Option<SniffUsage>)
    ensures
        r == match crate::codec::json_parse(body@) {
            Some(v) => usage_at(vget(v, "usage"@)),
            None => None,
        },
{
    match crate::codec::parse_json(body) {
        Some(v) => usage_at_exec(v.get("usage")),
        None => None,
    }
}

fn sniff_data_exec(usage: Option<SniffUsage>, done: bool, d: &[char]) -> (r: (Option<SniffUsage>, bool))
    ensures
        r == sniff_data((usage, done), d@),
{
    if is(d, "[DONE]") {
        return (usage, true);
    }
    let bytes = crate::text::utf8_bytes(d);
    match crate::codec::parse_json(bytes.as_slice()) {
        None => (usage, done),
        Some(v) => {
            let u = if usage.is_none() {
                payload_usage_exec(&v)
            } else {
                usage
            };
            let t = match v.get_str("type") {
                Some(s) => {
                    let c = chars_of(s.as_str());
                    is(c.as_slice(), "response.completed") || is(c.as_slice(), "response.incomplete") || is(
                        c.as_slice(),
                        "response.failed",
                    ) || is(c.as_slice(), "response.done")
                },
                None => false,
            };
            (u, done || t)
        },
    }
}

fn sniff_event(usage: Option<SniffUsage>, done: bool, ev: &[u8]) -> (r: (Option<SniffUsage>, bool))
    ensures
        r == sniff_datas((usage, done), crate::sse::frame_datas(crate::sse::lines(crate::sse::utf8_lossy(ev@)))),
{
    let text = crate::sse::lossy_text(ev);
    let ls = crate::sse::lines_exec(chars_of(text.as_str()).as_slice());
    let ghost lv = crate::sse::lines_view(ls@);
    let mut st: (Option<SniffUsage>, bool) = (usage, done);
    let mut i: usize = 0;
    while i < ls.len()
        invariant
            i <= ls@.len(),
            lv == crate::sse::lines_view(ls@),
            st == sniff_datas((usage, done), crate::sse::frame_datas(lv.take(i as int))),
        decreases ls@.len() - i,
    {
        proof {
            assert(lv.take(i + 1).drop_last() =~= lv.take(i as int));
            assert(lv.take(i + 1).last() == ls@[i as int]@);
        }
        match crate::sse::strip_prefix_trim(ls[i].as_slice(), "data:") {
            Some(d) => {
                let ghost fd = crate::sse::frame_datas(lv.take(i as int));
                st = sniff_data_exec(st.0, st.1, d.as_slice());
                proof {
                    assert(fd.push(d@).drop_last() =~= fd);
                }
            },
            None => {},
        }
        i = i + 1;
    }
    assert(lv.take(ls@.len() as int) =~= lv);
    st
}

} // verus!

verus! {

/// Reads a relayed stream incrementally for its usage: the chunk joins
/// the bytes held from before, complete events are read until one ends
/// the stream (see `sniff`), and the rest waits for the next chunk (an
/// incomplete event over the size cap is dropped). Returns the usage first
/// seen in this chunk and whether the stream ended.
pub fn feed_sse(buf: &mut Vec<u8>, chunk: &[u8]) -> (r: (Option<SniffUsage>, bool))
    ensures
        ({
            let s = sniff(old(buf)@ + chunk@, (None, false));
            &&& r == s.0
            &&& final(buf)@ == if s.1.len() > crate::sse::MAX_PENDING_BYTES {
                Seq::<u8>::empty()
            } else {
                s.1
            }
        }),
{
    let ghost total = buf@ + chunk@;
    let mut i: usize = 0;
    while i < chunk.len()
        invariant
            i <= chunk@.len(),
            buf@ == old(buf)@ + chunk@.take(i as int),
        decreases chunk@.len() - i,
    {
        buf.push(chunk[i]);
        i = i + 1;
        assert(buf@ =~= old(buf)@ + chunk@.take(i as int));
    }
    assert(chunk@.take(chunk@.len() as int) =~= chunk@);
    let mut st: (Option<SniffUsage>, bool) = (None, false);
    loop
        invariant_except_break
            !st.1,
            sniff(buf@, st) == sniff(total, (None, false)),
        ensures
            st == sniff(total, (None, false)).0,
            buf@ == sniff(total, (None, false)).1,
        decreases buf@.len(),
    {
        let ghost b = buf@;
        proof {
            crate::sse::lemma_event_end_bound(b);
        }
        let idx = match crate::sse::find_event_end(buf.as_slice()) {
            Some(k) => k,
            None => break,
        };
        let mut ev: Vec<u8> = Vec::new();
        let mut j: usize = 0;
        while j < idx
            invariant
                j <= idx <= buf@.len(),
                ev@ == buf@.take(j as int),
            decreases idx - j,
        {
            ev.push(buf[j]);
            j = j + 1;
            assert(ev@ =~= buf@.take(j as int));
        }
        let mut rest: Vec<u8> = Vec::new();
        let mut j: usize = idx;
        while j < buf.len()
            invariant
                idx <= j <= buf@.len(),
                rest@ == buf@.subrange(idx as int, j as int),
            decreases buf@.len() - j,
        {
            rest.push(buf[j]);
            j = j + 1;
            assert(rest@ =~= buf@.subrange(idx as int, j as int));
        }
        assert(rest@ =~= b.skip(idx as int));
        *buf = rest;
        st = sniff_event(st.0, st.1, ev.as_slice());
        if st.1 {
            break;
        }
    }
    if buf.len() > crate::sse::MAX_PENDING_BYTES {
        buf.clear();
    }
    st
}

} // verus!
