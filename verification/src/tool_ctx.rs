//! The tool context of a Responses request: which chat tool name stands for
//! which declared tool (plain function, custom tool, function inside a
//! namespace, the tool-search proxy), so that the response side can restore
//! the item a client expects.
use vstd::prelude::*;
use vstd::hash_map::StringHashMap;

use crate::json::{elems_view, vget, vget_arr, vget_str, Json, JsonV};
use crate::text::{
    chars_of, char_utf8_len, char_utf8_len_exec, concat, hex, hex_exec, owned, push_str, seq_eq,
    string_from, has_prefix, trim, trim_chars, utf8, utf8_bytes, utf8_len,
};

verus! {

/// Longest chat tool name, in bytes.
pub const CHAT_TOOL_NAME_MAX_LEN: usize = 64;

// ---------------------------------------------------------------------------
// Namespace flattening
// ---------------------------------------------------------------------------
/// Name for the SHA-256 digest of a byte string.
pub uninterp spec fn sha256_digest(b: Seq<u8>) -> Seq<u8>;

/// Calls `sha2::Sha256::digest`: the 32-byte SHA-256 digest of the input.
#[verifier::external_body]
pub(crate) fn sha256(b: &[u8]) -> (r: Vec<u8>)
    ensures
        r@ == sha256_digest(b@),
        r@.len() == 32,
{
    <sha2::Sha256 as sha2::Digest>::digest(b).to_vec()
}

/// Number of leading characters of `s` whose UTF-8 bytes fit in `budget`.
pub open spec fn fit_count(s: Seq<char>, budget: int) -> nat
    decreases s.len(),
{
    if s.len() == 0 || char_utf8_len(s[0]) > budget {
        0
    } else {
        1 + fit_count(s.drop_first(), budget - char_utf8_len(s[0]))
    }
}

/// At most the first 8 bytes.
pub open spec fn first8(d: Seq<u8>) -> Seq<u8> {
    if d.len() <= 8 {
        d
    } else {
        d.take(8)
    }
}

/// Chat name of tool `name` inside namespace `ns`: `ns__name`; when that
/// is longer than 64 bytes, its longest character prefix that leaves room
/// for `__` and the first 8 bytes of its SHA-256 digest in hex.
pub open spec fn flat_name(ns: Seq<char>, name: Seq<char>) -> Seq<char> {
    let full = ns + "__"@ + name;
    if utf8_len(full) <= 64 {
        full
    } else {
        let suffix = "__"@ + hex(first8(sha256_digest(utf8(full))));
        full.take(fit_count(full, 64 - suffix.len()) as int) + suffix
    }
}

proof fn lemma_fit_count(s: Seq<char>, budget: int, k: int)
    requires
        0 <= k <= s.len(),
        utf8_len(s.take(k)) <= budget,
        k == s.len() || utf8_len(s.take(k)) + char_utf8_len(s[k]) > budget,
    ensures
        fit_count(s, budget) == k,
    decreases k,
{
    lemma_utf8_len_first(s.take(k));
    if k > 0 {
        let t = s.drop_first();
        assert(s.take(k).drop_first() =~= t.take(k - 1));
        if k - 1 < t.len() {
            assert(t[k - 1] == s[k]);
            lemma_utf8_len_first(s.take(k + 1));
            assert(s.take(k + 1).drop_first() =~= t.take(k));
            assert(s.take(k + 1)[0] == s[0]);
        }
        assert(s.take(k)[0] == s[0]);
        lemma_fit_count(t, budget - char_utf8_len(s[0]), k - 1);
    } else {
        if s.len() > 0 {
            assert(s.take(1) =~= seq![s[0]]);
            assert(s.take(1).drop_last() =~= Seq::<char>::empty());
        }
    }
}

proof fn lemma_utf8_len_first(s: Seq<char>)
    ensures
        s.len() > 0 ==> utf8_len(s) == char_utf8_len(s[0]) + utf8_len(s.drop_first()),
    decreases s.len(),
{
    if s.len() > 1 {
        lemma_utf8_len_first(s.drop_last());
        assert(s.drop_last().drop_first() =~= s.drop_first().drop_last());
        assert(s.drop_last()[0] == s[0]);
    } else if s.len() == 1 {
        assert(s.drop_first() =~= Seq::<char>::empty());
        assert(s.drop_last() =~= Seq::<char>::empty());
    }
}

proof fn lemma_utf8_len_push(s: Seq<char>, c: char)
    ensures
        utf8_len(s.push(c)) == utf8_len(s) + char_utf8_len(c),
{
    assert(s.push(c).drop_last() =~= s);
}

proof fn lemma_utf8_len_append(a: Seq<char>, b: Seq<char>)
    ensures
        utf8_len(a + b) == utf8_len(a) + utf8_len(b),
    decreases b.len(),
{
    if b.len() > 0 {
        lemma_utf8_len_append(a, b.drop_last());
        assert((a + b).drop_last() =~= a + b.drop_last());
    } else {
        assert(a + b =~= a);
    }
}

proof fn lemma_ascii_utf8_len(s: Seq<char>)
    requires
        forall|i: int| 0 <= i < s.len() ==> (#[trigger] s[i] as u32) < 0x80,
    ensures
        utf8_len(s) == s.len(),
    decreases s.len(),
{
    if s.len() > 0 {
        lemma_ascii_utf8_len(s.drop_last());
    }
}

/// The first 8 bytes of the SHA-256 digest of `bytes`, in lowercase hex.
pub fn short_sha256_hex(bytes: &[u8]) -> (r: String)
    ensures
        r@ == hex(first8(sha256_digest(bytes@))),
        r@.len() == 16,
        forall|i: int| 0 <= i < r@.len() ==> is_lower_hex(#[trigger] r@[i]),
{
    let digest = sha256(bytes);
    let mut head: Vec<u8> = Vec::new();
    let mut k: usize = 0;
    while k < 8
        invariant
            k <= 8,
            digest@.len() == 32,
            head@ == digest@.take(k as int),
        decreases 8 - k,
    {
        head.push(digest[k]);
        k = k + 1;
        assert(head@ =~= digest@.take(k as int));
    }
    assert(first8(digest@) == head@);
    proof {
        lemma_hex_lower(head@);
        lemma_hex_ascii(head@);
    }
    string_from(hex_exec(head.as_slice()).as_slice())
}

/// A lowercase hexadecimal digit.
pub open spec fn is_lower_hex(c: char) -> bool {
    ('0' <= c && c <= '9') || ('a' <= c && c <= 'f')
}

/// The shape of a shortened name: a prefix of the full name, then `__`
/// and 16 lowercase hex digits.
pub open spec fn shortened_from(r: Seq<char>, full: Seq<char>) -> bool {
    &&& r.len() >= 18
    &&& has_prefix(full, r.take(r.len() - 18))
    &&& r.subrange(r.len() - 18, r.len() - 16) == "__"@
    &&& forall|i: int| r.len() - 16 <= i < r.len() ==> is_lower_hex(#[trigger] r[i])
}

proof fn lemma_hex_lower(b: Seq<u8>)
    ensures
        forall|i: int| 0 <= i < hex(b).len() ==> is_lower_hex(#[trigger] hex(b)[i]),
    decreases b.len(),
{
    if b.len() > 0 {
        lemma_hex_lower(b.drop_last());
        lemma_hex_ascii(b.drop_last());
        let h = hex(b);
        let p = hex(b.drop_last());
        assert forall|i: int| 0 <= i < h.len() implies is_lower_hex(#[trigger] h[i]) by {
            if i < p.len() {
                assert(h[i] == p[i]);
            }
        }
    }
}

/// Chat name of a namespaced tool (see `flat_name`): `ns__name` when it
/// fits in 64 bytes; otherwise a prefix of it, `__` and 16 lowercase hex
/// digits, within 64 bytes.
pub fn flatten_namespace_tool_name(namespace: &str, name: &str) -> (r: String)
    ensures
        r@ == flat_name(namespace@, name@),
        utf8_len(namespace@ + "__"@ + name@) <= 64 ==> r@ == namespace@ + "__"@ + name@,
        utf8_len(namespace@ + "__"@ + name@) > 64 ==> shortened_from(r@, namespace@ + "__"@ + name@),
        utf8_len(r@) <= 64,
{
    proof {
        law_flat_name_fits(namespace@, name@);
    }
    let mut full = chars_of(namespace);
    push_str(&mut full, "__");
    let nm = chars_of(name);
    let full = concat(full.as_slice(), nm.as_slice());
    let bytes = utf8_bytes(full.as_slice());
    proof {
        crate::text::lemma_utf8_len(full@);
    }
    if bytes.len() <= CHAT_TOOL_NAME_MAX_LEN {
        return string_from(full.as_slice());
    }
    let short = short_sha256_hex(bytes.as_slice());
    let mut suffix: Vec<char> = Vec::new();
    push_str(&mut suffix, "__");
    let hx = chars_of(short.as_str());
    let suffix = concat(suffix.as_slice(), hx.as_slice());
    proof {
        reveal_strlit("__");
        lemma_hex_ascii(first8(sha256_digest(bytes@)));
    }
    let budget: usize = CHAT_TOOL_NAME_MAX_LEN - suffix.len();
    let mut used: usize = 0;
    let mut i: usize = 0;
    let mut stop = false;
    while i < full.len() && !stop
        invariant
            i <= full@.len(),
            budget <= 64,
            used == utf8_len(full@.take(i as int)),
            used <= budget,
            stop ==> i < full@.len() && used + char_utf8_len(full@[i as int]) > budget,
        decreases full@.len() - i, if stop { 0int } else { 1int },
    {
        let l = char_utf8_len_exec(full[i]);
        if used + l > budget {
            stop = true;
        } else {
            proof {
                assert(full@.take(i + 1) =~= full@.take(i as int).push(full@[i as int]));
                lemma_utf8_len_push(full@.take(i as int), full@[i as int]);
            }
            used = used + l;
            i = i + 1;
        }
    }
    proof {
        lemma_fit_count(full@, budget as int, i as int);
    }
    let prefix = crate::text::slice_range(full.as_slice(), 0, i);
    let out = concat(prefix.as_slice(), suffix.as_slice());
    proof {
        let o = out@;
        assert(o.len() == i + 18);
        assert(o.take(o.len() - 18) =~= full@.take(i as int));
        assert(full@.subrange(0, i as int) =~= full@.take(i as int));
        assert(o.subrange(o.len() - 18, o.len() - 16) =~= "__"@);
        assert forall|k: int| o.len() - 16 <= k < o.len() implies is_lower_hex(#[trigger] o[k]) by {
            assert(o[k] == hx@[k - i - 2]);
        }
    }
    string_from(out.as_slice())
}

/// A flattened name never exceeds the chat limit of 64 bytes.
pub proof fn law_flat_name_fits(ns: Seq<char>, name: Seq<char>)
    ensures
        utf8_len(flat_name(ns, name)) <= 64,
{
    let full = ns + "__"@ + name;
    if utf8_len(full) > 64 {
        let d = first8(sha256_digest(utf8(full)));
        let suffix = "__"@ + hex(d);
        lemma_hex_ascii(d);
        reveal_strlit("__");
        assert forall|i: int| 0 <= i < suffix.len() implies (#[trigger] suffix[i] as u32) < 0x80 by {
            if i >= 2 {
                assert(suffix[i] == hex(d)[i - 2]);
            }
        }
        lemma_ascii_utf8_len(suffix);
        let k = fit_count(full, 64 - suffix.len());
        lemma_fit_count_fits(full, 64 - suffix.len());
        lemma_utf8_len_append(full.take(k as int), suffix);
    }
}

proof fn lemma_hex_ascii(b: Seq<u8>)
    ensures
        hex(b).len() == 2 * b.len(),
        forall|i: int| 0 <= i < hex(b).len() ==> (#[trigger] hex(b)[i] as u32) < 0x80,
    decreases b.len(),
{
    if b.len() > 0 {
        lemma_hex_ascii(b.drop_last());
    }
}

proof fn lemma_fit_count_fits(s: Seq<char>, budget: int)
    ensures
        fit_count(s, budget) <= s.len(),
        budget >= 0 ==> utf8_len(s.take(fit_count(s, budget) as int)) <= budget,
    decreases s.len(),
{
    if !(s.len() == 0 || char_utf8_len(s[0]) > budget) {
        let t = s.drop_first();
        lemma_fit_count_fits(t, budget - char_utf8_len(s[0]));
        let k = fit_count(s, budget) as int;
        lemma_utf8_len_first(s.take(k));
        assert(s.take(k).drop_first() =~= t.take(k - 1));
        assert(s.take(k)[0] == s[0]);
    } else {
        assert(s.take(0) =~= Seq::<char>::empty());
    }
}

// ---------------------------------------------------------------------------
// The context
// ---------------------------------------------------------------------------
#[derive(Clone, Copy, PartialEq, Eq, Structural)]
pub enum ToolKind {
    /// A plain function tool: its chat name is its name.
    Function,
    /// A custom tool, sent as a function and restored as a custom call.
    Custom,
    /// A function inside a namespace: its chat name is flattened.
    Namespace,
    /// The tool-search proxy, restored as a tool-search call.
    ToolSearch,
}

/// A declared tool behind a chat name.
pub struct ToolSpec {
    pub kind: ToolKind,
    /// The tool's own name (inside its namespace for a namespaced tool).
    pub name: String,
    pub namespace: Option<String>,
}

pub struct ToolSpecV {
    pub kind: ToolKind,
    pub name: Seq<char>,
    pub namespace: Option<Seq<char>>,
}

impl View for ToolSpec {
    type V = ToolSpecV;

    open spec fn view(&self) -> ToolSpecV {
        ToolSpecV {
            kind: self.kind,
            name: self.name@,
            namespace: match self.namespace {
                Some(s) => Some(s@),
                None => None,
            },
        }
    }
}

/// What a tool context holds: chat name → tool, the chat name registered
/// for each (namespace, name), and whether hosted web search is bridged.
pub struct CtxV {
    pub specs: Map<Seq<char>, ToolSpecV>,
    pub ns: Seq<(Seq<char>, Seq<char>, Seq<char>)>,
    pub bridges_web_search: bool,
}

/// The chat name registered for `(namespace, name)`.
pub open spec fn ns_get(ns: Seq<(Seq<char>, Seq<char>, Seq<char>)>, n: Seq<char>, m: Seq<char>) -> Option<
    Seq<char>,
>
    decreases ns.len(),
{
    if ns.len() == 0 {
        None
    } else if ns[0].0 == n && ns[0].1 == m {
        Some(ns[0].2)
    } else {
        ns_get(ns.drop_first(), n, m)
    }
}

/// `ns` with `(n, m)` registered as `chat` (replacing an earlier entry).
pub open spec fn ns_put(
    ns: Seq<(Seq<char>, Seq<char>, Seq<char>)>,
    n: Seq<char>,
    m: Seq<char>,
    chat: Seq<char>,
) -> Seq<(Seq<char>, Seq<char>, Seq<char>)>
    decreases ns.len(),
{
    if ns.len() == 0 {
        seq![(n, m, chat)]
    } else if ns[0].0 == n && ns[0].1 == m {
        ns.update(0, (n, m, chat))
    } else {
        seq![ns[0]] + ns_put(ns.drop_first(), n, m, chat)
    }
}

pub open spec fn empty_ctx() -> CtxV {
    CtxV { specs: Map::empty(), ns: Seq::empty(), bridges_web_search: false }
}

/// Registers `chat` for `spec` unless the name is blank or taken.
pub open spec fn add_chat_v(c: CtxV, chat: Seq<char>, spec: ToolSpecV) -> CtxV {
    if trim(chat).len() == 0 || c.specs.contains_key(chat) {
        c
    } else {
        CtxV {
            specs: c.specs.insert(chat, spec),
            ns: match spec.namespace {
                Some(n) => ns_put(c.ns, n, spec.name, chat),
                None => c.ns,
            },
            bridges_web_search: c.bridges_web_search,
        }
    }
}

/// A tool's name: `function.name` when `function` has a `name`, else the
/// top-level `name`; a string, trimmed, not empty.
pub open spec fn tool_name_v(tool: JsonV) -> Option<Seq<char>> {
    let v = match vget(tool, "function"@) {
        Some(f) => match vget(f, "name"@) {
            Some(n) => Some(n),
            None => vget(tool, "name"@),
        },
        None => vget(tool, "name"@),
    };
    match v {
        Some(JsonV::Str(s)) => if trim(s).len() > 0 {
            Some(trim(s))
        } else {
            None
        },
        _ => None,
    }
}

pub open spec fn add_function_v(c: CtxV, tool: JsonV, ns: Option<Seq<char>>) -> CtxV {
    match tool_name_v(tool) {
        Some(n) => add_chat_v(
            c,
            match ns {
                Some(x) => flat_name(x, n),
                None => n,
            },
            ToolSpecV {
                kind: if ns is Some {
                    ToolKind::Namespace
                } else {
                    ToolKind::Function
                },
                name: n,
                namespace: ns,
            },
        ),
        None => c,
    }
}

pub open spec fn add_custom_v(c: CtxV, name: Seq<char>) -> CtxV {
    add_chat_v(c, name, ToolSpecV { kind: ToolKind::Custom, name, namespace: None })
}

pub open spec fn add_tool_search_v(c: CtxV) -> CtxV {
    add_chat_v(
        c,
        "tool_search"@,
        ToolSpecV { kind: ToolKind::ToolSearch, name: "tool_search"@, namespace: None },
    )
}

/// The first `k` children of a namespace that are function tools, added.
pub open spec fn add_children_v(c: CtxV, children: Seq<JsonV>, ns: Seq<char>, k: int) -> CtxV
    decreases k,
{
    if k <= 0 || k > children.len() {
        c
    } else {
        let c1 = add_children_v(c, children, ns, k - 1);
        if vget_str(children[k - 1], "type"@) == Some("function"@) {
            add_function_v(c1, children[k - 1], Some(ns))
        } else {
            c1
        }
    }
}

/// A namespace tool: its `tools` (or, without them, `children`) array.
pub open spec fn ns_children(tool: JsonV) -> Option<Seq<JsonV>> {
    match vget(tool, "tools"@) {
        Some(JsonV::Array(a)) => Some(a),
        Some(_) => None,
        None => vget_arr(tool, "children"@),
    }
}

pub open spec fn add_namespace_v(c: CtxV, tool: JsonV) -> CtxV {
    match vget_str(tool, "name"@) {
        Some(ns) => match ns_children(tool) {
            Some(ch) => add_children_v(c, ch, ns, ch.len() as int),
            None => c,
        },
        None => c,
    }
}

/// One declared tool: a bare string is a custom tool; an object by its
/// `type` (`function`, `custom`, `tool_search`, `namespace`, `web_search`).
pub open spec fn add_response_tool_v(c: CtxV, tool: JsonV) -> CtxV {
    match tool {
        JsonV::Str(s) => if trim(s).len() > 0 {
            add_custom_v(c, trim(s))
        } else {
            c
        },
        JsonV::Object(_) => {
            let t = vget_str(tool, "type"@);
            if t == Some("function"@) {
                add_function_v(c, tool, None)
            } else if t == Some("custom"@) {
                match tool_name_v(tool) {
                    Some(n) => add_custom_v(c, n),
                    None => c,
                }
            } else if t == Some("tool_search"@) {
                add_tool_search_v(c)
            } else if t == Some("namespace"@) {
                add_namespace_v(c, tool)
            } else if t == Some("web_search"@) {
                CtxV { bridges_web_search: true, ..c }
            } else {
                c
            }
        },
        _ => c,
    }
}

/// The first `k` tools of a list, added in order.
pub open spec fn add_tools_v(c: CtxV, tools: Seq<JsonV>, k: int) -> CtxV
    decreases k,
{
    if k <= 0 || k > tools.len() {
        c
    } else {
        add_response_tool_v(add_tools_v(c, tools, k - 1), tools[k - 1])
    }
}

/// Tools carried by `tool_search_output` items anywhere in `v`, added in
/// document order (an item's own tools before the values inside it).
pub open spec fn collect_v(c: CtxV, v: JsonV) -> CtxV
    decreases v, 1nat,
{
    match v {
        JsonV::Array(items) => collect_items_v(c, items, items.len() as int),
        JsonV::Object(fs) => {
            let c1 = if vget_str(v, "type"@) == Some("tool_search_output"@) {
                match vget_arr(v, "tools"@) {
                    Some(ts) => add_tools_v(c, ts, ts.len() as int),
                    None => c,
                }
            } else {
                c
            };
            collect_fields_v(c1, fs, fs.len() as int)
        },
        _ => c,
    }
}

pub open spec fn collect_items_v(c: CtxV, items: Seq<JsonV>, k: int) -> CtxV
    decreases items, 0nat, k,
{
    if k <= 0 || k > items.len() {
        c
    } else {
        collect_v(collect_items_v(c, items, k - 1), items[k - 1])
    }
}

pub open spec fn collect_fields_v(c: CtxV, fs: Seq<(Seq<char>, JsonV)>, k: int) -> CtxV
    decreases fs, 0nat, k,
{
    if k <= 0 || k > fs.len() {
        c
    } else {
        collect_v(collect_fields_v(c, fs, k - 1), fs[k - 1].1)
    }
}

/// The context of a Responses request: its `tools`, then the tools that
/// `tool_search_output` items of its `input` carry.
pub open spec fn request_ctx(req: JsonV) -> CtxV {
    let c1 = match vget_arr(req, "tools"@) {
        Some(ts) => add_tools_v(empty_ctx(), ts, ts.len() as int),
        None => empty_ctx(),
    };
    match vget(req, "input"@) {
        Some(i) => collect_v(c1, i),
        None => c1,
    }
}

/// Chat name → declared tool for one request.
pub struct ToolContext {
    specs: StringHashMap<ToolSpec>,
    ns_lookup: Vec<(String, String, String)>,
    /// The request declared hosted web search (bridged to a function).
    pub bridges_web_search: bool,
}

pub open spec fn ns_view(v: Seq<(String, String, String)>) -> Seq<(Seq<char>, Seq<char>, Seq<char>)> {
    v.map_values(|e: (String, String, String)| (e.0@, e.1@, e.2@))
}

/// Chat name of a tool with an optional namespace: the name itself
/// without a (non-empty) namespace; else the name registered for the pair,
/// or the flattened name.
pub open spec fn chat_name_of(c: CtxV, name: Seq<char>, namespace: Option<Seq<char>>) -> Seq<char> {
    match namespace {
        Some(ns) => if ns.len() > 0 {
            match ns_get(c.ns, ns, name) {
                Some(x) => x,
                None => flat_name(ns, name),
            }
        } else {
            name
        },
        None => name,
    }
}

impl View for ToolContext {
    type V = CtxV;

    closed spec fn view(&self) -> CtxV {
        CtxV {
            specs: self.specs@.map_values(|s: ToolSpec| s@),
            ns: ns_view(self.ns_lookup@),
            bridges_web_search: self.bridges_web_search,
        }
    }
}

fn ns_find(ns: &Vec<(String, String, String)>, n: &str, m: &str) -> (r: Option<usize>)
    ensures
        r matches Some(i) ==> i < ns@.len() && ns_get(ns_view(ns@), n@, m@) == Some(ns@[i as int].2@)
            && ns@[i as int].0@ == n@ && ns@[i as int].1@ == m@ && forall|j: int|
            0 <= j < i ==> !(ns@[j].0@ == n@ && ns@[j].1@ == m@),
        r is None ==> ns_get(ns_view(ns@), n@, m@) is None,
{
    let nc = chars_of(n);
    let mc = chars_of(m);
    let ghost v = ns_view(ns@);
    let mut i: usize = 0;
    assert(v.skip(0) =~= v);
    while i < ns.len()
        invariant
            i <= ns@.len(),
            v == ns_view(ns@),
            nc@ == n@,
            mc@ == m@,
            ns_get(v, n@, m@) == ns_get(v.skip(i as int), n@, m@),
            forall|j: int| 0 <= j < i ==> !(ns@[j].0@ == n@ && ns@[j].1@ == m@),
        decreases ns@.len() - i,
    {
        let ghost t = v.skip(i as int);
        assert(t[0] == (ns@[i as int].0@, ns@[i as int].1@, ns@[i as int].2@));
        if seq_eq(chars_of(ns[i].0.as_str()).as_slice(), nc.as_slice()) && seq_eq(
            chars_of(ns[i].1.as_str()).as_slice(),
            mc.as_slice(),
        ) {
            return Some(i);
        }
        assert(t.drop_first() =~= v.skip(i + 1));
        i = i + 1;
    }
    proof {
        assert(v.skip(i as int).len() == 0);
    }
    None
}

proof fn lemma_ns_put_at(
    ns: Seq<(Seq<char>, Seq<char>, Seq<char>)>,
    n: Seq<char>,
    m: Seq<char>,
    chat: Seq<char>,
    i: int,
)
    requires
        0 <= i < ns.len(),
        ns[i].0 == n && ns[i].1 == m,
        forall|j: int| 0 <= j < i ==> !(ns[j].0 == n && ns[j].1 == m),
    ensures
        ns_put(ns, n, m, chat) == ns.update(i, (n, m, chat)),
    decreases i,
{
    if i > 0 {
        let t = ns.drop_first();
        assert forall|j: int| 0 <= j < i - 1 implies !(t[j].0 == n && t[j].1 == m) by {
            assert(t[j] == ns[j + 1]);
        }
        lemma_ns_put_at(t, n, m, chat, i - 1);
        assert(seq![ns[0]] + t.update(i - 1, (n, m, chat)) =~= ns.update(i, (n, m, chat)));
    }
}

proof fn lemma_ns_put_absent(
    ns: Seq<(Seq<char>, Seq<char>, Seq<char>)>,
    n: Seq<char>,
    m: Seq<char>,
    chat: Seq<char>,
)
    requires
        forall|j: int| 0 <= j < ns.len() ==> !(ns[j].0 == n && ns[j].1 == m),
    ensures
        ns_put(ns, n, m, chat) == ns.push((n, m, chat)),
    decreases ns.len(),
{
    if ns.len() > 0 {
        let t = ns.drop_first();
        assert forall|j: int| 0 <= j < t.len() implies !(t[j].0 == n && t[j].1 == m) by {
            assert(t[j] == ns[j + 1]);
        }
        lemma_ns_put_absent(t, n, m, chat);
        assert(seq![ns[0]] + t.push((n, m, chat)) =~= ns.push((n, m, chat)));
        assert(!(ns[0].0 == n && ns[0].1 == m));
    } else {
        assert(seq![(n, m, chat)] =~= ns.push((n, m, chat)));
    }
}

impl ToolContext {
    pub fn new() -> (c: Self)
        ensures
            c@ == empty_ctx(),
    {
        let c = ToolContext {
            specs: StringHashMap::new(),
            ns_lookup: Vec::new(),
            bridges_web_search: false,
        };
        assert(c@.specs =~= Map::<Seq<char>, ToolSpecV>::empty());
        assert(c@.ns =~= Seq::<(Seq<char>, Seq<char>, Seq<char>)>::empty());
        c
    }

    /// Whether the request declared hosted web search.
    pub fn bridges_web(&self) -> (r: bool)
        ensures
            r == self@.bridges_web_search,
    {
        self.bridges_web_search
    }

    /// The tool behind a chat name.
    pub fn lookup(&self, chat_name: &str) -> (r: Option<&ToolSpec>)
        ensures
            r matches Some(s) ==> self@.specs.contains_key(chat_name@) && self@.specs[chat_name@]
                == s@,
            r is None ==> !self@.specs.contains_key(chat_name@),
    {
        self.specs.get(chat_name)
    }

    /// Whether the chat name stands for a custom tool.
    pub fn is_custom(&self, chat_name: &str) -> (r: bool)
        ensures
            r == (self@.specs.contains_key(chat_name@) && self@.specs[chat_name@].kind
                == ToolKind::Custom),
    {
        match self.lookup(chat_name) {
            Some(s) => s.kind == ToolKind::Custom,
            None => false,
        }
    }

    /// Chat name of a tool (with its namespace, when it has a non-empty
    /// one): the registered name, else the flattened name.
    pub fn chat_name_for(&self, name: &str, namespace: Option<&str>) -> (r: String)
        ensures
            r@ == chat_name_of(
                self@,
                name@,
                match namespace {
                    Some(ns) => Some(ns@),
                    None => None,
                },
            ),
    {
        match namespace {
            Some(ns) => {
                if chars_of(ns).len() > 0 {
                    match ns_find(&self.ns_lookup, ns, name) {
                        Some(i) => self.ns_lookup[i].2.clone(),
                        None => flatten_namespace_tool_name(ns, name),
                    }
                } else {
                    owned(name)
                }
            },
            None => owned(name),
        }
    }

    fn add_chat_tool(&mut self, chat_name: String, spec: ToolSpec)
        ensures
            final(self)@ == add_chat_v(old(self)@, chat_name@, spec@),
    {
        if trim_chars(chars_of(chat_name.as_str()).as_slice()).len() == 0 || self.specs.contains_key(
            chat_name.as_str(),
        ) {
            return;
        }
        let ghost c0 = self@;
        match &spec.namespace {
            Some(ns) => {
                let ghost v0 = ns_view(self.ns_lookup@);
                match ns_find(&self.ns_lookup, ns.as_str(), spec.name.as_str()) {
                    Some(i) => {
                        proof {
                            lemma_ns_put_at(v0, ns@, spec.name@, chat_name@, i as int);
                        }
                        self.ns_lookup.set(i, (ns.clone(), spec.name.clone(), chat_name.clone()));
                        assert(ns_view(self.ns_lookup@) =~= v0.update(
                            i as int,
                            (ns@, spec.name@, chat_name@),
                        ));
                    },
                    None => {
                        proof {
                            assert forall|j: int| 0 <= j < v0.len() implies !(v0[j].0 == ns@
                                && v0[j].1 == spec.name@) by {
                                if v0[j].0 == ns@ && v0[j].1 == spec.name@ {
                                    assert(ns_get(v0, ns@, spec.name@) is Some) by {
                                        lemma_ns_get_found(v0, ns@, spec.name@, j);
                                    }
                                }
                            }
                            lemma_ns_put_absent(v0, ns@, spec.name@, chat_name@);
                        }
                        self.ns_lookup.push((ns.clone(), spec.name.clone(), chat_name.clone()));
                        assert(ns_view(self.ns_lookup@) =~= v0.push((ns@, spec.name@, chat_name@)));
                    },
                }
            },
            None => {},
        }
        let ghost sv = spec@;
        self.specs.insert(chat_name, spec);
        assert(self@.specs =~= c0.specs.insert(chat_name@, sv));
    }

    fn add_custom_tool(&mut self, name: &str)
        ensures
            final(self)@ == add_custom_v(old(self)@, name@),
    {
        self.add_chat_tool(
            owned(name),
            ToolSpec { kind: ToolKind::Custom, name: owned(name), namespace: None },
        );
    }

    fn add_tool_search_tool(&mut self)
        ensures
            final(self)@ == add_tool_search_v(old(self)@),
    {
        self.add_chat_tool(
            owned("tool_search"),
            ToolSpec { kind: ToolKind::ToolSearch, name: owned("tool_search"), namespace: None },
        );
    }

    fn add_function_tool(&mut self, tool: &Json, namespace: Option<&str>)
        ensures
            final(self)@ == add_function_v(
                old(self)@,
                tool@,
                match namespace {
                    Some(s) => Some(s@),
                    None => None,
                },
            ),
    {
        let original = match responses_tool_name(tool) {
            Some(n) => n,
            None => return,
        };
        let chat = match namespace {
            Some(ns) => flatten_namespace_tool_name(ns, original.as_str()),
            None => original.clone(),
        };
        let spec = ToolSpec {
            kind: match namespace {
                Some(_) => ToolKind::Namespace,
                None => ToolKind::Function,
            },
            name: original,
            namespace: match namespace {
                Some(ns) => Some(owned(ns)),
                None => None,
            },
        };
        self.add_chat_tool(chat, spec);
    }

    fn add_namespace_tool(&mut self, tool: &Json)
        ensures
            final(self)@ == add_namespace_v(old(self)@, tool@),
    {
        let ns = match tool.get_str("name") {
            Some(n) => n,
            None => return,
        };
        let children = match tool.get("tools") {
            Some(t) => match t.as_array() {
                Some(a) => a,
                None => return,
            },
            None => match tool.get("children") {
                Some(t) => match t.as_array() {
                    Some(a) => a,
                    None => return,
                },
                None => return,
            },
        };
        let ghost cv = elems_view(children@);
        assert(ns_children(tool@) == Some(cv));
        let mut i: usize = 0;
        while i < children.len()
            invariant
                i <= children@.len(),
                cv == elems_view(children@),
                self@ == add_children_v(old(self)@, cv, ns@, i as int),
            decreases children@.len() - i,
        {
            let is_fn = match children[i].get_str("type") {
                Some(t) => seq_eq(chars_of(t.as_str()).as_slice(), chars_of("function").as_slice()),
                None => false,
            };
            assert(cv[i as int] == children@[i as int]@);
            if is_fn {
                self.add_function_tool(&children[i], Some(ns.as_str()));
            }
            i = i + 1;
        }
    }

    fn add_response_tool(&mut self, tool: &Json)
        ensures
            final(self)@ == add_response_tool_v(old(self)@, tool@),
    {
        match tool {
            Json::Str(s) => {
                let t = trim_chars(chars_of(s.as_str()).as_slice());
                if t.len() > 0 {
                    let name = string_from(t.as_slice());
                    self.add_custom_tool(name.as_str());
                }
            },
            Json::Object(_) => {
                let t = match tool.get_str("type") {
                    Some(t) => chars_of(t.as_str()),
                    None => return,
                };
                let ts = t.as_slice();
                if crate::text::is(ts, "function") {
                    self.add_function_tool(tool, None);
                } else if crate::text::is(ts, "custom") {
                    match responses_tool_name(tool) {
                        Some(n) => self.add_custom_tool(n.as_str()),
                        None => {},
                    }
                } else if crate::text::is(ts, "tool_search") {
                    self.add_tool_search_tool();
                } else if crate::text::is(ts, "namespace") {
                    self.add_namespace_tool(tool);
                } else if crate::text::is(ts, "web_search") {
                    self.bridges_web_search = true;
                }
            },
            _ => {},
        }
    }

    fn add_tools(&mut self, tools: &Vec<Json>)
        ensures
            final(self)@ == add_tools_v(old(self)@, elems_view(tools@), tools@.len() as int),
    {
        let ghost tv = elems_view(tools@);
        let mut i: usize = 0;
        while i < tools.len()
            invariant
                i <= tools@.len(),
                tv == elems_view(tools@),
                self@ == add_tools_v(old(self)@, tv, i as int),
            decreases tools@.len() - i,
        {
            assert(tv[i as int] == tools@[i as int]@);
            self.add_response_tool(&tools[i]);
            i = i + 1;
        }
    }

    /// The context of a Responses request (see `request_ctx`).
    pub fn from_request(req: &Json) -> (c: Self)
        ensures
            c@ == request_ctx(req@),
    {
        let mut ctx = ToolContext::new();
        match req.get("tools") {
            Some(t) => match t.as_array() {
                Some(a) => ctx.add_tools(a),
                None => {},
            },
            None => {},
        }
        match req.get("input") {
            Some(i) => collect_tool_search_output_tools(i, &mut ctx),
            None => {},
        }
        ctx
    }
}

proof fn lemma_ns_get_found(ns: Seq<(Seq<char>, Seq<char>, Seq<char>)>, n: Seq<char>, m: Seq<char>, j: int)
    requires
        0 <= j < ns.len(),
        ns[j].0 == n && ns[j].1 == m,
    ensures
        ns_get(ns, n, m) is Some,
    decreases j,
{
    if j > 0 && !(ns[0].0 == n && ns[0].1 == m) {
        assert(ns.drop_first()[j - 1] == ns[j]);
        lemma_ns_get_found(ns.drop_first(), n, m, j - 1);
    }
}

/// A tool's name (see `tool_name_v`).
fn responses_tool_name(tool: &Json) -> (r: Option<String>)
    ensures
        r matches Some(s) ==> tool_name_v(tool@) == Some(s@),
        r is None ==> tool_name_v(tool@) is None,
{
    let v = match tool.get("function") {
        Some(f) => match f.get("name") {
            Some(n) => Some(n),
            None => tool.get("name"),
        },
        None => tool.get("name"),
    };
    match v {
        Some(j) => match j.as_str() {
            Some(s) => {
                let t = trim_chars(chars_of(s.as_str()).as_slice());
                if t.len() > 0 {
                    Some(string_from(t.as_slice()))
                } else {
                    None
                }
            },
            None => None,
        },
        None => None,
    }
}

#[verifier::loop_isolation(false)]
fn collect_tool_search_output_tools(value: &Json, ctx: &mut ToolContext)
    ensures
        final(ctx)@ == collect_v(old(ctx)@, value@),
    decreases value,
{
    match value {
        Json::Array(items) => {
            proof {
                crate::json::lemma_array_view(*items);
            }
            let ghost iv = elems_view(items@);
            let mut i: usize = 0;
            while i < items.len()
                invariant
                    i <= items@.len(),
                    iv == elems_view(items@),
                    *value == Json::Array(*items),
                    ctx@ == collect_items_v(old(ctx)@, iv, i as int),
                decreases items@.len() - i,
            {
                proof {
                    assert(decreases_to!(items@ => items@[i as int]));
                }
                assert(iv[i as int] == items@[i as int]@);
                collect_tool_search_output_tools(&items[i], ctx);
                i = i + 1;
            }
        },
        Json::Object(fields) => {
            proof {
                crate::json::lemma_object_view(*fields);
            }
            let is_tso = match value.get_str("type") {
                Some(t) => seq_eq(
                    chars_of(t.as_str()).as_slice(),
                    chars_of("tool_search_output").as_slice(),
                ),
                None => false,
            };
            if is_tso {
                match value.get("tools") {
                    Some(t) => match t.as_array() {
                        Some(a) => ctx.add_tools(a),
                        None => {},
                    },
                    None => {},
                }
            }
            let ghost c1 = ctx@;
            let ghost fv = crate::json::fields_view(fields@);
            let mut i: usize = 0;
            while i < fields.len()
                invariant
                    i <= fields@.len(),
                    fv == crate::json::fields_view(fields@),
                    *value == Json::Object(*fields),
                    ctx@ == collect_fields_v(c1, fv, i as int),
                decreases fields@.len() - i,
            {
                proof {
                    assert(decreases_to!(fields@ => fields@[i as int]));
                    assert(decreases_to!(fields@[i as int] => fields@[i as int].1));
                }
                assert(fv[i as int].1 == fields@[i as int].1@);
                collect_tool_search_output_tools(&fields[i].1, ctx);
                i = i + 1;
            }
        },
        _ => {},
    }
}

} // verus!

verus! {

/// A text with a character that is not white space keeps something when
/// trimmed.
proof fn lemma_trim_nonempty(s: Seq<char>, i: int)
    requires
        0 <= i < s.len(),
        !crate::text::is_ws(s[i]),
    ensures
        trim(s).len() > 0,
{
    crate::text::lemma_lead_ws_bound(s);
    let l = crate::text::lead_ws(s) as int;
    assert(l <= i);
    let t = crate::text::trim_start(s);
    assert(t[i - l] == s[i]);
    crate::text::lemma_trail_ws_bound(t);
    assert(t.len() - crate::text::trail_ws(t) > i - l);
}

proof fn lemma_ns_get_put(
    ns: Seq<(Seq<char>, Seq<char>, Seq<char>)>,
    n: Seq<char>,
    m: Seq<char>,
    chat: Seq<char>,
)
    ensures
        ns_get(ns_put(ns, n, m, chat), n, m) == Some(chat),
    decreases ns.len(),
{
    if ns.len() > 0 && !(ns[0].0 == n && ns[0].1 == m) {
        lemma_ns_get_put(ns.drop_first(), n, m, chat);
        let p = seq![ns[0]] + ns_put(ns.drop_first(), n, m, chat);
        assert(p.drop_first() =~= ns_put(ns.drop_first(), n, m, chat));
    }
}

/// A flattened name is never blank.
proof fn lemma_flat_name_nonblank(ns: Seq<char>, name: Seq<char>)
    ensures
        trim(flat_name(ns, name)).len() > 0,
{
    reveal_strlit("__");
    let full = ns + "__"@ + name;
    let r = flat_name(ns, name);
    if utf8_len(full) <= 64 {
        assert(r[ns.len() as int] == '_');
        lemma_trim_nonempty(r, ns.len() as int);
    } else {
        let suffix = "__"@ + hex(first8(sha256_digest(utf8(full))));
        let k = fit_count(full, 64 - suffix.len()) as int;
        lemma_fit_count_fits(full, 64 - suffix.len());
        assert(r[k] == '_');
        lemma_trim_nonempty(r, k);
    }
}

/// A function declared inside a non-empty namespace is found again by its
/// own name and namespace: once it is registered, the chat name for the
/// pair leads to the namespaced tool. This holds unless an earlier tool
/// already took the flattened name.
pub proof fn law_namespaced_tool_found(c: CtxV, tool: JsonV, ns: Seq<char>)
    requires
        tool_name_v(tool) is Some,
        ns.len() > 0,
        !c.specs.contains_key(flat_name(ns, tool_name_v(tool).unwrap())),
    ensures
        ({
            let n = tool_name_v(tool).unwrap();
            let c2 = add_function_v(c, tool, Some(ns));
            let chat = chat_name_of(c2, n, Some(ns));
            &&& c2.specs.contains_key(chat)
            &&& c2.specs[chat] == ToolSpecV { kind: ToolKind::Namespace, name: n, namespace: Some(ns) }
        }),
{
    let n = tool_name_v(tool).unwrap();
    lemma_flat_name_nonblank(ns, n);
    lemma_ns_get_put(c.ns, ns, n, flat_name(ns, n));
}

/// Without a (non-empty) namespace a tool's chat name is its own name.
pub proof fn law_plain_chat_name(c: CtxV, name: Seq<char>)
    ensures
        chat_name_of(c, name, None) == name,
        chat_name_of(c, name, Some(Seq::empty())) == name,
{
}

} // verus!

verus! {

/// The spec a namespaced function is registered with.
pub open spec fn ns_spec(ns: Seq<char>, n: Seq<char>) -> ToolSpecV {
    ToolSpecV { kind: ToolKind::Namespace, name: n, namespace: Some(ns) }
}

/// `(ns, n)` is registered under its flattened name, which leads to the
/// namespaced tool.
pub open spec fn ns_found(c: CtxV, ns: Seq<char>, n: Seq<char>) -> bool {
    &&& ns_get(c.ns, ns, n) == Some(flat_name(ns, n))
    &&& c.specs.contains_key(flat_name(ns, n))
    &&& c.specs[flat_name(ns, n)] == ns_spec(ns, n)
}

/// A registration that obeys the flattening rule: a namespaced tool goes
/// under its flattened name.
pub open spec fn conforming(chat: Seq<char>, spec: ToolSpecV) -> bool {
    spec.namespace matches Some(x) ==> chat == flat_name(x, spec.name)
}

proof fn lemma_ns_get_put_other(
    l: Seq<(Seq<char>, Seq<char>, Seq<char>)>,
    x: Seq<char>,
    m: Seq<char>,
    chat: Seq<char>,
    a: Seq<char>,
    b: Seq<char>,
)
    requires
        !(x == a && m == b),
    ensures
        ns_get(ns_put(l, x, m, chat), a, b) == ns_get(l, a, b),
    decreases l.len(),
{
    if l.len() > 0 && !(l[0].0 == x && l[0].1 == m) {
        lemma_ns_get_put_other(l.drop_first(), x, m, chat, a, b);
        let p = seq![l[0]] + ns_put(l.drop_first(), x, m, chat);
        assert(p[0] == l[0]);
        assert(p.drop_first() =~= ns_put(l.drop_first(), x, m, chat));
    } else if l.len() > 0 {
        let p = l.update(0, (x, m, chat));
        assert(p[0] == (x, m, chat));
        assert(p.drop_first() =~= l.drop_first());
    } else {
        let p = seq![(x, m, chat)];
        assert(p.drop_first() =~= Seq::<(Seq<char>, Seq<char>, Seq<char>)>::empty());
        assert(ns_get(p.drop_first(), a, b) is None);
        assert(!(p[0].0 == a && p[0].1 == b));
        assert(ns_get(p, a, b) == ns_get(p.drop_first(), a, b));
    }
}

proof fn lemma_add_chat_keeps(c: CtxV, chat: Seq<char>, spec: ToolSpecV, ns: Seq<char>, n: Seq<char>)
    requires
        ns_found(c, ns, n),
        conforming(chat, spec),
    ensures
        ns_found(add_chat_v(c, chat, spec), ns, n),
{
    if !(trim(chat).len() == 0 || c.specs.contains_key(chat)) {
        assert(chat != flat_name(ns, n));
        if let Some(x) = spec.namespace {
            lemma_ns_get_put_other(c.ns, x, spec.name, chat, ns, n);
        }
    }
}

proof fn lemma_add_function_keeps(c: CtxV, tool: JsonV, x: Option<Seq<char>>, ns: Seq<char>, n: Seq<char>)
    requires
        ns_found(c, ns, n),
    ensures
        ns_found(add_function_v(c, tool, x), ns, n),
{
    if let Some(m) = tool_name_v(tool) {
        let chat = match x {
            Some(y) => flat_name(y, m),
            None => m,
        };
        let spec = ToolSpecV { kind: if x is Some { ToolKind::Namespace } else { ToolKind::Function }, name: m, namespace: x };
        lemma_add_chat_keeps(c, chat, spec, ns, n);
    }
}

proof fn lemma_children_keeps(c: CtxV, ch: Seq<JsonV>, x: Seq<char>, k: int, ns: Seq<char>, n: Seq<char>)
    requires
        ns_found(c, ns, n),
    ensures
        ns_found(add_children_v(c, ch, x, k), ns, n),
    decreases k,
{
    if !(k <= 0 || k > ch.len()) {
        lemma_children_keeps(c, ch, x, k - 1, ns, n);
        lemma_add_function_keeps(add_children_v(c, ch, x, k - 1), ch[k - 1], Some(x), ns, n);
    }
}

proof fn lemma_response_tool_keeps(c: CtxV, tool: JsonV, ns: Seq<char>, n: Seq<char>)
    requires
        ns_found(c, ns, n),
    ensures
        ns_found(add_response_tool_v(c, tool), ns, n),
{
    match tool {
        JsonV::Str(s) => if trim(s).len() > 0 {
            lemma_add_chat_keeps(c, trim(s), ToolSpecV { kind: ToolKind::Custom, name: trim(s), namespace: None }, ns, n);
        },
        JsonV::Object(_) => {
            let t = vget_str(tool, "type"@);
            if t == Some("function"@) {
                lemma_add_function_keeps(c, tool, None, ns, n);
            } else if t == Some("custom"@) {
                if let Some(m) = tool_name_v(tool) {
                    lemma_add_chat_keeps(c, m, ToolSpecV { kind: ToolKind::Custom, name: m, namespace: None }, ns, n);
                }
            } else if t == Some("tool_search"@) {
                lemma_add_chat_keeps(
                    c,
                    "tool_search"@,
                    ToolSpecV { kind: ToolKind::ToolSearch, name: "tool_search"@, namespace: None },
                    ns,
                    n,
                );
            } else if t == Some("namespace"@) {
                if let Some(x) = vget_str(tool, "name"@) {
                    if let Some(ch) = ns_children(tool) {
                        lemma_children_keeps(c, ch, x, ch.len() as int, ns, n);
                    }
                }
            }
        },
        _ => {},
    }
}

proof fn lemma_tools_keeps(c: CtxV, ts: Seq<JsonV>, from: int, k: int, ns: Seq<char>, n: Seq<char>)
    requires
        0 <= from <= k <= ts.len(),
        ns_found(add_tools_v(c, ts, from), ns, n),
    ensures
        ns_found(add_tools_v(c, ts, k), ns, n),
    decreases k - from,
{
    if k > from {
        lemma_tools_keeps(c, ts, from, k - 1, ns, n);
        lemma_response_tool_keeps(add_tools_v(c, ts, k - 1), ts[k - 1], ns, n);
    }
}

proof fn lemma_collect_keeps(c: CtxV, v: JsonV, ns: Seq<char>, n: Seq<char>)
    requires
        ns_found(c, ns, n),
    ensures
        ns_found(collect_v(c, v), ns, n),
    decreases v, 1nat,
{
    match v {
        JsonV::Array(items) => lemma_collect_items_keeps(c, items, items.len() as int, ns, n),
        JsonV::Object(fs) => {
            let c1 = if vget_str(v, "type"@) == Some("tool_search_output"@) {
                match vget_arr(v, "tools"@) {
                    Some(ts) => {
                        lemma_tools_keeps(c, ts, 0, ts.len() as int, ns, n);
                        add_tools_v(c, ts, ts.len() as int)
                    },
                    None => c,
                }
            } else {
                c
            };
            lemma_collect_fields_keeps(c1, fs, fs.len() as int, ns, n);
        },
        _ => {},
    }
}

proof fn lemma_collect_items_keeps(c: CtxV, items: Seq<JsonV>, k: int, ns: Seq<char>, n: Seq<char>)
    requires
        ns_found(c, ns, n),
    ensures
        ns_found(collect_items_v(c, items, k), ns, n),
    decreases items, 0nat, k,
{
    if !(k <= 0 || k > items.len()) {
        lemma_collect_items_keeps(c, items, k - 1, ns, n);
        assert(decreases_to!(items => items[k - 1]));
        lemma_collect_keeps(collect_items_v(c, items, k - 1), items[k - 1], ns, n);
    }
}

proof fn lemma_collect_fields_keeps(c: CtxV, fs: Seq<(Seq<char>, JsonV)>, k: int, ns: Seq<char>, n: Seq<char>)
    requires
        ns_found(c, ns, n),
    ensures
        ns_found(collect_fields_v(c, fs, k), ns, n),
    decreases fs, 0nat, k,
{
    if !(k <= 0 || k > fs.len()) {
        lemma_collect_fields_keeps(c, fs, k - 1, ns, n);
        assert(decreases_to!(fs => fs[k - 1]));
        assert(decreases_to!(fs[k - 1] => fs[k - 1].1));
        lemma_collect_keeps(collect_fields_v(c, fs, k - 1), fs[k - 1].1, ns, n);
    }
}

/// A function declared inside a namespace tool of a request is found
/// again from the request's context: the chat name for its name and
/// namespace leads to that namespaced tool, whatever the request declares
/// after it. This holds unless a tool declared before it took its
/// flattened name.
pub proof fn law_namespaced_tool_found_in_request(req: JsonV, i: int, j: int, ns: Seq<char>, n: Seq<char>)
    requires
        vget_arr(req, "tools"@) is Some,
        0 <= i < vget_arr(req, "tools"@).unwrap().len(),
        vget_str(vget_arr(req, "tools"@).unwrap()[i], "type"@) == Some("namespace"@),
        vget_str(vget_arr(req, "tools"@).unwrap()[i], "name"@) == Some(ns),
        ns.len() > 0,
        ns_children(vget_arr(req, "tools"@).unwrap()[i]) is Some,
        0 <= j < ns_children(vget_arr(req, "tools"@).unwrap()[i]).unwrap().len(),
        vget_str(ns_children(vget_arr(req, "tools"@).unwrap()[i]).unwrap()[j], "type"@) == Some("function"@),
        tool_name_v(ns_children(vget_arr(req, "tools"@).unwrap()[i]).unwrap()[j]) == Some(n),
        !add_children_v(
            add_tools_v(empty_ctx(), vget_arr(req, "tools"@).unwrap(), i),
            ns_children(vget_arr(req, "tools"@).unwrap()[i]).unwrap(),
            ns,
            j,
        ).specs.contains_key(flat_name(ns, n)),
    ensures
        ({
            let c = request_ctx(req);
            &&& c.specs.contains_key(chat_name_of(c, n, Some(ns)))
            &&& c.specs[chat_name_of(c, n, Some(ns))] == ns_spec(ns, n)
        }),
{
    let ts = vget_arr(req, "tools"@).unwrap();
    let ch = ns_children(ts[i]).unwrap();
    let c0 = add_tools_v(empty_ctx(), ts, i);
    let cj = add_children_v(c0, ch, ns, j);
    law_namespaced_tool_found(cj, ch[j], ns);
    lemma_flat_name_nonblank(ns, n);
    lemma_ns_get_put(cj.ns, ns, n, flat_name(ns, n));
    let cj1 = add_children_v(c0, ch, ns, j + 1);
    assert(cj1 == add_function_v(cj, ch[j], Some(ns)));
    assert(ns_found(cj1, ns, n));
    lemma_children_from(c0, ch, ns, j + 1, ch.len() as int, n);
    assert(ts[i] is Object);
    reveal_strlit("namespace");
    reveal_strlit("function");
    reveal_strlit("custom");
    reveal_strlit("tool_search");
    assert("namespace"@ != "function"@ && "namespace"@ != "custom"@ && "namespace"@ != "tool_search"@) by {
        assert("namespace"@[0] != "function"@[0]);
        assert("namespace"@.len() != "custom"@.len());
        assert("namespace"@[0] != "tool_search"@[0]);
    }
    assert(add_response_tool_v(c0, ts[i]) == add_namespace_v(c0, ts[i]));
    assert(add_namespace_v(c0, ts[i]) == add_children_v(c0, ch, ns, ch.len() as int));
    assert(add_tools_v(empty_ctx(), ts, i + 1) == add_response_tool_v(c0, ts[i]));
    lemma_tools_keeps(empty_ctx(), ts, i + 1, ts.len() as int, ns, n);
    let c1 = add_tools_v(empty_ctx(), ts, ts.len() as int);
    if let Some(inp) = vget(req, "input"@) {
        lemma_collect_keeps(c1, inp, ns, n);
    }
}

proof fn lemma_children_from(c: CtxV, ch: Seq<JsonV>, x: Seq<char>, from: int, k: int, n: Seq<char>)
    requires
        0 <= from <= k <= ch.len(),
        ns_found(add_children_v(c, ch, x, from), x, n),
    ensures
        ns_found(add_children_v(c, ch, x, k), x, n),
    decreases k - from,
{
    if k > from {
        lemma_children_from(c, ch, x, from, k - 1, n);
        lemma_add_function_keeps(add_children_v(c, ch, x, k - 1), ch[k - 1], Some(x), x, n);
    }
}

} // verus!
