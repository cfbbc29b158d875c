//! Server-sent-event framing of upstream streams: where an event ends in
//! the byte buffer, how an event's text splits into lines, and the
//! incremental parser that turns chunks into `(event, data)` frames.
use vstd::prelude::*;

use crate::json::JsonV;
use crate::text::{chars_of, has_prefix, is, join, join_exec, starts_with, string_from, trim, trim_chars};

verus! {

// ---------------------------------------------------------------------------
// Event boundaries
// ---------------------------------------------------------------------------
/// First position at or after `i` where `p` occurs in `b`.
pub open spec fn first_from(b: Seq<u8>, p: Seq<u8>, i: int) -> Option<int>
    decreases b.len() - i,
{
    if i < 0 || i >= b.len() || i + p.len() > b.len() {
        None
    } else if b.subrange(i, i + p.len()) == p {
        Some(i)
    } else {
        first_from(b, p, i + 1)
    }
}

pub open spec fn lf_lf() -> Seq<u8> {
    seq![10u8, 10u8]
}

pub open spec fn crlf_crlf() -> Seq<u8> {
    seq![13u8, 10u8, 13u8, 10u8]
}

/// Length of the first complete event in `b`: up to and including the
/// blank line that comes first, written `\n\n` or `\r\n\r\n`.
pub open spec fn event_end(b: Seq<u8>) -> Option<int> {
    match (first_from(b, lf_lf(), 0), first_from(b, crlf_crlf(), 0)) {
        (Some(i), Some(j)) => if i <= j {
            Some(i + 2)
        } else {
            Some(j + 4)
        },
        (Some(i), None) => Some(i + 2),
        (None, Some(j)) => Some(j + 4),
        (None, None) => None,
    }
}

proof fn lemma_first_from_bound(b: Seq<u8>, p: Seq<u8>, i: int)
    ensures
        first_from(b, p, i) matches Some(k) ==> i <= k && k + p.len() <= b.len(),
    decreases b.len() - i,
{
    if !(i < 0 || i >= b.len() || i + p.len() > b.len()) && b.subrange(i, i + p.len()) != p {
        lemma_first_from_bound(b, p, i + 1);
    }
}

fn find_first(b: &[u8], p: &[u8]) -> (r: Option<usize>)
    requires
        p@.len() > 0,
    ensures
        r matches Some(k) ==> first_from(b@, p@, 0) == Some(k as int),
        r is None ==> first_from(b@, p@, 0) is None,
{
    let n = b.len();
    let m = p.len();
    if m > n {
        return None;
    }
    let mut i: usize = 0;
    while i <= n - m
        invariant
            n == b@.len(),
            m == p@.len(),
            0 < m <= n,
            i <= n - m + 1,
            first_from(b@, p@, 0) == first_from(b@, p@, i as int),
        decreases n - m + 1 - i,
    {
        let mut k: usize = 0;
        let mut same = true;
        while k < m
            invariant
                i + m <= n == b@.len(),
                m == p@.len(),
                k <= m,
                same == (forall|j: int| 0 <= j < k ==> b@[i + j] == p@[j]),
            decreases m - k,
        {
            if b[i + k] != p[k] {
                same = false;
            }
            k = k + 1;
        }
        if same {
            assert(b@.subrange(i as int, i + m) =~= p@);
            return Some(i);
        } else {
            assert(b@.subrange(i as int, i + m) != p@) by {
                let w = choose|j: int| 0 <= j < m && b@[i + j] != p@[j];
                assert(b@.subrange(i as int, i + m)[w] == b@[i + w]);
            }
        }
        i = i + 1;
    }
    None
}

/// Length of the first complete event in `buf`, if there is one.
pub fn find_event_end(buf: &[u8]) -> (r: Option<usize>)
    ensures
        r matches Some(k) ==> event_end(buf@) == Some(k as int),
        r is None ==> event_end(buf@) is None,
{
    let n = buf.len();
    let lflf: [u8; 2] = [10u8, 10u8];
    assert(lflf@ =~= lf_lf());
    let crlf2: [u8; 4] = [13u8, 10u8, 13u8, 10u8];
    assert(crlf2@ =~= crlf_crlf());
    let lf = find_first(buf, lflf.as_slice());
    let cr = find_first(buf, crlf2.as_slice());
    proof {
        lemma_first_from_bound(buf@, lf_lf(), 0);
        lemma_first_from_bound(buf@, crlf_crlf(), 0);
    }
    match (lf, cr) {
        (Some(i), Some(j)) => if i <= j {
            Some(i + 2)
        } else {
            Some(j + 4)
        },
        (Some(i), None) => Some(i + 2),
        (None, Some(j)) => Some(j + 4),
        (None, None) => None,
    }
}

// ---------------------------------------------------------------------------
// Text of an event
// ---------------------------------------------------------------------------
/// Name for what `String::from_utf8_lossy` makes of a byte string: the
/// UTF-8 text with each invalid sequence replaced by U+FFFD. It depends on
/// the bytes alone.
pub uninterp spec fn utf8_lossy(b: Seq<u8>) -> Seq<char>;

/// Calls `String::from_utf8_lossy`; the text is named by `utf8_lossy`.
/// Valid UTF-8 comes back unchanged (std documents this).
#[verifier::external_body]
pub(crate) fn lossy_text(b: &[u8]) -> (r: String)
    ensures
        r@ == utf8_lossy(b@),
        forall|t: Seq<char>| crate::text::utf8(t) == b@ ==> r@ == t,
{
    String::from_utf8_lossy(b).into_owned()
}

/// Position of the first `\n` at or after `i`.
pub open spec fn nl_from(s: Seq<char>, i: int) -> Option<int>
    decreases s.len() - i,
{
    if i < 0 || i >= s.len() {
        None
    } else if s[i] == '\n' {
        Some(i)
    } else {
        nl_from(s, i + 1)
    }
}

proof fn lemma_nl_from_bound(s: Seq<char>, i: int)
    ensures
        nl_from(s, i) matches Some(k) ==> i <= k < s.len() && s[k] == '\n',
    decreases s.len() - i,
{
    if !(i < 0 || i >= s.len()) && s[i] != '\n' {
        lemma_nl_from_bound(s, i + 1);
    }
}

/// A line without the `\r` of a `\r\n` ending.
pub open spec fn strip_cr(l: Seq<char>) -> Seq<char> {
    if l.len() > 0 && l.last() == '\r' {
        l.drop_last()
    } else {
        l
    }
}

/// `str::lines`: lines end at `\n` or `\r\n`; the last line ending is
/// optional and yields no empty line after it.
pub open spec fn lines(s: Seq<char>) -> Seq<Seq<char>>
    decreases s.len(),
{
    if s.len() == 0 {
        Seq::empty()
    } else {
        match nl_from(s, 0) {
            Some(k) => if 0 <= k < s.len() {
                seq![strip_cr(s.take(k))] + lines(s.skip(k + 1))
            } else {
                Seq::empty()
            },
            None => seq![s],
        }
    }
}

pub open spec fn lines_view(v: Seq<Vec<char>>) -> Seq<Seq<char>> {
    v.map_values(|l: Vec<char>| l@)
}

/// The lines of `v`.
pub fn lines_exec(v: &[char]) -> (r: Vec<Vec<char>>)
    ensures
        lines_view(r@) == lines(v@),
{
    let n = v.len();
    let mut r: Vec<Vec<char>> = Vec::new();
    let mut start: usize = 0;
    assert(v@.skip(0) =~= v@);
    while start < n
        invariant
            n == v@.len(),
            start <= n,
            lines_view(r@) + lines(v@.skip(start as int)) == lines(v@),
        decreases n - start,
    {
        let ghost t = v@.skip(start as int);
        let mut j = start;
        while j < n && v[j] != '\n'
            invariant
                start <= j <= n == v@.len(),
                t == v@.skip(start as int),
                nl_from(t, 0) == nl_from(t, j - start),
            decreases n - j,
        {
            assert(t[j - start] == v@[j as int]);
            j = j + 1;
        }
        let ghost before = lines_view(r@);
        if j == n {
            assert(nl_from(t, (n - start) as int) is None);
            let line = crate::text::slice_range(v, start, n);
            r.push(line);
            assert(t =~= v@.subrange(start as int, n as int));
            assert(lines_view(r@) =~= before.push(t));
            assert(v@.skip(n as int) =~= Seq::<char>::empty());
            assert(lines_view(r@) + lines(v@.skip(n as int)) =~= before + lines(t));
            start = n;
        } else {
            assert(t[j - start] == v@[j as int]);
            assert(nl_from(t, 0) == Some((j - start) as int));
            let mut e = j;
            if e > start && v[e - 1] == '\r' {
                e = e - 1;
            }
            let line = crate::text::slice_range(v, start, e);
            r.push(line);
            proof {
                let l = t.take(j - start);
                assert(l =~= v@.subrange(start as int, j as int));
                if j > start && v@[j - 1] == '\r' {
                    assert(strip_cr(l) =~= v@.subrange(start as int, e as int));
                } else {
                    assert(strip_cr(l) =~= v@.subrange(start as int, e as int));
                }
                assert(t.skip(j - start + 1) =~= v@.skip(j + 1));
                assert(lines_view(r@) =~= before.push(strip_cr(l)));
                assert(lines_view(r@) + lines(v@.skip(j + 1)) =~= before + lines(t));
            }
            start = j + 1;
        }
    }
    assert(v@.skip(n as int) =~= Seq::<char>::empty());
    assert(lines_view(r@) + Seq::<Seq<char>>::empty() =~= lines_view(r@));
    r
}

/// The payload of a `data:` line, trimmed.
pub open spec fn data_of(line: Seq<char>) -> Option<Seq<char>> {
    if has_prefix(line, "data:"@) {
        Some(trim(line.skip("data:"@.len() as int)))
    } else {
        None
    }
}

/// The non-blank name of an `event:` line, trimmed.
pub open spec fn name_of(line: Seq<char>) -> Option<Seq<char>> {
    if !has_prefix(line, "data:"@) && has_prefix(line, "event:"@) && trim(
        line.skip("event:"@.len() as int),
    ).len() > 0 {
        Some(trim(line.skip("event:"@.len() as int)))
    } else {
        None
    }
}

/// The data payloads of the lines, in order.
pub open spec fn frame_datas(ls: Seq<Seq<char>>) -> Seq<Seq<char>>
    decreases ls.len(),
{
    if ls.len() == 0 {
        Seq::empty()
    } else {
        let r = frame_datas(ls.drop_last());
        match data_of(ls.last()) {
            Some(d) => r.push(d),
            None => r,
        }
    }
}

/// The last event name given in the lines.
pub open spec fn frame_name(ls: Seq<Seq<char>>) -> Option<Seq<char>>
    decreases ls.len(),
{
    if ls.len() == 0 {
        None
    } else {
        match name_of(ls.last()) {
            Some(n) => Some(n),
            None => frame_name(ls.drop_last()),
        }
    }
}

/// The frame an event's bytes make: its name and its data lines joined by
/// `\n`; none when it has no data line.
pub open spec fn frame(ev: Seq<u8>) -> Option<(Option<Seq<char>>, Seq<char>)> {
    let ls = lines(utf8_lossy(ev));
    let ds = frame_datas(ls);
    if ds.len() == 0 {
        None
    } else {
        Some((frame_name(ls), join(ds, "\n"@)))
    }
}

pub(crate) fn strip_prefix_trim(line: &[char], lit: &str) -> (r: Option<Vec<char>>)
    ensures
        r matches Some(t) ==> has_prefix(line@, lit@) && t@ == trim(line@.skip(lit@.len() as int)),
        r is None ==> !has_prefix(line@, lit@),
{
    let p = chars_of(lit);
    if starts_with(line, p.as_slice()) {
        let rest = crate::text::slice_range(line, p.len(), line.len());
        assert(rest@ =~= line@.skip(p@.len() as int));
        Some(trim_chars(rest.as_slice()))
    } else {
        None
    }
}

fn frame_exec(ev: &[u8]) -> (r: Option<(Option<String>, String)>)
    ensures
        r matches Some(x) ==> frame(ev@) == Some(
            (
                match x.0 {
                    Some(s) => Some(s@),
                    None => None,
                },
                x.1@,
            ),
        ),
        r is None ==> frame(ev@) is None,
{
    let text = lossy_text(ev);
    let ls = lines_exec(chars_of(text.as_str()).as_slice());
    let ghost lv = lines_view(ls@);
    let mut datas: Vec<Vec<char>> = Vec::new();
    let mut name: Option<Vec<char>> = None;
    let mut i: usize = 0;
    while i < ls.len()
        invariant
            i <= ls@.len(),
            lv == lines_view(ls@),
            lines_view(datas@) == frame_datas(lv.take(i as int)),
            name matches Some(nm) ==> frame_name(lv.take(i as int)) == Some(nm@),
            name is None ==> frame_name(lv.take(i as int)) is None,
        decreases ls@.len() - i,
    {
        proof {
            assert(lv.take(i + 1).drop_last() =~= lv.take(i as int));
            assert(lv.take(i + 1).last() == ls@[i as int]@);
        }
        let ghost before = lines_view(datas@);
        match strip_prefix_trim(ls[i].as_slice(), "data:") {
            Some(d) => {
                datas.push(d);
                assert(lines_view(datas@) =~= before.push(d@));
            },
            None => {
                match strip_prefix_trim(ls[i].as_slice(), "event:") {
                    Some(nm) => {
                        if nm.len() > 0 {
                            name = Some(nm);
                        }
                    },
                    None => {},
                }
            },
        }
        i = i + 1;
    }
    assert(lv.take(ls@.len() as int) =~= lv);
    if datas.len() == 0 {
        return None;
    }
    let nl = chars_of("\n");
    let data = join_exec(&datas, nl.as_slice());
    let n = match name {
        Some(v) => Some(string_from(v.as_slice())),
        None => None,
    };
    Some((n, string_from(data.as_slice())))
}

// ---------------------------------------------------------------------------
// Incremental parser
// ---------------------------------------------------------------------------
/// One parsed frame: the event name, if any, and the data payload.
pub struct SseEvent {
    pub event: Option<String>,
    pub data: String,
}

pub open spec fn event_view(e: SseEvent) -> (Option<Seq<char>>, Seq<char>) {
    (
        match e.event {
            Some(s) => Some(s@),
            None => None,
        },
        e.data@,
    )
}

pub open spec fn events_view(es: Seq<SseEvent>) -> Seq<(Option<Seq<char>>, Seq<char>)> {
    es.map_values(|e: SseEvent| event_view(e))
}

/// The frames of the complete events at the front of `b`, whether a
/// `[DONE]` frame ended them, and the bytes left over (after `[DONE]`, or
/// the incomplete tail). Events without data lines are skipped.
pub open spec fn drain(b: Seq<u8>) -> (Seq<(Option<Seq<char>>, Seq<char>)>, bool, Seq<u8>)
    decreases b.len(),
{
    match event_end(b) {
        Some(k) => if 0 < k <= b.len() {
            let rest = b.skip(k);
            match frame(b.take(k)) {
                Some(f) => if f.1 == "[DONE]"@ {
                    (Seq::empty(), true, rest)
                } else {
                    let d = drain(rest);
                    (seq![f] + d.0, d.1, d.2)
                },
                None => drain(rest),
            }
        } else {
            (Seq::empty(), false, b)
        },
        None => (Seq::empty(), false, b),
    }
}

/// Largest incomplete event kept between chunks.
pub const MAX_PENDING_BYTES: usize = 1_000_000;

/// Parser of an upstream Chat SSE stream: the bytes of an incomplete event
/// wait for the next chunk.
pub struct ChatSseParser {
    buf: Vec<u8>,
}

impl View for ChatSseParser {
    type V = Seq<u8>;

    closed spec fn view(&self) -> Seq<u8> {
        self.buf@
    }
}

pub proof fn lemma_event_end_bound(b: Seq<u8>)
    ensures
        event_end(b) matches Some(k) ==> 2 <= k <= b.len(),
{
    lemma_first_from_bound(b, lf_lf(), 0);
    lemma_first_from_bound(b, crlf_crlf(), 0);
}

impl ChatSseParser {
    pub fn new() -> (p: Self)
        ensures
            p@ == Seq::<u8>::empty(),
    {
        ChatSseParser { buf: Vec::new() }
    }

    /// Appends a chunk, moves the frames of its complete events to `out`,
    /// and says whether `[DONE]` arrived. An incomplete event grown past
    /// `MAX_PENDING_BYTES` is dropped.
    pub fn push(&mut self, chunk: &[u8], out: &mut Vec<SseEvent>) -> (done: bool)
        ensures
            ({
                let d = drain(old(self)@ + chunk@);
                &&& events_view(final(out)@) == events_view(old(out)@) + d.0
                &&& done == d.1
                &&& final(self)@ == if d.2.len() > MAX_PENDING_BYTES {
                    Seq::<u8>::empty()
                } else {
                    d.2
                }
            }),
    {
        let ghost total = self.buf@ + chunk@;
        let ghost out0 = events_view(out@);
        let mut i: usize = 0;
        while i < chunk.len()
            invariant
                i <= chunk@.len(),
                self.buf@ == old(self).buf@ + chunk@.take(i as int),
                out@ == old(out)@,
            decreases chunk@.len() - i,
        {
            self.buf.push(chunk[i]);
            i = i + 1;
            assert(self.buf@ =~= old(self).buf@ + chunk@.take(i as int));
        }
        assert(chunk@.take(chunk@.len() as int) =~= chunk@);
        let mut done = false;
        loop
            invariant_except_break
                !done,
                events_view(out@) + drain(self.buf@).0 == out0 + drain(total).0,
                drain(self.buf@).1 == drain(total).1,
                drain(self.buf@).2 == drain(total).2,
            ensures
                events_view(out@) == out0 + drain(total).0,
                done == drain(total).1,
                self.buf@ == drain(total).2,
            decreases self.buf@.len(),
        {
            let ghost b = self.buf@;
            proof {
                lemma_event_end_bound(b);
            }
            let idx = match find_event_end(self.buf.as_slice()) {
                Some(k) => k,
                None => {
                    assert(drain(b).0 =~= Seq::<(Option<Seq<char>>, Seq<char>)>::empty());
                    assert(events_view(out@) + Seq::<(Option<Seq<char>>, Seq<char>)>::empty()
                        =~= events_view(out@));
                    break;
                },
            };
            let mut ev: Vec<u8> = Vec::new();
            let mut j: usize = 0;
            while j < idx
                invariant
                    j <= idx <= self.buf@.len(),
                    ev@ == self.buf@.take(j as int),
                decreases idx - j,
            {
                ev.push(self.buf[j]);
                j = j + 1;
                assert(ev@ =~= self.buf@.take(j as int));
            }
            let mut rest: Vec<u8> = Vec::new();
            let mut j: usize = idx;
            while j < self.buf.len()
                invariant
                    idx <= j <= self.buf@.len(),
                    rest@ == self.buf@.subrange(idx as int, j as int),
                decreases self.buf@.len() - j,
            {
                rest.push(self.buf[j]);
                j = j + 1;
                assert(rest@ =~= self.buf@.subrange(idx as int, j as int));
            }
            assert(rest@ =~= b.skip(idx as int));
            self.buf = rest;
            match frame_exec(ev.as_slice()) {
                Some((name, data)) => {
                    let d = chars_of(data.as_str());
                    if is(d.as_slice(), "[DONE]") {
                        done = true;
                        proof {
                            assert(drain(b) == (Seq::<(Option<Seq<char>>, Seq<char>)>::empty(), true, b.skip(idx as int)));
                            assert(events_view(out@) + Seq::<(Option<Seq<char>>, Seq<char>)>::empty()
                                =~= events_view(out@));
                        }
                        break;
                    } else {
                        let ghost before = events_view(out@);
                        let e = SseEvent { event: name, data };
                        let ghost ev_v = event_view(e);
                        out.push(e);
                        proof {
                            assert(events_view(out@) =~= before.push(ev_v));
                            assert(drain(b).0 == seq![ev_v] + drain(self.buf@).0);
                            assert(before.push(ev_v) + drain(self.buf@).0 =~= before + (seq![ev_v]
                                + drain(self.buf@).0));
                        }
                    }
                },
                None => {},
            }
        }
        if self.buf.len() > MAX_PENDING_BYTES {
            self.buf.clear();
        }
        done
    }
}

} // verus!

verus! {

/// The `query` string of web-search arguments, when they are complete
/// JSON.
pub open spec fn web_search_query_v(arguments: Seq<char>) -> Option<Seq<char>> {
    match crate::codec::json_parse(crate::text::utf8(arguments)) {
        Some(v) => crate::json::vget_str(v, "query"@),
        None => None,
    }
}

pub fn parse_web_search_query(arguments: &str) -> (r: Option<String>)
    ensures
        match r {
            Some(q) => web_search_query_v(arguments@) == Some(q@),
            None => web_search_query_v(arguments@) is None,
        },
{
    let bytes = crate::text::utf8_bytes(chars_of(arguments).as_slice());
    match crate::codec::parse_json(bytes.as_slice()) {
        Some(v) => match v.get_str("query") {
            Some(q) => Some(q.clone()),
            None => None,
        },
        None => None,
    }
}

/// The message of an in-stream error: `error.message`, `message`,
/// `detail`, the first that is a string, else a fixed sentence.
pub open spec fn stream_error_message(err: JsonV) -> Seq<char> {
    if crate::bridge::as_text(crate::bridge::vget2(err, "error"@, "message"@)) is Some {
        crate::bridge::as_text(crate::bridge::vget2(err, "error"@, "message"@)).unwrap()
    } else if crate::json::vget_str(err, "message"@) is Some {
        crate::json::vget_str(err, "message"@).unwrap()
    } else if crate::json::vget_str(err, "detail"@) is Some {
        crate::json::vget_str(err, "detail"@).unwrap()
    } else {
        "upstream stream error"@
    }
}

/// The code of an in-stream error: `error.code`, else `code`, when a
/// string.
pub open spec fn stream_error_code(err: JsonV) -> Option<Seq<char>> {
    if crate::bridge::as_text(crate::bridge::vget2(err, "error"@, "code"@)) is Some {
        crate::bridge::as_text(crate::bridge::vget2(err, "error"@, "code"@))
    } else {
        crate::json::vget_str(err, "code"@)
    }
}

/// An upstream in-stream error as a Responses error object: a string is
/// the message; an object gives its message and, when it has one, its
/// code; anything else gets the fixed sentence.
pub open spec fn stream_error_v(err: JsonV) -> JsonV {
    let (message, code) = match err {
        JsonV::Str(s) => (s, None),
        JsonV::Object(_) => (stream_error_message(err), stream_error_code(err)),
        _ => ("upstream stream error"@, None),
    };
    match code {
        Some(c) => JsonV::Object(seq![("code"@, JsonV::Str(c)), ("message"@, JsonV::Str(message))]),
        None => JsonV::Object(seq![("message"@, JsonV::Str(message))]),
    }
}

fn get2_str<'a>(j: &'a crate::json::Json, a: &str, b: &str) -> (r: Option<&'a String>)
    ensures
        match r {
            Some(s) => crate::bridge::as_text(crate::bridge::vget2(j@, a@, b@)) == Some(s@),
            None => crate::bridge::as_text(crate::bridge::vget2(j@, a@, b@)) is None,
        },
{
    match j.get(a) {
        Some(x) => x.get_str(b),
        None => None,
    }
}

pub fn extract_stream_error(err: &crate::json::Json) -> (r: crate::json::Json)
    ensures
        r@ == stream_error_v(err@),
{
    let (message, code): (String, Option<String>) = match err {
        crate::json::Json::Str(s) => (s.clone(), None),
        crate::json::Json::Object(_) => {
            let message = match get2_str(err, "error", "message") {
                Some(m) => m.clone(),
                None => match err.get_str("message") {
                    Some(m) => m.clone(),
                    None => match err.get_str("detail") {
                        Some(m) => m.clone(),
                        None => crate::text::owned("upstream stream error"),
                    },
                },
            };
            let code = match get2_str(err, "error", "code") {
                Some(c) => Some(c.clone()),
                None => match err.get_str("code") {
                    Some(c) => Some(c.clone()),
                    None => None,
                },
            };
            (message, code)
        },
        _ => (crate::text::owned("upstream stream error"), None),
    };
    let ghost mv = message@;
    let mut f: Vec<(String, crate::json::Json)> = Vec::new();
    match code {
        Some(c) => {
            let ghost cv = c@;
            f.push((crate::text::owned("code"), crate::json::Json::Str(c)));
            f.push((crate::text::owned("message"), crate::json::Json::Str(message)));
            assert(crate::json::fields_view(f@) =~= seq![
                ("code"@, crate::json::JsonV::Str(cv)),
                ("message"@, crate::json::JsonV::Str(mv)),
            ]);
        },
        None => {
            f.push((crate::text::owned("message"), crate::json::Json::Str(message)));
            assert(crate::json::fields_view(f@) =~= seq![("message"@, crate::json::JsonV::Str(mv))]);
        },
    }
    proof {
        crate::json::lemma_object_view(f);
    }
    crate::json::Json::Object(f)
}

} // verus!

verus! {

/// `p` occurs in `b` at `i`.
pub open spec fn occurs(b: Seq<u8>, p: Seq<u8>, i: int) -> bool {
    0 <= i && i + p.len() <= b.len() && b.subrange(i, i + p.len()) == p
}

proof fn lemma_first_from_min(b: Seq<u8>, p: Seq<u8>, i: int)
    requires
        0 <= i,
        p.len() > 0,
    ensures
        first_from(b, p, i) matches Some(k) ==> occurs(b, p, k) && forall|j: int| i <= j < k ==> !occurs(b, p, j),
        first_from(b, p, i) is None ==> forall|j: int| i <= j ==> !occurs(b, p, j),
    decreases b.len() - i,
{
    if !(i >= b.len() || i + p.len() > b.len()) && b.subrange(i, i + p.len()) != p {
        lemma_first_from_min(b, p, i + 1);
    }
}

/// An event ends with the first blank line of the buffer, whether written
/// `\n\n` or `\r\n\r\n`: the event's bytes end with a blank line and no
/// blank line of either kind ends earlier. Without a blank line there is
/// no complete event.
pub proof fn law_event_end(b: Seq<u8>)
    ensures
        event_end(b) matches Some(k) ==> (occurs(b, lf_lf(), k - 2) || occurs(b, crlf_crlf(), k - 4)),
        event_end(b) matches Some(k) ==> forall|j: int|
            (#[trigger] occurs(b, lf_lf(), j) ==> j + 2 >= k) && (occurs(b, crlf_crlf(), j) ==> j + 4 >= k),
        event_end(b) is None ==> forall|j: int| !#[trigger] occurs(b, lf_lf(), j) && !occurs(b, crlf_crlf(), j),
{
    lemma_first_from_min(b, lf_lf(), 0);
    lemma_first_from_min(b, crlf_crlf(), 0);
    match (first_from(b, lf_lf(), 0), first_from(b, crlf_crlf(), 0)) {
        (Some(i), Some(j)) => {
            if j < i {
                assert forall|x: int| #[trigger] occurs(b, lf_lf(), x) implies x + 2 >= j + 4 by {
                    if x == j + 1 {
                        assert(b.subrange(j, j + 4)[2] == b[j + 2]);
                        assert(b.subrange(x, x + 2)[1] == b[j + 2]);
                    }
                }
            }
        },
        _ => {},
    }
}

} // verus!
