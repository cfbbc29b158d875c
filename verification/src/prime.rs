//! The priming window of a streamed upstream answer: before the gateway
//! commits to a stream it reads the first events and decides whether the
//! upstream produced output, finished, stayed neutral, or sent an error
//! (which lets it switch provider). Also the first-chunk error check and
//! the classification of error bodies.
use vstd::prelude::*;

use crate::codec::{json_parse, parse_json};
use crate::json::{elems_view, vget, vget_arr, vget_str, Json, JsonV};
use crate::proxy::{sniff_lead, sniff_skip, sse_like};
use crate::sse::{event_end, find_event_end, lines, lines_exec, lines_view, lossy_text, utf8_lossy};
use crate::text::{
    ascii_lower_seq, ascii_lowercase, chars_of, contains, has, has_prefix, is, owned, push_all,
    push_str, starts_with, string_from, trim, trim_chars, utf8, utf8_bytes,
};

verus! {

/// Largest incomplete event the window waits for.
pub const STREAM_PRIME_MAX_BYTES: usize = 262144;

/// What the window saw, in increasing rank.
#[derive(Debug, PartialEq, Eq)]
pub enum PrimeSignal {
    Neutral,
    Terminal,
    Productive,
    /// An error frame, with its message.
    Error(String),
}

pub enum SignalV {
    Neutral,
    Terminal,
    Productive,
    Error(Seq<char>),
}

impl View for PrimeSignal {
    type V = SignalV;

    open spec fn view(&self) -> SignalV {
        match self {
            PrimeSignal::Neutral => SignalV::Neutral,
            PrimeSignal::Terminal => SignalV::Terminal,
            PrimeSignal::Productive => SignalV::Productive,
            PrimeSignal::Error(s) => SignalV::Error(s@),
        }
    }
}

pub open spec fn rank(s: SignalV) -> int {
    match s {
        SignalV::Neutral => 0,
        SignalV::Terminal => 1,
        SignalV::Productive => 2,
        SignalV::Error(_) => 3,
    }
}

/// The stronger of two signals (the second on a tie).
pub open spec fn stronger(a: SignalV, b: SignalV) -> SignalV {
    if rank(b) >= rank(a) {
        b
    } else {
        a
    }
}

fn rank_exec(s: &PrimeSignal) -> (r: u8)
    ensures
        r == rank(s@),
{
    match s {
        PrimeSignal::Neutral => 0,
        PrimeSignal::Terminal => 1,
        PrimeSignal::Productive => 2,
        PrimeSignal::Error(_) => 3,
    }
}

fn stronger_exec(a: PrimeSignal, b: PrimeSignal) -> (r: PrimeSignal)
    ensures
        r@ == stronger(a@, b@),
{
    if rank_exec(&b) >= rank_exec(&a) {
        b
    } else {
        a
    }
}

// ---------------------------------------------------------------------------
// Error frames
// ---------------------------------------------------------------------------
pub open spec fn or_default(m: Option<Seq<char>>) -> Seq<char> {
    match m {
        Some(s) => s,
        None => "upstream error"@,
    }
}

/// The message of an error envelope: `{"error": {...}}` with a `message`
/// or a `type`, or `{"type": "error"}` (message from `error.message`, else
/// `upstream error`).
pub open spec fn envelope_message(v: JsonV) -> Option<Seq<char>> {
    let err_obj = match vget(v, "error"@) {
        Some(e) => e is Object && (vget(e, "message"@) is Some || vget(e, "type"@) is Some),
        None => false,
    };
    if err_obj {
        Some(or_default(vget_str(vget(v, "error"@).unwrap(), "message"@)))
    } else if vget_str(v, "type"@) == Some("error"@) {
        Some(
            or_default(
                match vget(v, "error"@) {
                    Some(e) => vget_str(e, "message"@),
                    None => None,
                },
            ),
        )
    } else {
        None
    }
}

fn envelope_message_exec(v: &Json) -> (r: Option<String>)
    ensures
        r matches Some(m) ==> envelope_message(v@) == Some(m@),
        r is None ==> envelope_message(v@) is None,
{
    match v.get("error") {
        Some(e) => {
            if e.is_object() && (e.get("message").is_some() || e.get("type").is_some()) {
                return match e.get_str("message") {
                    Some(m) => Some(m.clone()),
                    None => Some(owned("upstream error")),
                };
            }
        },
        None => {},
    }
    let is_error_type = match v.get_str("type") {
        Some(t) => is(chars_of(t.as_str()).as_slice(), "error"),
        None => false,
    };
    if is_error_type {
        let m = match v.get("error") {
            Some(e) => match e.get_str("message") {
                Some(m) => Some(m.clone()),
                None => None,
            },
            None => None,
        };
        return match m {
            Some(m) => Some(m),
            None => Some(owned("upstream error")),
        };
    }
    None
}

fn with_lead(lead: &str, m: &String) -> (r: String)
    ensures
        r@ == lead@ + m@,
{
    let mut v = chars_of(lead);
    push_all(&mut v, chars_of(m.as_str()).as_slice());
    string_from(v.as_slice())
}

/// Error message of one stream frame: an error envelope, or a frame named
/// `error`.
pub open spec fn frame_error(v: JsonV, event_name: Option<Seq<char>>) -> Option<Seq<char>> {
    match envelope_message(v) {
        Some(m) => Some("upstream returned error payload in stream: "@ + m),
        None => if event_name == Some("error"@) {
            Some("upstream stream emitted a named error event"@)
        } else {
            None
        },
    }
}

pub fn frame_error_message(v: &Json, event_name: Option<&str>) -> (r: Option<String>)
    ensures
        r matches Some(m) ==> frame_error(
            v@,
            match event_name {
                Some(n) => Some(n@),
                None => None,
            },
        ) == Some(m@),
        r is None ==> frame_error(
            v@,
            match event_name {
                Some(n) => Some(n@),
                None => None,
            },
        ) is None,
{
    match envelope_message_exec(v) {
        Some(m) => Some(with_lead("upstream returned error payload in stream: ", &m)),
        None => {
            let named = match event_name {
                Some(n) => is(chars_of(n).as_slice(), "error"),
                None => false,
            };
            if named {
                Some(owned("upstream stream emitted a named error event"))
            } else {
                None
            }
        },
    }
}

// ---------------------------------------------------------------------------
// Signal of one frame
// ---------------------------------------------------------------------------
/// Signal told by a frame's `type` (Anthropic and Responses dialects).
pub open spec fn type_signal(ty: Seq<char>) -> Option<SignalV> {
    if ty == "content_block_delta"@ {
        Some(SignalV::Productive)
    } else if ty == "message_stop"@ {
        Some(SignalV::Terminal)
    } else if has_prefix(ty, "response."@) {
        if has_prefix(ty, "response.output"@) || has_prefix(ty, "response.function_call_arguments"@)
            || has_prefix(ty, "response.reasoning"@) || has_prefix(
            ty,
            "response.custom_tool_call_input"@,
        ) {
            Some(SignalV::Productive)
        } else if ty == "response.completed"@ || ty == "response.incomplete"@ || ty
            == "response.failed"@ || ty == "response.done"@ {
            Some(SignalV::Terminal)
        } else {
            Some(SignalV::Neutral)
        }
    } else {
        None
    }
}

pub open spec fn content_nonempty(d: JsonV) -> bool {
    match vget(d, "content"@) {
        Some(JsonV::Str(s)) => s.len() > 0,
        Some(JsonV::Array(a)) => a.len() > 0,
        _ => false,
    }
}

/// Signal told by one Chat choice: a non-null `finish_reason` ends; a delta
/// with content, reasoning or tool calls is output.
pub open spec fn choice_signal(c: JsonV) -> Option<SignalV> {
    let finished = match vget(c, "finish_reason"@) {
        Some(f) => f != JsonV::Null,
        None => false,
    };
    if finished {
        Some(SignalV::Terminal)
    } else {
        match vget(c, "delta"@) {
            Some(d) => if content_nonempty(d) || (match vget_str(d, "reasoning_content"@) {
                Some(s) => s.len() > 0,
                None => false,
            }) || (match vget_arr(d, "tool_calls"@) {
                Some(a) => a.len() > 0,
                None => false,
            }) {
                Some(SignalV::Productive)
            } else {
                None
            },
            None => None,
        }
    }
}

/// The first choice from `i` on that tells something.
pub open spec fn choices_signal(cs: Seq<JsonV>, i: int) -> Option<SignalV>
    decreases cs.len() - i,
{
    if i < 0 || i >= cs.len() {
        None
    } else {
        match choice_signal(cs[i]) {
            Some(s) => Some(s),
            None => choices_signal(cs, i + 1),
        }
    }
}

/// Signal of one data frame in any of the three dialects; a Chat frame
/// with `usage` ends the answer.
pub open spec fn frame_signal(v: JsonV) -> SignalV {
    match (match vget_str(v, "type"@) {
        Some(ty) => type_signal(ty),
        None => None,
    }) {
        Some(s) => s,
        None => match (match vget_arr(v, "choices"@) {
            Some(cs) => choices_signal(cs, 0),
            None => None,
        }) {
            Some(s) => s,
            None => if vget(v, "usage"@) is Some {
                SignalV::Terminal
            } else {
                SignalV::Neutral
            },
        },
    }
}

fn type_signal_exec(ty: &[char]) -> (r: Option<PrimeSignal>)
    ensures
        r matches Some(s) ==> type_signal(ty@) == Some(s@),
        r is None ==> type_signal(ty@) is None,
{
    if is(ty, "content_block_delta") {
        return Some(PrimeSignal::Productive);
    }
    if is(ty, "message_stop") {
        return Some(PrimeSignal::Terminal);
    }
    if starts_with(ty, chars_of("response.").as_slice()) {
        if starts_with(ty, chars_of("response.output").as_slice()) || starts_with(
            ty,
            chars_of("response.function_call_arguments").as_slice(),
        ) || starts_with(ty, chars_of("response.reasoning").as_slice()) || starts_with(
            ty,
            chars_of("response.custom_tool_call_input").as_slice(),
        ) {
            return Some(PrimeSignal::Productive);
        }
        if is(ty, "response.completed") || is(ty, "response.incomplete") || is(ty, "response.failed")
            || is(ty, "response.done") {
            return Some(PrimeSignal::Terminal);
        }
        return Some(PrimeSignal::Neutral);
    }
    None
}

fn choice_signal_exec(c: &Json) -> (r: Option<PrimeSignal>)
    ensures
        r matches Some(s) ==> choice_signal(c@) == Some(s@),
        r is None ==> choice_signal(c@) is None,
{
    let finished = match c.get("finish_reason") {
        Some(f) => match f {
            Json::Null => false,
            _ => true,
        },
        None => false,
    };
    if finished {
        return Some(PrimeSignal::Terminal);
    }
    match c.get("delta") {
        Some(d) => {
            let content = match d.get("content") {
                Some(Json::Str(s)) => chars_of(s.as_str()).len() > 0,
                Some(Json::Array(a)) => a.len() > 0,
                _ => false,
            };
            let reasoning = match d.get_str("reasoning_content") {
                Some(s) => chars_of(s.as_str()).len() > 0,
                None => false,
            };
            let tools = match d.get("tool_calls") {
                Some(t) => match t.as_array() {
                    Some(a) => a.len() > 0,
                    None => false,
                },
                None => false,
            };
            if content || reasoning || tools {
                Some(PrimeSignal::Productive)
            } else {
                None
            }
        },
        None => None,
    }
}

pub fn prime_signal_of(v: &Json) -> (r: PrimeSignal)
    ensures
        r@ == frame_signal(v@),
{
    let ts = match v.get_str("type") {
        Some(t) => type_signal_exec(chars_of(t.as_str()).as_slice()),
        None => None,
    };
    match ts {
        Some(s) => return s,
        None => {},
    }
    match v.get("choices") {
        Some(c) => match c.as_array() {
            Some(cs) => {
                let ghost cv = elems_view(cs@);
                let mut i: usize = 0;
                while i < cs.len()
                    invariant
                        i <= cs@.len(),
                        cv == elems_view(cs@),
                        vget_arr(v@, "choices"@) == Some(cv),
                        (match vget_str(v@, "type"@) {
                            Some(ty) => type_signal(ty),
                            None => None,
                        }) is None,
                        choices_signal(cv, 0) == choices_signal(cv, i as int),
                    decreases cs@.len() - i,
                {
                    assert(cv[i as int] == cs@[i as int]@);
                    match choice_signal_exec(&cs[i]) {
                        Some(s) => return s,
                        None => {},
                    }
                    i = i + 1;
                }
            },
            None => {},
        },
        None => {},
    }
    if v.get("usage").is_some() {
        PrimeSignal::Terminal
    } else {
        PrimeSignal::Neutral
    }
}

// ---------------------------------------------------------------------------
// The window
// ---------------------------------------------------------------------------
/// The name of the first `event:` line, trimmed.
pub open spec fn first_event_name(ls: Seq<Seq<char>>) -> Option<Seq<char>>
    decreases ls.len(),
{
    if ls.len() == 0 {
        None
    } else if has_prefix(ls[0], "event:"@) {
        Some(trim(ls[0].skip("event:"@.len() as int)))
    } else {
        first_event_name(ls.drop_first())
    }
}

/// One line of an event: `[DONE]` ends the answer; a JSON frame with an
/// error replaces the signal and stops the event; another JSON frame
/// strengthens it. The flag says whether the event stops here.
pub open spec fn line_step(s: SignalV, line: Seq<char>, name: Option<Seq<char>>) -> (SignalV, bool) {
    if !has_prefix(line, "data:"@) {
        (s, false)
    } else {
        let data = trim(line.skip("data:"@.len() as int));
        if data == "[DONE]"@ {
            (stronger(s, SignalV::Terminal), false)
        } else {
            match json_parse(utf8(data)) {
                None => (s, false),
                Some(v) => match frame_error(v, name) {
                    Some(m) => (SignalV::Error(m), true),
                    None => (stronger(s, frame_signal(v)), false),
                },
            }
        }
    }
}

pub open spec fn lines_step(s: SignalV, ls: Seq<Seq<char>>, name: Option<Seq<char>>) -> SignalV
    decreases ls.len(),
{
    if ls.len() == 0 {
        s
    } else {
        let (s1, stop) = line_step(s, ls[0], name);
        if stop {
            s1
        } else {
            lines_step(s1, ls.drop_first(), name)
        }
    }
}

pub open spec fn event_step(s: SignalV, ev: Seq<u8>) -> SignalV {
    let ls = lines(utf8_lossy(ev));
    lines_step(s, ls, first_event_name(ls))
}

/// The signal after the complete events at the front of `b`, and what is
/// left of it.
pub open spec fn window(s: SignalV, b: Seq<u8>) -> (SignalV, Seq<u8>)
    decreases b.len(),
{
    match event_end(b) {
        Some(k) => if 0 < k <= b.len() {
            window(event_step(s, b.take(k)), b.skip(k))
        } else {
            (s, b)
        },
        None => (s, b),
    }
}

/// The priming window's buffer of incomplete event bytes.
pub struct PrimeState {
    buf: Vec<u8>,
}

impl View for PrimeState {
    type V = Seq<u8>;

    closed spec fn view(&self) -> Seq<u8> {
        self.buf@
    }
}

impl Default for PrimeState {
    fn default() -> (p: Self)
        ensures
            p@ == Seq::<u8>::empty(),
    {
        PrimeState { buf: Vec::new() }
    }
}

fn first_event_name_exec(ls: &Vec<Vec<char>>) -> (r: Option<Vec<char>>)
    ensures
        r matches Some(n) ==> first_event_name(lines_view(ls@)) == Some(n@),
        r is None ==> first_event_name(lines_view(ls@)) is None,
{
    let ghost lv = lines_view(ls@);
    let mut i: usize = 0;
    assert(lv.skip(0) =~= lv);
    while i < ls.len()
        invariant
            i <= ls@.len(),
            lv == lines_view(ls@),
            first_event_name(lv) == first_event_name(lv.skip(i as int)),
        decreases ls@.len() - i,
    {
        let ghost t = lv.skip(i as int);
        assert(t[0] == ls@[i as int]@);
        let p = chars_of("event:");
        if starts_with(ls[i].as_slice(), p.as_slice()) {
            let rest = crate::text::slice_range(ls[i].as_slice(), p.len(), ls[i].len());
            assert(rest@ =~= ls@[i as int]@.skip("event:"@.len() as int));
            return Some(trim_chars(rest.as_slice()));
        }
        assert(t.drop_first() =~= lv.skip(i + 1));
        i = i + 1;
    }
    None
}

fn event_step_exec(s: PrimeSignal, ev: &[u8]) -> (r: PrimeSignal)
    ensures
        r@ == event_step(s@, ev@),
{
    let text = lossy_text(ev);
    let ls = lines_exec(chars_of(text.as_str()).as_slice());
    let ghost lv = lines_view(ls@);
    let name = first_event_name_exec(&ls);
    let name_str: Option<String> = match &name {
        Some(n) => Some(string_from(n.as_slice())),
        None => None,
    };
    let ghost nv: Option<Seq<char>> = match name {
        Some(n) => Some(n@),
        None => None,
    };
    let mut sig = s;
    let mut i: usize = 0;
    assert(lv.skip(0) =~= lv);
    while i < ls.len()
        invariant
            i <= ls@.len(),
            lv == lines_view(ls@),
            lv == lines(utf8_lossy(ev@)),
            nv == first_event_name(lv),
            name_str matches Some(n) ==> nv == Some(n@),
            name_str is None ==> nv is None,
            lines_step(s@, lv, nv) == lines_step(sig@, lv.skip(i as int), nv),
        decreases ls@.len() - i,
    {
        let ghost t = lv.skip(i as int);
        assert(t[0] == ls@[i as int]@);
        assert(t.drop_first() =~= lv.skip(i + 1));
        let p = chars_of("data:");
        if starts_with(ls[i].as_slice(), p.as_slice()) {
            let rest = crate::text::slice_range(ls[i].as_slice(), p.len(), ls[i].len());
            assert(rest@ =~= ls@[i as int]@.skip("data:"@.len() as int));
            let data = trim_chars(rest.as_slice());
            if is(data.as_slice(), "[DONE]") {
                sig = stronger_exec(sig, PrimeSignal::Terminal);
            } else {
                let bytes = utf8_bytes(data.as_slice());
                match parse_json(bytes.as_slice()) {
                    None => {},
                    Some(v) => {
                        let nm: Option<&str> = match &name_str {
                            Some(n) => Some(n.as_str()),
                            None => None,
                        };
                        assert((match nm {
                            Some(n) => Some(n@),
                            None => None,
                        }) == nv);
                        match frame_error_message(&v, nm) {
                            Some(m) => {
                                assert(line_step(sig@, t[0], nv) == (SignalV::Error(m@), true));
                                assert(lines_step(sig@, t, nv) == SignalV::Error(m@));
                                return PrimeSignal::Error(m);
                            },
                            None => {
                                sig = stronger_exec(sig, prime_signal_of(&v));
                            },
                        }
                    },
                }
            }
        }
        i = i + 1;
    }
    sig
}

impl PrimeState {
    pub fn new() -> (p: Self)
        ensures
            p@ == Seq::<u8>::empty(),
    {
        PrimeState { buf: Vec::new() }
    }

    /// Adds a chunk and reads its complete events (see `window`); an
    /// incomplete event past `STREAM_PRIME_MAX_BYTES` counts as output.
    pub fn feed(&mut self, chunk: &[u8]) -> (r: PrimeSignal)
        ensures
            ({
                let w = window(SignalV::Neutral, old(self)@ + chunk@);
                &&& final(self)@ == w.1
                &&& r@ == if w.1.len() > STREAM_PRIME_MAX_BYTES {
                    stronger(w.0, SignalV::Productive)
                } else {
                    w.0
                }
            }),
    {
        let ghost total = self.buf@ + chunk@;
        let mut i: usize = 0;
        while i < chunk.len()
            invariant
                i <= chunk@.len(),
                self.buf@ == old(self).buf@ + chunk@.take(i as int),
            decreases chunk@.len() - i,
        {
            self.buf.push(chunk[i]);
            i = i + 1;
            assert(self.buf@ =~= old(self).buf@ + chunk@.take(i as int));
        }
        assert(chunk@.take(chunk@.len() as int) =~= chunk@);
        let mut sig = PrimeSignal::Neutral;
        loop
            invariant
                window(SignalV::Neutral, total) == window(sig@, self.buf@),
            ensures
                window(SignalV::Neutral, total) == (sig@, self.buf@),
            decreases self.buf@.len(),
        {
            let ghost b = self.buf@;
            proof {
                crate::sse::lemma_event_end_bound(b);
            }
            let idx = match find_event_end(self.buf.as_slice()) {
                Some(k) => k,
                None => break,
            };
            let mut ev: Vec<u8> = Vec::new();
            let mut j: usize = 0;
            while j < idx
                invariant
                    j <= idx <= self.buf@.len(),
                    ev@ == self.buf@.take(j as int),
                decreases idx - j,
            {
                ev.push(self.buf[j]);
                j = j + 1;
                assert(ev@ =~= self.buf@.take(j as int));
            }
            let mut rest: Vec<u8> = Vec::new();
            let mut j: usize = idx;
            while j < self.buf.len()
                invariant
                    idx <= j <= self.buf@.len(),
                    rest@ == self.buf@.subrange(idx as int, j as int),
                decreases self.buf@.len() - j,
            {
                rest.push(self.buf[j]);
                j = j + 1;
                assert(rest@ =~= self.buf@.subrange(idx as int, j as int));
            }
            assert(rest@ =~= b.skip(idx as int));
            self.buf = rest;
            sig = event_step_exec(sig, ev.as_slice());
        }
        if self.buf.len() > STREAM_PRIME_MAX_BYTES {
            return stronger_exec(sig, PrimeSignal::Productive);
        }
        sig
    }
}

// ---------------------------------------------------------------------------
// First chunk
// ---------------------------------------------------------------------------
pub open spec fn payload_skip(b: u8) -> bool {
    b == 0x20 || b == 0x09 || b == 0x0D
}

pub open spec fn payload_lead(s: Seq<u8>) -> nat
    decreases s.len(),
{
    if s.len() > 0 && payload_skip(s[0]) {
        1 + payload_lead(s.drop_first())
    } else {
        0
    }
}

/// Position of the first `\n` at or after `i`.
pub open spec fn lf_from(s: Seq<u8>, i: int) -> int
    decreases s.len() - i,
{
    if i < 0 || i >= s.len() {
        s.len() as int
    } else if s[i] == 10 {
        i
    } else {
        lf_from(s, i + 1)
    }
}

/// The JSON payload a first chunk carries: after leading space, CR, LF
/// and BOM bytes, the first `data:` line (or the whole chunk), without its
/// leading space, tab and CR bytes; none for an empty or comment chunk.
pub open spec fn first_payload(b: Seq<u8>) -> Option<Seq<u8>> {
    let t = b.skip(sniff_lead(b) as int);
    if t.len() == 0 || t[0] == 58 {
        None
    } else {
        let p = if crate::proxy::bytes_prefix(t, seq![100u8, 97u8, 116u8, 97u8, 58u8]) {
            let rest = t.skip(5);
            rest.take(lf_from(rest, 0))
        } else {
            t
        };
        let q = p.skip(payload_lead(p) as int);
        if q.len() == 0 {
            None
        } else {
            Some(q)
        }
    }
}

/// The error a first chunk reports instead of output.
pub open spec fn first_error(b: Seq<u8>) -> Option<Seq<char>> {
    match first_payload(b) {
        Some(p) => match json_parse(p) {
            Some(v) => match envelope_message(v) {
                Some(m) => Some("upstream returned error payload in first chunk: "@ + m),
                None => None,
            },
            None => None,
        },
        None => None,
    }
}

proof fn lemma_payload_lead(s: Seq<u8>, n: int)
    requires
        0 <= n <= s.len(),
        forall|k: int| 0 <= k < n ==> payload_skip(#[trigger] s[k]),
        n == s.len() || !payload_skip(s[n]),
    ensures
        payload_lead(s) == n,
    decreases n,
{
    if n > 0 {
        let t = s.drop_first();
        assert forall|k: int| 0 <= k < n - 1 implies payload_skip(#[trigger] t[k]) by {
            assert(t[k] == s[k + 1]);
        }
        if n - 1 < t.len() {
            assert(t[n - 1] == s[n]);
        }
        lemma_payload_lead(t, n - 1);
    }
}

fn first_payload_exec(b: &[u8]) -> (r: Option<Vec<u8>>)
    ensures
        r matches Some(p) ==> first_payload(b@) == Some(p@),
        r is None ==> first_payload(b@) is None,
{
    let n = b.len();
    let mut i: usize = 0;
    while i < n && (b[i] == 0x20 || b[i] == 0x09 || b[i] == 0x0D || b[i] == 0x0A || b[i] == 0xEF)
        invariant
            n == b@.len(),
            i <= n,
            forall|k: int| 0 <= k < i ==> sniff_skip(#[trigger] b@[k]),
        decreases n - i,
    {
        i = i + 1;
    }
    proof {
        crate::proxy::lemma_sniff_lead(b@, i as int);
    }
    let ghost t = b@.skip(i as int);
    if i == n || b[i] == 58u8 {
        return None;
    }
    assert(t[0] == b@[i as int]);
    let data: [u8; 5] = [100u8, 97u8, 116u8, 97u8, 58u8];
    assert(data@ =~= seq![100u8, 97u8, 116u8, 97u8, 58u8]);
    let (start, end) = if crate::proxy::bytes_start_with(b, i, data.as_slice()) {
        let s = i + 5;
        let mut e = s;
        let ghost rest = t.skip(5);
        assert(rest =~= b@.skip(s as int));
        assert(rest.skip(0) =~= rest);
        while e < n && b[e] != 10u8
            invariant
                s <= e <= n == b@.len(),
                rest == b@.skip(s as int),
                lf_from(rest, 0) == lf_from(rest, e - s),
            decreases n - e,
        {
            assert(rest[e - s] == b@[e as int]);
            e = e + 1;
        }
        proof {
            if e < n {
                assert(rest[e - s] == b@[e as int]);
            }
            assert(rest.take(lf_from(rest, 0)) =~= b@.subrange(s as int, e as int));
        }
        (s, e)
    } else {
        assert(t =~= b@.subrange(i as int, n as int));
        (i, n)
    };
    let ghost p = b@.subrange(start as int, end as int);
    let mut j = start;
    while j < end && (b[j] == 0x20 || b[j] == 0x09 || b[j] == 0x0D)
        invariant
            start <= j <= end <= n == b@.len(),
            p == b@.subrange(start as int, end as int),
            forall|k: int| start <= k < j ==> payload_skip(#[trigger] b@[k]),
        decreases end - j,
    {
        j = j + 1;
    }
    proof {
        assert forall|k: int| 0 <= k < j - start implies payload_skip(#[trigger] p[k]) by {
            assert(p[k] == b@[k + start]);
        }
        if j < end {
            assert(p[j - start] == b@[j as int]);
        }
        lemma_payload_lead(p, j - start);
        assert(p.skip(j - start) =~= b@.subrange(j as int, end as int));
    }
    if j == end {
        return None;
    }
    let mut q: Vec<u8> = Vec::new();
    let mut k = j;
    while k < end
        invariant
            j <= k <= end <= b@.len(),
            q@ == b@.subrange(j as int, k as int),
        decreases end - k,
    {
        q.push(b[k]);
        k = k + 1;
        assert(q@ =~= b@.subrange(j as int, k as int));
    }
    Some(q)
}

/// The error a first stream chunk reports (see `first_error`).
pub fn first_chunk_error(bytes: &[u8]) -> (r: Option<String>)
    ensures
        r matches Some(m) ==> first_error(bytes@) == Some(m@),
        r is None ==> first_error(bytes@) is None,
{
    let p = match first_payload_exec(bytes) {
        Some(p) => p,
        None => return None,
    };
    let v = match parse_json(p.as_slice()) {
        Some(v) => v,
        None => return None,
    };
    match envelope_message_exec(&v) {
        Some(m) => Some(with_lead("upstream returned error payload in first chunk: ", &m)),
        None => None,
    }
}

// ---------------------------------------------------------------------------
// Error body classification
// ---------------------------------------------------------------------------
pub open spec fn ascii_graphic_or_space(b: u8) -> bool {
    (0x21 <= b <= 0x7E) || b == 0x20 || b == 0x09 || b == 0x0A || b == 0x0C || b == 0x0D
}

pub open spec fn head_of(body: Seq<u8>) -> Seq<u8> {
    if body.len() <= 512 {
        body
    } else {
        body.take(512)
    }
}

/// The kind of an upstream error body, for diagnostics only.
pub open spec fn body_kind(body: Seq<u8>) -> Seq<char> {
    if body.len() == 0 {
        "empty"@
    } else if json_parse(body) is Some {
        "json"@
    } else if sse_like(body) {
        "sse"@
    } else if !(forall|i: int| 0 <= i < head_of(body).len() ==> ascii_graphic_or_space(
        #[trigger] head_of(body)[i],
    )) {
        "binary"@
    } else {
        let s = ascii_lower_seq(utf8_lossy(head_of(body)));
        if contains(s, "<html"@) || contains(s, "<!doctype"@) {
            "html"@
        } else {
            "text"@
        }
    }
}

pub fn classify_upstream_body(body: &[u8]) -> (r: &'static str)
    ensures
        r@ == body_kind(body@),
{
    if body.len() == 0 {
        return "empty";
    }
    if parse_json(body).is_some() {
        return "json";
    }
    if crate::proxy::looks_like_sse(body) {
        return "sse";
    }
    let n: usize = if body.len() <= 512 {
        body.len()
    } else {
        512
    };
    let mut head: Vec<u8> = Vec::new();
    let mut i: usize = 0;
    assert(head_of(body@).len() == n);
    while i < n
        invariant
            i <= n <= body@.len(),
            head_of(body@).len() == n,
            body@.len() > 0,
            json_parse(body@) is None,
            !sse_like(body@),
            n <= 512,
            n == body@.len() || n == 512,
            head@ == body@.take(i as int),
            forall|k: int| 0 <= k < i ==> ascii_graphic_or_space(#[trigger] body@[k]),
        decreases n - i,
    {
        let c = body[i];
        if !((0x21 <= c && c <= 0x7E) || c == 0x20 || c == 0x09 || c == 0x0A || c == 0x0C || c
            == 0x0D) {
            assert(head_of(body@)[i as int] == body@[i as int]);
            assert(!ascii_graphic_or_space(head_of(body@)[i as int]));
            return "binary";
        }
        head.push(c);
        i = i + 1;
        assert(head@ =~= body@.take(i as int));
    }
    assert(head@ =~= head_of(body@));
    assert forall|k: int| 0 <= k < head_of(body@).len() implies ascii_graphic_or_space(
        #[trigger] head_of(body@)[k],
    ) by {
        assert(head_of(body@)[k] == body@[k]);
    }
    let s = ascii_lowercase(chars_of(lossy_text(head.as_slice()).as_str()).as_slice());
    if has(s.as_slice(), "<html") || has(s.as_slice(), "<!doctype") {
        "html"
    } else {
        "text"
    }
}

} // verus!
