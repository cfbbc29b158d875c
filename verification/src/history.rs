//! Conversation history for `previous_response_id` on converted Responses
//! requests: the output items of finished responses, kept in memory in
//! least-recently-used order, and prepended to the input of a request that
//! refers to them.
use vstd::prelude::*;
use vstd::hash_map::StringHashMap;

use crate::codec::{json_text, to_json_bytes};
use crate::json::{
    deep_clone, elems_view, fields_view, lemma_array_view, lemma_object_view, remove_field,
    set_field, vget, vget_str, Json, JsonV,
};
use crate::text::{
    chars_of, has_prefix, owned, push_all, push_str, seq_eq, starts_with, string_from, trim,
    trim_chars, utf8_bytes, utf8_len,
};

verus! {

/// Most responses kept.
pub const MAX_ENTRIES: usize = 512;

/// Largest entry kept: its items as JSON text, in bytes.
pub const MAX_ENTRY_BYTES: usize = 2097152;

/// An id the gateway could have made: `resp_` and 8 to 123 bytes more.
pub open spec fn plausible(id: Seq<char>) -> bool {
    has_prefix(id, "resp_"@) && 13 <= utf8_len(id) <= 128
}

pub fn plausible_response_id(id: &str) -> (r: bool)
    ensures
        r == plausible(id@),
{
    let c = chars_of(id);
    let n = utf8_bytes(c.as_slice()).len();
    proof {
        crate::text::lemma_utf8_len(id@);
    }
    starts_with(c.as_slice(), chars_of("resp_").as_slice()) && n >= 13 && n <= 128
}

/// Position of `id` in `order` (its length when absent).
pub open spec fn pos_of(order: Seq<Seq<char>>, id: Seq<char>) -> int
    decreases order.len(),
{
    if order.len() == 0 || order[0] == id {
        0
    } else {
        1 + pos_of(order.drop_first(), id)
    }
}

/// `order` with `id` moved to the back (most recently used), when present.
pub open spec fn to_back(order: Seq<Seq<char>>, id: Seq<char>) -> Seq<Seq<char>> {
    let p = pos_of(order, id);
    if p < order.len() {
        order.remove(p).push(id)
    } else {
        order
    }
}

/// The store: ids from least to most recently used, and their items.
pub struct HistV {
    pub order: Seq<Seq<char>>,
    pub items: Map<Seq<char>, JsonV>,
}

/// Whether `items` can be kept under `id`: a plausible id and a non-empty
/// array within the size cap.
pub open spec fn accepted(id: Seq<char>, items: JsonV) -> bool {
    plausible(id) && (match items {
        JsonV::Array(a) => a.len() > 0,
        _ => false,
    }) && json_text(items).len() <= MAX_ENTRY_BYTES
}

/// The store after recording `items` under `id`: kept only for a plausible
/// id and a non-empty array within the size cap; a new id enters as most
/// recently used and the least recently used entry leaves past capacity.
pub open spec fn recorded(h: HistV, id: Seq<char>, items: JsonV) -> HistV {
    if !accepted(id, items) {
        h
    } else if h.items.contains_key(id) {
        HistV { order: to_back(h.order, id), items: h.items.insert(id, items) }
    } else {
        let o1 = h.order.push(id);
        let m1 = h.items.insert(id, items);
        if o1.len() > MAX_ENTRIES {
            HistV { order: to_back(o1.drop_first(), id), items: m1.remove(o1[0]) }
        } else {
            HistV { order: to_back(o1, id), items: m1 }
        }
    }
}

/// The store after looking `id` up: it becomes most recently used.
pub open spec fn touched(h: HistV, id: Seq<char>) -> HistV {
    HistV { order: to_back(h.order, id), items: h.items }
}

/// Responses history, least recently used first.
pub struct ResponseHistoryStore {
    order: Vec<String>,
    map: StringHashMap<Json>,
}

impl View for ResponseHistoryStore {
    type V = HistV;

    closed spec fn view(&self) -> HistV {
        HistV {
            order: self.order@.map_values(|s: String| s@),
            items: self.map@.map_values(|j: Json| j@),
        }
    }
}

/// Each id once, the order naming exactly the stored ids, within capacity.
pub open spec fn hist_wf(h: HistV) -> bool {
    &&& h.order.no_duplicates()
    &&& forall|k: Seq<char>| h.items.contains_key(k) <==> h.order.contains(k)
    &&& h.order.len() <= MAX_ENTRIES
}

proof fn lemma_pos_of(order: Seq<Seq<char>>, id: Seq<char>, i: int)
    requires
        0 <= i <= order.len(),
        forall|j: int| 0 <= j < i ==> order[j] != id,
        i < order.len() ==> order[i] == id,
    ensures
        pos_of(order, id) == i,
    decreases i,
{
    if i > 0 {
        assert forall|j: int| 0 <= j < i - 1 implies order.drop_first()[j] != id by {
            assert(order.drop_first()[j] == order[j + 1]);
        }
        lemma_pos_of(order.drop_first(), id, i - 1);
    }
}

proof fn lemma_to_back_wf(order: Seq<Seq<char>>, id: Seq<char>)
    requires
        order.no_duplicates(),
    ensures
        to_back(order, id).no_duplicates(),
        to_back(order, id).len() == order.len(),
        forall|k: Seq<char>| to_back(order, id).contains(k) <==> order.contains(k),
    decreases order.len(),
{
    let p = pos_of(order, id);
    lemma_pos_bound(order, id);
    if p < order.len() {
        let r = order.remove(p);
        assert forall|k: Seq<char>| r.push(id).contains(k) <==> order.contains(k) by {
            if order.contains(k) {
                let j = choose|j: int| 0 <= j < order.len() && order[j] == k;
                if j < p {
                    assert(r.push(id)[j] == k);
                } else if j > p {
                    assert(r.push(id)[j - 1] == k);
                } else {
                    assert(r.push(id)[r.len() as int] == k);
                }
            }
            if r.push(id).contains(k) {
                let j = choose|j: int| 0 <= j < r.push(id).len() && r.push(id)[j] == k;
                if j == r.len() {
                    assert(order[p] == k);
                } else if j < p {
                    assert(order[j] == k);
                } else {
                    assert(order[j + 1] == k);
                }
            }
        }
        assert(r.push(id).no_duplicates()) by {
            let s = r.push(id);
            assert forall|a: int, b: int| 0 <= a < s.len() && 0 <= b < s.len() && a != b implies s[a]
                != s[b] by {
                let oa = if a == r.len() { p } else if a < p { a } else { a + 1 };
                let ob = if b == r.len() { p } else if b < p { b } else { b + 1 };
                assert(s[a] == order[oa]);
                assert(s[b] == order[ob]);
            }
        }
    }
}

proof fn lemma_pos_bound(order: Seq<Seq<char>>, id: Seq<char>)
    ensures
        0 <= pos_of(order, id) <= order.len(),
        pos_of(order, id) < order.len() ==> order[pos_of(order, id)] == id,
        pos_of(order, id) == order.len() ==> !order.contains(id),
    decreases order.len(),
{
    if order.len() > 0 && order[0] != id {
        lemma_pos_bound(order.drop_first(), id);
        if pos_of(order, id) == order.len() {
            assert forall|j: int| 0 <= j < order.len() implies order[j] != id by {
                if j > 0 {
                    assert(order[j] == order.drop_first()[j - 1]);
                }
            }
        }
    }
}

proof fn lemma_touched_wf(h: HistV, id: Seq<char>)
    requires
        hist_wf(h),
    ensures
        hist_wf(touched(h, id)),
{
    lemma_to_back_wf(h.order, id);
    let t = touched(h, id);
    assert forall|k: Seq<char>| t.items.contains_key(k) <==> t.order.contains(k) by {
        assert(h.items.contains_key(k) <==> h.order.contains(k));
        assert(t.order.contains(k) <==> h.order.contains(k));
    }
}

proof fn lemma_drop_front(o1: Seq<Seq<char>>, m1: Map<Seq<char>, JsonV>)
    requires
        o1.no_duplicates(),
        forall|k: Seq<char>| m1.contains_key(k) <==> o1.contains(k),
        o1.len() > 0,
    ensures
        o1.drop_first().no_duplicates(),
        forall|k: Seq<char>| m1.remove(o1[0]).contains_key(k) <==> o1.drop_first().contains(k),
{
    let o2 = o1.drop_first();
    let m2 = m1.remove(o1[0]);
    assert forall|a: int, b: int| 0 <= a < o2.len() && 0 <= b < o2.len() && a != b implies o2[a]
        != o2[b] by {
        assert(o2[a] == o1[a + 1]);
        assert(o2[b] == o1[b + 1]);
    }
    assert forall|k: Seq<char>| m2.contains_key(k) <==> o2.contains(k) by {
        if o2.contains(k) {
            let j = choose|j: int| 0 <= j < o2.len() && o2[j] == k;
            assert(o1[j + 1] == k);
            assert(o1.contains(k));
            assert(o1[0] != o1[j + 1]);
            assert(m1.contains_key(k));
        }
        if m2.contains_key(k) {
            assert(m1.contains_key(k));
            assert(o1.contains(k));
            let j = choose|j: int| 0 <= j < o1.len() && o1[j] == k;
            assert(j != 0);
            assert(o2[j - 1] == k);
        }
    }
}

fn find_pos(order: &Vec<String>, id: &str) -> (r: usize)
    ensures
        r == pos_of(order@.map_values(|s: String| s@), id@),
{
    let ghost ov = order@.map_values(|s: String| s@);
    let ic = chars_of(id);
    let mut i: usize = 0;
    while i < order.len()
        invariant
            i <= order@.len(),
            ov == order@.map_values(|s: String| s@),
            ic@ == id@,
            forall|j: int| 0 <= j < i ==> ov[j] != id@,
        decreases order@.len() - i,
    {
        if seq_eq(chars_of(order[i].as_str()).as_slice(), ic.as_slice()) {
            proof {
                lemma_pos_of(ov, id@, i as int);
            }
            return i;
        }
        i = i + 1;
    }
    proof {
        lemma_pos_of(ov, id@, i as int);
    }
    i
}

impl ResponseHistoryStore {
    pub fn new() -> (s: Self)
        ensures
            s@.order == Seq::<Seq<char>>::empty(),
            s@.items == Map::<Seq<char>, JsonV>::empty(),
            hist_wf(s@),
    {
        let s = ResponseHistoryStore { order: Vec::new(), map: StringHashMap::new() };
        assert(s@.order =~= Seq::<Seq<char>>::empty());
        assert(s@.items =~= Map::<Seq<char>, JsonV>::empty());
        s
    }

    pub fn len(&self) -> (n: usize)
        requires
            hist_wf(self@),
        ensures
            n == self@.items.len(),
    {
        proof {
            self.lemma_len();
        }
        self.order.len()
    }

    proof fn lemma_len(&self)
        requires
            hist_wf(self@),
        ensures
            self@.items.len() == self.order@.len(),
    {
        let h = self@;
        assert(h.items.dom() =~= h.order.to_set());
        h.order.unique_seq_to_set();
    }

    pub fn is_empty(&self) -> (b: bool)
        requires
            hist_wf(self@),
        ensures
            b == (self@.items.len() == 0),
    {
        self.len() == 0
    }

    fn move_to_back(&mut self, id: &str)
        requires
            hist_wf(old(self)@),
        ensures
            final(self)@ == touched(old(self)@, id@),
            hist_wf(final(self)@),
    {
        let ghost ov = self@.order;
        let p = find_pos(&self.order, id);
        proof {
            lemma_pos_bound(ov, id@);
            lemma_to_back_wf(ov, id@);
        }
        if p < self.order.len() {
            let k = self.order.remove(p);
            assert(k@ == id@);
            self.order.push(k);
            assert(self@.order =~= ov.remove(p as int).push(id@));
        }
        proof {
            lemma_touched_wf(old(self)@, id@);
        }
    }

    /// Keeps `items` under `id` (see `recorded`).
    pub fn record(&mut self, response_id: &str, items: Json)
        requires
            hist_wf(old(self)@),
        ensures
            final(self)@ == recorded(old(self)@, response_id@, items@),
            hist_wf(final(self)@),
    {
        if !plausible_response_id(response_id) {
            return;
        }
        let nonempty = match &items {
            Json::Array(a) => a.len() > 0,
            _ => false,
        };
        if !nonempty {
            proof {
                lemma_array_nonempty(items);
            }
            return;
        }
        proof {
            lemma_array_nonempty(items);
        }
        if to_json_bytes(&items).len() > MAX_ENTRY_BYTES {
            return;
        }
        let ghost h0 = self@;
        let ghost iv = items@;
        if self.map.contains_key(response_id) {
            self.map.insert(owned(response_id), items);
            assert(self@.items =~= h0.items.insert(response_id@, iv));
            self.move_to_back(response_id);
        } else {
            self.map.insert(owned(response_id), items);
            self.order.push(owned(response_id));
            let ghost o1 = h0.order.push(response_id@);
            let ghost m1 = h0.items.insert(response_id@, iv);
            assert(self@.order =~= o1);
            assert(self@.items =~= m1);
            assert(o1.no_duplicates()) by {
                assert forall|a: int, b: int| 0 <= a < o1.len() && 0 <= b < o1.len() && a != b implies o1[a]
                    != o1[b] by {
                    if a == h0.order.len() {
                        assert(h0.order.contains(o1[b]));
                    } else if b == h0.order.len() {
                        assert(h0.order.contains(o1[a]));
                    }
                }
            }
            assert forall|k: Seq<char>| m1.contains_key(k) <==> o1.contains(k) by {
                if k != response_id@ && o1.contains(k) {
                    let j = choose|j: int| 0 <= j < o1.len() && o1[j] == k;
                    assert(h0.order[j] == k);
                }
                if h0.order.contains(k) {
                    let j = choose|j: int| 0 <= j < h0.order.len() && h0.order[j] == k;
                    assert(o1[j] == k);
                }
                if k == response_id@ {
                    assert(o1[h0.order.len() as int] == k);
                }
            }
            if self.order.len() > MAX_ENTRIES {
                let evicted = self.order.remove(0);
                self.map.remove(evicted.as_str());
                let ghost o2 = o1.drop_first();
                let ghost m2 = m1.remove(o1[0]);
                assert(self@.order =~= o2);
                assert(self@.items =~= m2);
                proof {
                    lemma_drop_front(o1, m1);
                }
            }
            self.move_to_back(response_id);
        }
    }

    /// The items kept under `id`, which becomes most recently used.
    pub fn restore(&mut self, response_id: &str) -> (r: Option<Json>)
        requires
            hist_wf(old(self)@),
        ensures
            final(self)@ == touched(old(self)@, response_id@),
            hist_wf(final(self)@),
            r matches Some(j) ==> old(self)@.items.contains_key(response_id@) && j@ == old(
                self,
            )@.items[response_id@],
            r is None ==> !old(self)@.items.contains_key(response_id@),
    {
        self.move_to_back(response_id);
        match self.map.get(response_id) {
            Some(j) => Some(deep_clone(j)),
            None => None,
        }
    }
}

proof fn lemma_array_nonempty(items: Json)
    ensures
        (match items {
            Json::Array(a) => a.len() > 0,
            _ => false,
        }) == (match items@ {
            JsonV::Array(a) => a.len() > 0,
            _ => false,
        }),
{
    if let Json::Array(a) = items {
        lemma_array_view(a);
    }
}

/// What a recorded entry gives back: recording accepted items and then
/// restoring the same id returns exactly those items.
pub proof fn law_restore_after_record(h: HistV, id: Seq<char>, items: JsonV)
    requires
        hist_wf(h),
        plausible(id),
        items is Array && items->Array_0.len() > 0,
        json_text(items).len() <= MAX_ENTRY_BYTES,
    ensures
        recorded(h, id, items).items.contains_key(id),
        recorded(h, id, items).items[id] == items,
{
    if !h.items.contains_key(id) {
        let o1 = h.order.push(id);
        if o1.len() > MAX_ENTRIES {
            assert(o1[0] != id) by {
                assert(o1.len() > 1);
                assert(h.order.contains(o1[0]));
            }
        }
    }
}

/// The store never holds more than its capacity, and its order names each
/// stored id exactly once, whatever is recorded or restored.
pub proof fn law_history_stays_well_formed(h: HistV, id: Seq<char>, items: JsonV)
    requires
        hist_wf(h),
    ensures
        hist_wf(touched(h, id)),
{
    lemma_touched_wf(h, id);
}

/// Pushing an id that is not yet stored keeps the store well formed.
proof fn lemma_push_new(h: HistV, id: Seq<char>, items: JsonV)
    requires
        hist_wf(h),
        !h.items.contains_key(id),
    ensures
        h.order.push(id).no_duplicates(),
        forall|k: Seq<char>| h.items.insert(id, items).contains_key(k) <==> h.order.push(id).contains(k),
{
    let o1 = h.order.push(id);
    let m1 = h.items.insert(id, items);
    assert forall|a: int, b: int| 0 <= a < o1.len() && 0 <= b < o1.len() && a != b implies o1[a]
        != o1[b] by {
        if a == h.order.len() {
            assert(h.order.contains(o1[b]));
        } else if b == h.order.len() {
            assert(h.order.contains(o1[a]));
        }
    }
    assert forall|k: Seq<char>| m1.contains_key(k) <==> o1.contains(k) by {
        if k != id && o1.contains(k) {
            let j = choose|j: int| 0 <= j < o1.len() && o1[j] == k;
            assert(h.order[j] == k);
        }
        if h.order.contains(k) {
            let j = choose|j: int| 0 <= j < h.order.len() && h.order[j] == k;
            assert(o1[j] == k);
        }
        if k == id {
            assert(o1[h.order.len() as int] == k);
        }
    }
}

/// Moving the last id, held once, to the back changes nothing.
proof fn lemma_to_back_last(o: Seq<Seq<char>>, id: Seq<char>)
    requires
        o.len() > 0,
        o.last() == id,
        o.no_duplicates(),
    ensures
        to_back(o, id) == o,
{
    lemma_pos_of(o, id, o.len() - 1);
    assert(o.remove(o.len() - 1).push(id) =~= o);
}

/// Recording keeps the store well formed.
proof fn lemma_recorded_wf(h: HistV, id: Seq<char>, items: JsonV)
    requires
        hist_wf(h),
    ensures
        hist_wf(recorded(h, id, items)),
{
    if accepted(id, items) {
        if h.items.contains_key(id) {
            lemma_touched_wf(HistV { order: h.order, items: h.items.insert(id, items) }, id);
        } else {
            lemma_push_new(h, id, items);
            let o1 = h.order.push(id);
            let m1 = h.items.insert(id, items);
            if o1.len() > MAX_ENTRIES {
                lemma_drop_front(o1, m1);
                lemma_touched_wf(HistV { order: o1.drop_first(), items: m1.remove(o1[0]) }, id);
            } else {
                lemma_touched_wf(HistV { order: o1, items: m1 }, id);
            }
        }
    }
}

/// The store after recording `vals[j]` under `ids[j]` for each `j < k`, in
/// order.
pub open spec fn recorded_all(h: HistV, ids: Seq<Seq<char>>, vals: Seq<JsonV>, k: int) -> HistV
    decreases k,
{
    if k <= 0 {
        h
    } else {
        let p = recorded_all(h, ids, vals, k - 1);
        recorded(p, ids[k - 1], vals[k - 1])
    }
}

/// After a successful record, the id is the most recently used entry.
proof fn lemma_recorded_last(h: HistV, id: Seq<char>, items: JsonV)
    requires
        hist_wf(h),
        accepted(id, items),
    ensures
        recorded(h, id, items).order.len() > 0,
        recorded(h, id, items).order.last() == id,
{
    let r = recorded(h, id, items);
    if h.items.contains_key(id) {
        assert(h.order.contains(id));
        lemma_pos_bound(h.order, id);
    } else {
        let o1 = h.order.push(id);
        if o1.len() > MAX_ENTRIES {
            let o2 = o1.drop_first();
            assert(o2.last() == id);
            lemma_pos_bound(o2, id);
        } else {
            lemma_pos_bound(o1, id);
        }
    }
}

/// What holds of the store after `k` further records: it is well formed,
/// and while it still holds `id`, exactly those `k` ids come after it.
pub open spec fn eviction_inv(h0: HistV, id: Seq<char>, fresh: Seq<Seq<char>>, vals: Seq<JsonV>, k: int) -> bool {
    let hk = recorded_all(h0, fresh, vals, k);
    &&& hist_wf(hk)
    &&& hk.items.contains_key(id) ==> exists|a: Seq<Seq<char>>| hk.order == a + seq![id] + fresh.take(k)
}

/// Later ids: distinct, other than `id`, each with items that are kept.
pub open spec fn later_ids(id: Seq<char>, fresh: Seq<Seq<char>>, vals: Seq<JsonV>) -> bool {
    &&& vals.len() == fresh.len()
    &&& fresh.no_duplicates()
    &&& forall|j: int| 0 <= j < fresh.len() ==> #[trigger] fresh[j] != id && accepted(fresh[j], vals[j])
}

proof fn lemma_eviction_base(h: HistV, id: Seq<char>, items: JsonV, fresh: Seq<Seq<char>>, vals: Seq<JsonV>)
    requires
        hist_wf(h),
        accepted(id, items),
    ensures
        eviction_inv(recorded(h, id, items), id, fresh, vals, 0),
{
    let h0 = recorded(h, id, items);
    lemma_recorded_wf(h, id, items);
    lemma_recorded_last(h, id, items);
    assert(h0.order =~= h0.order.drop_last() + seq![id] + fresh.take(0));
}

proof fn lemma_eviction_step(h0: HistV, id: Seq<char>, fresh: Seq<Seq<char>>, vals: Seq<JsonV>, k: int)
    requires
        0 <= k < fresh.len(),
        later_ids(id, fresh, vals),
        eviction_inv(h0, id, fresh, vals, k),
    ensures
        eviction_inv(h0, id, fresh, vals, k + 1),
{
    let hk = recorded_all(h0, fresh, vals, k);
    let f = fresh[k];
    let v = vals[k];
    let hn = recorded(hk, f, v);
    assert(recorded_all(h0, fresh, vals, k + 1) == hn);
    lemma_recorded_wf(hk, f, v);
    assert(fresh.take(k + 1) =~= fresh.take(k).push(f));
    assert(!fresh.take(k).contains(f)) by {
        if fresh.take(k).contains(f) {
            let j = choose|j: int| 0 <= j < k && fresh.take(k)[j] == f;
            assert(fresh[j] == fresh[k]);
        }
    }
    if hk.items.contains_key(f) {
        if hn.items.contains_key(id) {
            assert(hk.items.contains_key(id));
            let a = choose|a: Seq<Seq<char>>| hk.order == a + seq![id] + fresh.take(k);
            assert(hk.order.contains(f));
            let q = choose|q: int| 0 <= q < hk.order.len() && hk.order[q] == f;
            assert(q < a.len()) by {
                if q == a.len() {
                    assert(hk.order[q] == id);
                } else if q > a.len() {
                    assert(hk.order[q] == fresh.take(k)[q - a.len() - 1]);
                }
            }
            assert forall|j: int| 0 <= j < q implies hk.order[j] != f by {
                assert(hk.order.no_duplicates());
            }
            lemma_pos_of(hk.order, f, q);
            assert(hn.order == hk.order.remove(q).push(f));
            assert(hn.order =~= a.remove(q) + seq![id] + fresh.take(k + 1));
        }
    } else {
        assert(!hk.order.contains(f));
        lemma_push_new(hk, f, v);
        let o1 = hk.order.push(f);
        let m1 = hk.items.insert(f, v);
        if o1.len() > MAX_ENTRIES {
            lemma_drop_front(o1, m1);
            assert(o1.drop_first().last() == f);
            lemma_to_back_last(o1.drop_first(), f);
            assert(hn.order == o1.drop_first());
        } else {
            lemma_to_back_last(o1, f);
            assert(hn.order == o1);
        }
        if hn.items.contains_key(id) {
            assert(hk.items.contains_key(id));
            let a = choose|a: Seq<Seq<char>>| hk.order == a + seq![id] + fresh.take(k);
            if o1.len() > MAX_ENTRIES {
                if a.len() == 0 {
                    assert(o1[0] == id);
                    assert(!hn.items.contains_key(id));
                } else {
                    assert(hn.order =~= a.drop_first() + seq![id] + fresh.take(k + 1));
                }
            } else {
                assert(hn.order =~= a + seq![id] + fresh.take(k + 1));
            }
        }
    }
}

proof fn lemma_eviction_all(
    h: HistV,
    id: Seq<char>,
    items: JsonV,
    fresh: Seq<Seq<char>>,
    vals: Seq<JsonV>,
    k: int,
)
    requires
        hist_wf(h),
        accepted(id, items),
        0 <= k <= fresh.len(),
        later_ids(id, fresh, vals),
    ensures
        eviction_inv(recorded(h, id, items), id, fresh, vals, k),
    decreases k,
{
    if k == 0 {
        lemma_eviction_base(h, id, items, fresh, vals);
    } else {
        lemma_eviction_all(h, id, items, fresh, vals, k - 1);
        lemma_eviction_step(recorded(h, id, items), id, fresh, vals, k - 1);
    }
}

/// An entry that is not looked up again leaves the store once
/// `MAX_ENTRIES` further distinct ids (other than its own, stored before
/// or not) have been recorded after it: the store keeps only the most
/// recently used entries.
pub proof fn law_evicted_after_capacity(
    h: HistV,
    id: Seq<char>,
    items: JsonV,
    fresh: Seq<Seq<char>>,
    vals: Seq<JsonV>,
)
    requires
        hist_wf(h),
        accepted(id, items),
        fresh.len() == MAX_ENTRIES,
        later_ids(id, fresh, vals),
    ensures
        !recorded_all(recorded(h, id, items), fresh, vals, MAX_ENTRIES as int).items.contains_key(id),
{
    lemma_eviction_all(h, id, items, fresh, vals, MAX_ENTRIES as int);
    let hm = recorded_all(recorded(h, id, items), fresh, vals, MAX_ENTRIES as int);
    if hm.items.contains_key(id) {
        let a = choose|a: Seq<Seq<char>>| hm.order == a + seq![id] + fresh.take(MAX_ENTRIES as int);
        assert(hm.order.len() == a.len() + 1 + MAX_ENTRIES);
    }
}

// ---------------------------------------------------------------------------
// Request enrichment
// ---------------------------------------------------------------------------
/// The referenced response: `previous_response_id` as a string, trimmed,
/// not empty.
pub open spec fn reference(req: JsonV) -> Option<Seq<char>> {
    match vget_str(req, "previous_response_id"@) {
        Some(s) => if trim(s).len() > 0 {
            Some(trim(s))
        } else {
            None
        },
        None => None,
    }
}

pub open spec fn user_message(text: Seq<char>) -> JsonV {
    JsonV::Object(
        seq![
            ("type"@, JsonV::Str("message"@)),
            ("role"@, JsonV::Str("user"@)),
            (
                "content"@,
                JsonV::Array(
                    seq![
                        JsonV::Object(
                            seq![("type"@, JsonV::Str("input_text"@)), ("text"@, JsonV::Str(text))],
                        ),
                    ],
                ),
            ),
        ],
    )
}

/// The request's own input as items: a string is one user message, an
/// object or other value is one item, an array is itself (none when empty
/// or absent).
pub open spec fn own_items(req: JsonV) -> Seq<JsonV> {
    match vget(req, "input"@) {
        None => Seq::empty(),
        Some(JsonV::Str(s)) => seq![user_message(s)],
        Some(JsonV::Array(a)) => a,
        Some(v) => seq![v],
    }
}

pub open spec fn unknown_reference(pid: Seq<char>) -> Seq<char> {
    "unknown previous_response_id '"@ + pid
        + "': gateway history for this response has expired or was recorded before a restart; resend the full conversation history instead of referencing it (codex clients: disable server-side storage, e.g. 'store' 'false' in model args)"@
}

/// The request with the referenced response's items before its own input,
/// and without the reference; an error for an unknown reference.
pub open spec fn enriched(h: HistV, req: JsonV) -> Result<JsonV, Seq<char>> {
    match reference(req) {
        None => Ok(req),
        Some(pid) => if !h.items.contains_key(pid) {
            Err(unknown_reference(pid))
        } else {
            let restored = match h.items[pid] {
                JsonV::Array(a) => a,
                _ => Seq::empty(),
            };
            let input = JsonV::Array(restored + own_items(req));
            match req {
                JsonV::Object(fs) => Ok(
                    JsonV::Object(remove_field(set_field(fs, "input"@, input), "previous_response_id"@)),
                ),
                _ => Ok(req),
            }
        },
    }
}

fn user_message_exec(text: &String) -> (r: Json)
    ensures
        r@ == user_message(text@),
{
    let mut part: Vec<(String, Json)> = Vec::new();
    part.push((owned("type"), Json::Str(owned("input_text"))));
    part.push((owned("text"), Json::Str(text.clone())));
    proof {
        lemma_object_view(part);
    }
    let ghost pv = fields_view(part@);
    assert(pv =~= seq![("type"@, JsonV::Str("input_text"@)), ("text"@, JsonV::Str(text@))]);
    let mut content: Vec<Json> = Vec::new();
    content.push(Json::Object(part));
    proof {
        lemma_array_view(content);
    }
    assert(elems_view(content@) =~= seq![JsonV::Object(pv)]);
    let mut m: Vec<(String, Json)> = Vec::new();
    m.push((owned("type"), Json::Str(owned("message"))));
    m.push((owned("role"), Json::Str(owned("user"))));
    m.push((owned("content"), Json::Array(content)));
    proof {
        lemma_object_view(m);
    }
    assert(fields_view(m@) =~= seq![
        ("type"@, JsonV::Str("message"@)),
        ("role"@, JsonV::Str("user"@)),
        ("content"@, JsonV::Array(seq![JsonV::Object(pv)])),
    ]);
    Json::Object(m)
}

fn push_clones(out: &mut Vec<Json>, a: &Vec<Json>)
    ensures
        elems_view(final(out)@) == elems_view(old(out)@) + elems_view(a@),
{
    let ghost o0 = elems_view(out@);
    let mut i: usize = 0;
    while i < a.len()
        invariant
            i <= a@.len(),
            elems_view(out@) == o0 + elems_view(a@).take(i as int),
        decreases a@.len() - i,
    {
        let ghost before = elems_view(out@);
        let x = deep_clone(&a[i]);
        let ghost xv = x@;
        out.push(x);
        assert(elems_view(out@) =~= before.push(xv));
        assert(elems_view(a@).take(i + 1) =~= elems_view(a@).take(i as int).push(a@[i as int]@));
        i = i + 1;
    }
    assert(elems_view(a@).take(a@.len() as int) =~= elems_view(a@));
}

/// Prepends the referenced response's items to the request's input (see
/// `enriched`); the store marks the reference as used.
pub fn enrich_request_with_history(store: &mut ResponseHistoryStore, json: &mut Json) -> (r: Result<(), String>)
    requires
        hist_wf(old(store)@),
    ensures
        hist_wf(final(store)@),
        match enriched(old(store)@, old(json)@) {
            Ok(v) => r is Ok && final(json)@ == v,
            Err(e) => r matches Err(m) && m@ == e && final(json)@ == old(json)@,
        },
        final(store)@ == match reference(old(json)@) {
            Some(pid) => touched(old(store)@, pid),
            None => old(store)@,
        },
{
    let ghost j0 = json@;
    let pid = match json.get_str("previous_response_id") {
        Some(s) => {
            let t = trim_chars(chars_of(s.as_str()).as_slice());
            if t.len() > 0 {
                string_from(t.as_slice())
            } else {
                return Ok(());
            }
        },
        None => return Ok(()),
    };
    let restored = match store.restore(pid.as_str()) {
        Some(r) => r,
        None => {
            let mut m = chars_of("unknown previous_response_id '");
            push_all(&mut m, chars_of(pid.as_str()).as_slice());
            push_str(
                &mut m,
                "': gateway history for this response has expired or was recorded before a restart; resend the full conversation history instead of referencing it (codex clients: disable server-side storage, e.g. 'store' 'false' in model args)",
            );
            return Err(string_from(m.as_slice()));
        },
    };
    assert(j0 is Object);
    assert(reference(j0) == Some(pid@));
    let ghost rv = match restored@ {
        JsonV::Array(a) => a,
        _ => Seq::<JsonV>::empty(),
    };
    let mut input: Vec<Json> = Vec::new();
    match &restored {
        Json::Array(a) => {
            proof {
                lemma_array_view(*a);
            }
            push_clones(&mut input, a);
            assert(elems_view(input@) =~= rv);
        },
        _ => {
            assert(elems_view(input@) =~= rv);
        },
    }
    let ghost before_own = elems_view(input@);
    match json.get("input") {
        None => {},
        Some(v) => match v {
            Json::Str(s) => {
                let m = user_message_exec(s);
                let ghost mv = m@;
                input.push(m);
                assert(elems_view(input@) =~= before_own.push(mv));
            },
            Json::Array(a) => {
                proof {
                    lemma_array_view(*a);
                }
                push_clones(&mut input, a);
            },
            _ => {
                let c = deep_clone(v);
                let ghost cv = c@;
                input.push(c);
                assert(elems_view(input@) =~= before_own.push(cv));
            },
        },
    }
    proof {
        lemma_array_view(input);
        match vget(json@, "input"@) {
            None => {
                assert(elems_view(input@) =~= before_own + own_items(json@));
            },
            _ => {},
        }
    }
    assert(elems_view(input@) == rv + own_items(j0));
    let ghost newv = JsonV::Array(rv + own_items(j0));
    json.set("input", Json::Array(input));
    assert(json@ == JsonV::Object(set_field(j0->Object_0, "input"@, newv)));
    json.remove("previous_response_id");
    Ok(())
}

} // verus!

verus! {

// ---------------------------------------------------------------------------
// Snapshots of a finished stream
// ---------------------------------------------------------------------------
pub open spec fn is_kept_terminal(e: JsonV) -> bool {
    vget_str(e, "type"@) == Some("response.completed"@) || vget_str(e, "type"@) == Some("response.incomplete"@)
}

/// The first completed or incomplete terminal event among the first `k`.
pub open spec fn first_kept_terminal(evs: Seq<JsonV>, k: int) -> Option<JsonV>
    decreases k,
{
    if k <= 0 {
        None
    } else {
        match first_kept_terminal(evs, k - 1) {
            Some(e) => Some(e),
            None => if is_kept_terminal(evs[k - 1]) {
                Some(evs[k - 1])
            } else {
                None
            },
        }
    }
}

/// The history snapshot of a finished stream: the id and output of the
/// response that its first completed or incomplete terminal event
/// carries; failed or unfinished streams give none.
pub open spec fn snapshot_v(evs: Seq<JsonV>) -> Option<(Seq<char>, JsonV)> {
    match first_kept_terminal(evs, evs.len() as int) {
        Some(e) => match vget(e, "response"@) {
            Some(resp) => match (vget(resp, "output"@), vget_str(resp, "id"@)) {
                (Some(o), Some(id)) => Some((id, o)),
                _ => None,
            },
            None => None,
        },
        None => None,
    }
}

/// The history snapshot of a finished stream's events (see `snapshot_v`).
pub fn snapshot_from_events(events: &[Json]) -> (r: Option<(String, Json)>)
    ensures
        match snapshot_v(events@.map_values(|e: Json| e@)) {
            Some(p) => r matches Some(q) && q.0@ == p.0 && q.1@ == p.1,
            None => r is None,
        },
{
    let ghost ev = events@.map_values(|e: Json| e@);
    let mut i: usize = 0;
    while i < events.len()
        invariant
            i <= events@.len(),
            ev == events@.map_values(|e: Json| e@),
            first_kept_terminal(ev, i as int) is None,
        decreases events@.len() - i,
    {
        let e = &events[i];
        assert(ev[i as int] == e@);
        let kept = match e.get_str("type") {
            Some(t) => {
                let c = chars_of(t.as_str());
                crate::text::is(c.as_slice(), "response.completed") || crate::text::is(c.as_slice(), "response.incomplete")
            },
            None => false,
        };
        if kept {
            proof {
                lemma_first_kept_stays(ev, i as int + 1, ev.len() as int);
            }
            let resp = match e.get("response") {
                Some(r) => r,
                None => return None,
            };
            let output = match resp.get("output") {
                Some(o) => o,
                None => return None,
            };
            let id = match resp.get_str("id") {
                Some(s) => s,
                None => return None,
            };
            return Some((id.clone(), deep_clone(output)));
        }
        i = i + 1;
    }
    None
}

proof fn lemma_first_kept_stays(evs: Seq<JsonV>, k: int, n: int)
    requires
        0 < k <= n,
        first_kept_terminal(evs, k) is Some,
    ensures
        first_kept_terminal(evs, n) == first_kept_terminal(evs, k),
    decreases n - k,
{
    if k < n {
        lemma_first_kept_stays(evs, k + 1, n);
    }
}

/// The history snapshot of a finished converter: its response id and the
/// output of its final response.
pub fn snapshot_from_events_typed(state: &crate::stream_state::ChatToResponsesStreamState) -> (r: Option<(String, Json)>)
    ensures
        r matches Some(p) && p.0@ == state.id@ && p.1@ is Array,
{
    let out = state.final_output();
    Some((state.id.clone(), out))
}

} // verus!
