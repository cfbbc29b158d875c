//! A string-keyed table: a hash map for lookups plus the list of its keys,
//! so that the whole table can be walked (eviction, clean-up).
use vstd::prelude::*;
use vstd::hash_map::StringHashMap;

verus! {

#[verifier::reject_recursive_types(V)]
pub struct Table<V> {
    keys: Vec<String>,
    map: StringHashMap<V>,
}

/// The key list as character sequences.
pub open spec fn key_views(keys: Seq<String>) -> Seq<Seq<char>> {
    keys.map_values(|s: String| s@)
}

impl<V> View for Table<V> {
    type V = Map<Seq<char>, V>;

    closed spec fn view(&self) -> Map<Seq<char>, V> {
        self.map@
    }
}

impl<V> Table<V> {
    /// The key list, in the table's walking order.
    pub closed spec fn key_seq(&self) -> Seq<Seq<char>> {
        key_views(self.keys@)
    }

    /// Every key appears once in the key list, and the list names exactly the
    /// keys of the map.
    pub closed spec fn wf(&self) -> bool {
        let ks = key_views(self.keys@);
        &&& ks.no_duplicates()
        &&& forall|i: int| 0 <= i < ks.len() ==> self.map@.contains_key(#[trigger] ks[i])
        &&& forall|k: Seq<char>| self.map@.contains_key(k) ==> ks.contains(k)
    }

    pub proof fn lemma_wf(&self)
        requires
            self.wf(),
        ensures
            self@.dom() == self.key_seq().to_set(),
            self@.dom().finite(),
            self@.len() == self.key_seq().len(),
            self.key_seq().no_duplicates(),
            forall|i: int|
                0 <= i < self.key_seq().len() ==> self@.contains_key(#[trigger] self.key_seq()[i]),
            forall|k: Seq<char>| #[trigger] self@.contains_key(k) ==> self.key_seq().contains(k),
    {
        let ks = self.key_seq();
        assert(self@.dom() =~= ks.to_set()) by {
            assert forall|k: Seq<char>| self@.dom().contains(k) implies ks.to_set().contains(
                k,
            ) by {}
            assert forall|k: Seq<char>| ks.to_set().contains(k) implies self@.dom().contains(
                k,
            ) by {
                let i = choose|i: int| 0 <= i < ks.len() && ks[i] == k;
                assert(self.map@.contains_key(ks[i]));
            }
        }
        ks.unique_seq_to_set();
    }

    pub fn new() -> (t: Self)
        ensures
            t.wf(),
            t@ == Map::<Seq<char>, V>::empty(),
            t.key_seq().len() == 0,
    {
        let t = Table { keys: Vec::new(), map: StringHashMap::new() };
        assert(key_views(t.keys@) =~= Seq::<Seq<char>>::empty());
        t
    }

    pub fn len(&self) -> (n: usize)
        requires
            self.wf(),
        ensures
            n == self@.len(),
            n == self.key_seq().len(),
    {
        proof {
            self.lemma_wf();
        }
        self.keys.len()
    }

    pub fn get(&self, k: &str) -> (r: Option<&V>)
        ensures
            match r {
                Some(v) => self@.contains_key(k@) && *v == self@[k@],
                None => !self@.contains_key(k@),
            },
    {
        self.map.get(k)
    }

    /// The `i`-th key of the walking order.
    pub fn key_at(&self, i: usize) -> (k: &String)
        requires
            self.wf(),
            i < self.key_seq().len(),
        ensures
            k@ == self.key_seq()[i as int],
    {
        &self.keys[i]
    }

    pub fn insert(&mut self, k: String, v: V)
        requires
            old(self).wf(),
        ensures
            final(self).wf(),
            final(self)@ == old(self)@.insert(k@, v),
            old(self)@.contains_key(k@) ==> final(self).key_seq() == old(self).key_seq(),
            !old(self)@.contains_key(k@) ==> final(self).key_seq() == old(self).key_seq().push(
                k@,
            ),
    {
        if self.map.contains_key(k.as_str()) {
            self.map.insert(k, v);
        } else {
            let ghost ks0 = key_views(self.keys@);
            let k2 = k.clone();
            self.keys.push(k2);
            self.map.insert(k, v);
            assert(key_views(self.keys@) =~= ks0.push(k@));
            assert(key_views(self.keys@).no_duplicates()) by {
                let ks = key_views(self.keys@);
                assert forall|i: int, j: int|
                    0 <= i < ks.len() && 0 <= j < ks.len() && i != j implies ks[i] != ks[j] by {
                    if i == ks.len() - 1 {
                        assert(old(self).map@.contains_key(ks0[j]));
                    } else if j == ks.len() - 1 {
                        assert(old(self).map@.contains_key(ks0[i]));
                    }
                }
            }
            assert forall|q: Seq<char>| self.map@.contains_key(q) implies key_views(
                self.keys@,
            ).contains(q) by {
                if q != k@ {
                    assert(ks0.contains(q));
                    let i = choose|i: int| 0 <= i < ks0.len() && ks0[i] == q;
                    assert(key_views(self.keys@)[i] == q);
                } else {
                    assert(key_views(self.keys@)[ks0.len() as int] == q);
                }
            }
        }
    }

    pub fn remove(&mut self, k: &str)
        requires
            old(self).wf(),
        ensures
            final(self).wf(),
            final(self)@ == old(self)@.remove(k@),
    {
        let ghost ks0 = key_views(self.keys@);
        let n = self.keys.len();
        let mut i: usize = 0;
        while i < n
            invariant
                n == self.keys@.len(),
                i <= n,
                old(self).wf(),
                self.keys@ == old(self).keys@,
                self.map@ == old(self).map@,
                ks0 == key_views(self.keys@),
                forall|j: int| 0 <= j < i ==> ks0[j] != k@,
            decreases n - i,
        {
            if crate::text::seq_eq(
                crate::text::chars_of(self.keys[i].as_str()).as_slice(),
                crate::text::chars_of(k).as_slice(),
            ) {
                self.keys.remove(i);
                self.map.remove(k);
                let ghost ks = key_views(self.keys@);
                assert(ks =~= ks0.remove(i as int));
                assert forall|a: int, b: int|
                    0 <= a < ks.len() && 0 <= b < ks.len() && a != b implies ks[a] != ks[b] by {
                    let a0 = if a < i { a } else { a + 1 };
                    let b0 = if b < i { b } else { b + 1 };
                    assert(ks[a] == ks0[a0]);
                    assert(ks[b] == ks0[b0]);
                }
                assert forall|j: int| 0 <= j < ks.len() implies self.map@.contains_key(
                    #[trigger] ks[j],
                ) by {
                    let j0 = if j < i { j } else { j + 1 };
                    assert(ks[j] == ks0[j0]);
                    assert(ks0[j0] != ks0[i as int]);
                }
                assert forall|q: Seq<char>| self.map@.contains_key(q) implies ks.contains(q) by {
                    assert(ks0.contains(q));
                    let j0 = choose|j: int| 0 <= j < ks0.len() && ks0[j] == q;
                    assert(j0 != i);
                    let j = if j0 < i { j0 } else { j0 - 1 };
                    assert(ks[j] == q);
                }
                return;
            }
            i = i + 1;
        }
        assert(!old(self)@.contains_key(k@)) by {
            if old(self)@.contains_key(k@) {
                assert(ks0.contains(k@));
            }
        }
        assert(old(self)@.remove(k@) =~= old(self)@);
    }

    pub fn clear(&mut self)
        ensures
            final(self).wf(),
            final(self)@ == Map::<Seq<char>, V>::empty(),
    {
        self.keys = Vec::new();
        self.map = StringHashMap::new();
        assert(key_views(self.keys@) =~= Seq::<Seq<char>>::empty());
    }
}

} // verus!
