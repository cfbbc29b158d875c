//! Coding Plan usage counters: for each user and plan, the current billing
//! period and the tokens used in it. Database totals overwrite them; each
//! recorded request adds to them.
use vstd::prelude::*;

use crate::text::{chars_of, seq_eq};

verus! {

/// One counter: the tokens a user used on a plan in a period.
pub struct PlanCount {
    pub user_id: i64,
    pub plan_id: i64,
    pub period_key: String,
    pub tokens: i64,
}

/// The plan counters, one per (user, plan).
pub struct UsageCache {
    plans: Vec<PlanCount>,
}

pub open spec fn count_key(c: PlanCount) -> (i64, i64) {
    (c.user_id, c.plan_id)
}

/// Index of the first counter for `k` (the length when none).
pub open spec fn count_index(s: Seq<PlanCount>, k: (i64, i64)) -> int
    decreases s.len(),
{
    if s.len() == 0 {
        0
    } else if count_key(s[0]) == k {
        0
    } else {
        1 + count_index(s.drop_first(), k)
    }
}

/// The counters as a map from (user, plan) to (period, tokens).
pub open spec fn counts_map(s: Seq<PlanCount>) -> Map<(i64, i64), (Seq<char>, i64)> {
    Map::new(
        |k: (i64, i64)| count_index(s, k) < s.len(),
        |k: (i64, i64)| (s[count_index(s, k)].period_key@, s[count_index(s, k)].tokens),
    )
}

proof fn lemma_count_index_bound(s: Seq<PlanCount>, k: (i64, i64))
    ensures
        0 <= count_index(s, k) <= s.len(),
        count_index(s, k) < s.len() ==> count_key(s[count_index(s, k)]) == k,
        forall|j: int| 0 <= j < count_index(s, k) ==> count_key(s[j]) != k,
    decreases s.len(),
{
    if s.len() > 0 && count_key(s[0]) != k {
        lemma_count_index_bound(s.drop_first(), k);
        assert forall|j: int| 0 <= j < count_index(s, k) implies count_key(s[j]) != k by {
            if j > 0 {
                assert(s[j] == s.drop_first()[j - 1]);
            }
        }
    }
}

proof fn lemma_count_index(s: Seq<PlanCount>, k: (i64, i64), i: int)
    requires
        0 <= i <= s.len(),
        forall|j: int| 0 <= j < i ==> count_key(s[j]) != k,
        i < s.len() ==> count_key(s[i]) == k,
    ensures
        count_index(s, k) == i,
    decreases i,
{
    if i > 0 {
        assert forall|j: int| 0 <= j < i - 1 implies count_key(s.drop_first()[j]) != k by {
            assert(s.drop_first()[j] == s[j + 1]);
        }
        lemma_count_index(s.drop_first(), k, i - 1);
    }
}

/// Replacing the counter at `i` with one of the same key replaces that
/// key's entry and leaves the others.
proof fn lemma_update_at(s: Seq<PlanCount>, i: int, c: PlanCount)
    requires
        0 <= i < s.len(),
        count_index(s, count_key(c)) == i,
    ensures
        counts_map(s.update(i, c)) == counts_map(s).insert(count_key(c), (c.period_key@, c.tokens)),
{
    let s2 = s.update(i, c);
    let k = count_key(c);
    lemma_count_index_bound(s, k);
    lemma_count_index(s2, k, i);
    assert forall|k2: (i64, i64)| k2 != k implies count_index(s2, k2) == count_index(s, k2) && (
    count_index(s, k2) < s.len() ==> s2[count_index(s, k2)] == s[count_index(s, k2)]) by {
        lemma_count_index_bound(s, k2);
        let j = count_index(s, k2);
        assert forall|q: int| 0 <= q < j implies count_key(s2[q]) != k2 by {
            if q != i {
                assert(s2[q] == s[q]);
            }
        }
        if j < s.len() {
            assert(j != i);
            assert(s2[j] == s[j]);
        }
        lemma_count_index(s2, k2, j);
    }
    assert(counts_map(s2) =~= counts_map(s).insert(k, (c.period_key@, c.tokens)));
}

/// Appending a counter for a key not yet present adds that key.
proof fn lemma_push_new(s: Seq<PlanCount>, c: PlanCount)
    requires
        count_index(s, count_key(c)) == s.len(),
    ensures
        counts_map(s.push(c)) == counts_map(s).insert(count_key(c), (c.period_key@, c.tokens)),
{
    let s2 = s.push(c);
    let k = count_key(c);
    lemma_count_index_bound(s, k);
    assert forall|q: int| 0 <= q < s.len() implies count_key(s2[q]) != k by {
        assert(s2[q] == s[q]);
    }
    lemma_count_index(s2, k, s.len() as int);
    assert forall|k2: (i64, i64)| k2 != k implies (count_index(s, k2) < s.len()
        && count_index(s2, k2) == count_index(s, k2) && s2[count_index(s, k2)] == s[count_index(
        s,
        k2,
    )]) || (count_index(s, k2) == s.len() && count_index(s2, k2) == s2.len()) by {
        lemma_count_index_bound(s, k2);
        let j = count_index(s, k2);
        assert forall|q: int| 0 <= q < j implies count_key(s2[q]) != k2 by {
            assert(s2[q] == s[q]);
        }
        if j < s.len() {
            assert(s2[j] == s[j]);
            lemma_count_index(s2, k2, j);
        } else {
            assert forall|q: int| 0 <= q < s2.len() implies count_key(s2[q]) != k2 by {
                if q < s.len() {
                    assert(s2[q] == s[q]);
                }
            }
            lemma_count_index(s2, k2, s2.len() as int);
        }
    }
    assert(counts_map(s2) =~= counts_map(s).insert(k, (c.period_key@, c.tokens)));
}

/// `a + b`, held to the bounds of `i64`.
pub open spec fn sat_add(a: i64, b: i64) -> i64 {
    if a + b > i64::MAX {
        i64::MAX
    } else if a + b < i64::MIN {
        i64::MIN
    } else {
        (a + b) as i64
    }
}

/// The counter after a request of `tokens` in `period`: in the same
/// period the tokens add (held to `i64`); a counter of another period
/// starts over with the request's tokens (never below zero); a counter
/// that did not exist starts at the request's tokens.
pub open spec fn counted(old: Option<(Seq<char>, i64)>, period: Seq<char>, tokens: i64) -> (
    Seq<char>,
    i64,
) {
    match old {
        Some((k, v)) => if k == period {
            (k, sat_add(v, tokens))
        } else {
            (period, if tokens < 0 { 0 } else { tokens })
        },
        None => (period, sat_add(0, tokens)),
    }
}

/// Tokens used in `period`: zero when the counter is missing or belongs to
/// another period.
pub open spec fn used_in(m: Map<(i64, i64), (Seq<char>, i64)>, k: (i64, i64), period: Seq<char>) -> i64 {
    if m.contains_key(k) && m[k].0 == period {
        m[k].1
    } else {
        0
    }
}

impl View for UsageCache {
    type V = Map<(i64, i64), (Seq<char>, i64)>;

    closed spec fn view(&self) -> Map<(i64, i64), (Seq<char>, i64)> {
        counts_map(self.plans@)
    }
}

fn str_eq(a: &String, b: &str) -> (r: bool)
    ensures
        r == (a@ == b@),
{
    seq_eq(chars_of(a.as_str()).as_slice(), chars_of(b).as_slice())
}

fn sat_add_exec(a: i64, b: i64) -> (r: i64)
    ensures
        r == sat_add(a, b),
{
    if b > 0 && a > i64::MAX - b {
        i64::MAX
    } else if b < 0 && a < i64::MIN - b {
        i64::MIN
    } else {
        a + b
    }
}

impl UsageCache {
    pub fn new() -> (c: Self)
        ensures
            c@ == Map::<(i64, i64), (Seq<char>, i64)>::empty(),
    {
        let c = UsageCache { plans: Vec::new() };
        assert(c@ =~= Map::<(i64, i64), (Seq<char>, i64)>::empty());
        c
    }

    fn position(&self, user_id: i64, plan_id: i64) -> (r: Option<usize>)
        ensures
            match r {
                Some(i) => i == count_index(self.plans@, (user_id, plan_id)) && i
                    < self.plans@.len(),
                None => count_index(self.plans@, (user_id, plan_id)) == self.plans@.len(),
            },
    {
        let mut i: usize = 0;
        while i < self.plans.len()
            invariant
                i <= self.plans@.len(),
                forall|j: int| 0 <= j < i ==> count_key(self.plans@[j]) != (user_id, plan_id),
            decreases self.plans@.len() - i,
        {
            if self.plans[i].user_id == user_id && self.plans[i].plan_id == plan_id {
                proof {
                    lemma_count_index(self.plans@, (user_id, plan_id), i as int);
                }
                return Some(i);
            }
            i = i + 1;
        }
        proof {
            lemma_count_index(self.plans@, (user_id, plan_id), i as int);
        }
        None
    }

    /// Tokens the user used on the plan in `period_key`; zero when the
    /// counter is missing or belongs to another period.
    pub fn get_plan(&self, user_id: i64, plan_id: i64, period_key: &str) -> (r: i64)
        ensures
            r == used_in(self@, (user_id, plan_id), period_key@),
    {
        match self.position(user_id, plan_id) {
            Some(i) => if str_eq(&self.plans[i].period_key, period_key) {
                self.plans[i].tokens
            } else {
                0
            },
            None => 0,
        }
    }

    /// Adds a request's tokens to the user's counter for the plan (see
    /// `counted`); the other counters are left alone.
    pub fn incr_plan(&mut self, user_id: i64, plan_id: i64, period_key: &str, tokens: i64)
        ensures
            final(self)@ == old(self)@.insert(
                (user_id, plan_id),
                counted(
                    if old(self)@.contains_key((user_id, plan_id)) {
                        Some(old(self)@[(user_id, plan_id)])
                    } else {
                        None
                    },
                    period_key@,
                    tokens,
                ),
            ),
    {
        let ghost s0 = self.plans@;
        match self.position(user_id, plan_id) {
            Some(i) => {
                let same = str_eq(&self.plans[i].period_key, period_key);
                let c = if same {
                    PlanCount {
                        user_id,
                        plan_id,
                        period_key: self.plans[i].period_key.clone(),
                        tokens: sat_add_exec(self.plans[i].tokens, tokens),
                    }
                } else {
                    PlanCount {
                        user_id,
                        plan_id,
                        period_key: crate::text::string_from(chars_of(period_key).as_slice()),
                        tokens: if tokens < 0 {
                            0
                        } else {
                            tokens
                        },
                    }
                };
                proof {
                    lemma_update_at(s0, i as int, c);
                }
                self.plans.set(i, c);
            },
            None => {
                let c = PlanCount {
                    user_id,
                    plan_id,
                    period_key: crate::text::string_from(chars_of(period_key).as_slice()),
                    tokens: sat_add_exec(0, tokens),
                };
                proof {
                    lemma_push_new(s0, c);
                }
                self.plans.push(c);
            },
        }
    }

    /// Overwrites the user's counter for the plan with the stored
    /// (period, tokens) snapshot.
    pub fn set_plan(&mut self, user_id: i64, plan_id: i64, period_key: String, tokens: i64)
        ensures
            final(self)@ == old(self)@.insert((user_id, plan_id), (period_key@, tokens)),
    {
        let ghost s0 = self.plans@;
        let c = PlanCount { user_id, plan_id, period_key, tokens };
        match self.position(user_id, plan_id) {
            Some(i) => {
                proof {
                    lemma_update_at(s0, i as int, c);
                }
                self.plans.set(i, c);
            },
            None => {
                proof {
                    lemma_push_new(s0, c);
                }
                self.plans.push(c);
            },
        }
    }
}

/// Within a period, the counter reads back the tokens added to it (held to
/// `i64`); a new period starts over from the first request's tokens (never
/// below zero), and the previous period then reads as zero; counters of
/// other users or plans do not move.
pub proof fn law_plan_counter(
    m: Map<(i64, i64), (Seq<char>, i64)>,
    k: (i64, i64),
    period: Seq<char>,
    tokens: i64,
    other: (i64, i64),
    any_period: Seq<char>,
)
    requires
        other != k,
    ensures
        ({
            let m2 = m.insert(
                k,
                counted(
                    if m.contains_key(k) {
                        Some(m[k])
                    } else {
                        None
                    },
                    period,
                    tokens,
                ),
            );
            &&& (m.contains_key(k) && m[k].0 == period) ==> used_in(m2, k, period) == sat_add(
                used_in(m, k, period),
                tokens,
            )
            &&& !m.contains_key(k) ==> used_in(m2, k, period) == sat_add(0, tokens)
            &&& (m.contains_key(k) && m[k].0 != period) ==> used_in(m2, k, period) == (if tokens
                < 0 {
                0
            } else {
                tokens
            }) && (any_period != period ==> used_in(m2, k, any_period) == 0)
            &&& used_in(m2, other, any_period) == used_in(m, other, any_period)
        }),
{
}

} // verus!
