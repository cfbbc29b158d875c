//! Rate and concurrency limiting: rule matching (scope x model -> bucket
//! key), the in-process token buckets with two-phase all-or-nothing
//! consumption and the resume exemption, and the concurrency slots.
//!
//! Time is a count of nanoseconds on a monotonic clock. A bucket holds its
//! tokens exactly, in units of `1 / TOKEN` token: `rpm` tokens per minute
//! refill `rpm` units per elapsed nanosecond.
use vstd::prelude::*;

use crate::order::{lex_compare, lex_lt, lemma_lex_asym, lemma_lex_irreflexive, lemma_lex_total, lemma_lex_trans};
use crate::table::Table;
use crate::text::{chars_of, int_decimal, i64_decimal, is, push_all, push_str, seq_eq, string_from};

verus! {

/// A configured rate rule (scope: `global` / `user` / `api_key`, optionally
/// limited to one model; `concurrency` 0 = no in-flight limit).
pub struct RateRule {
    pub scope: String,
    pub scope_id: Option<i64>,
    pub rpm: i32,
    pub burst: i32,
    pub model: Option<String>,
    pub concurrency: i32,
}

/// A rule matched for one request: its bucket key and limits.
pub struct MatchedRule {
    /// Bucket key (shared by the token bucket and the concurrency slots).
    pub key: String,
    pub rpm: i32,
    pub burst: i32,
    /// In-flight limit (0 = unlimited).
    pub concurrency: i32,
}

/// Bucket key of a rule's scope for this request, before the model suffix.
pub open spec fn scope_key(rule: RateRule, user_id: Option<i64>, key_id: Option<i64>) -> Option<
    Seq<char>,
> {
    if rule.scope@ == "global"@ {
        Some("global"@)
    } else if rule.scope@ == "user"@ {
        if user_id.is_some() && rule.scope_id == Some(user_id.unwrap()) {
            Some("user:"@ + int_decimal(user_id.unwrap() as int))
        } else {
            None
        }
    } else if rule.scope@ == "api_key"@ {
        if key_id.is_some() && rule.scope_id == Some(key_id.unwrap()) {
            Some("key:"@ + int_decimal(key_id.unwrap() as int))
        } else {
            None
        }
    } else {
        None
    }
}

/// Bucket key of a rule for this request: a model-limited rule matches only
/// the exact model (case-sensitive) and gets a `|model:` suffix.
pub open spec fn rule_key(
    rule: RateRule,
    user_id: Option<i64>,
    key_id: Option<i64>,
    model: Seq<char>,
) -> Option<Seq<char>> {
    match scope_key(rule, user_id, key_id) {
        None => None,
        Some(base) => match rule.model {
            None => Some(base),
            Some(m) => if m@ == model {
                Some(base + "|model:"@ + m@)
            } else {
                None
            },
        },
    }
}

/// The matched rules, in rule order, as (key, rpm, burst, concurrency).
pub open spec fn matched_spec(
    rules: Seq<RateRule>,
    user_id: Option<i64>,
    key_id: Option<i64>,
    model: Seq<char>,
) -> Seq<(Seq<char>, i32, i32, i32)>
    decreases rules.len(),
{
    if rules.len() == 0 {
        Seq::empty()
    } else {
        let prev = matched_spec(rules.drop_last(), user_id, key_id, model);
        let r = rules.last();
        match rule_key(r, user_id, key_id, model) {
            Some(k) => prev.push((k, r.rpm, r.burst, r.concurrency)),
            None => prev,
        }
    }
}

pub open spec fn matched_view(m: MatchedRule) -> (Seq<char>, i32, i32, i32) {
    (m.key@, m.rpm, m.burst, m.concurrency)
}

fn scope_key_exec(rule: &RateRule, user_id: Option<i64>, key_id: Option<i64>) -> (r: Option<
    Vec<char>,
>)
    ensures
        match r {
            Some(v) => scope_key(*rule, user_id, key_id) == Some(v@),
            None => scope_key(*rule, user_id, key_id).is_none(),
        },
{
    let scope = chars_of(rule.scope.as_str());
    if is(scope.as_slice(), "global") {
        Some(chars_of("global"))
    } else if is(scope.as_slice(), "user") {
        match user_id {
            Some(uid) => {
                if rule.scope_id == Some(uid) {
                    let mut k = chars_of("user:");
                    let d = i64_decimal(uid);
                    push_all(&mut k, d.as_slice());
                    Some(k)
                } else {
                    None
                }
            },
            None => None,
        }
    } else if is(scope.as_slice(), "api_key") {
        match key_id {
            Some(kid) => {
                if rule.scope_id == Some(kid) {
                    let mut k = chars_of("key:");
                    let d = i64_decimal(kid);
                    push_all(&mut k, d.as_slice());
                    Some(k)
                } else {
                    None
                }
            },
            None => None,
        }
    } else {
        None
    }
}

/// Rules that apply to a request, in rule order, with their bucket keys.
pub fn matched_rules(rules: &[RateRule], user_id: Option<i64>, key_id: Option<i64>, model: &str) -> (r:
    Vec<MatchedRule>)
    ensures
        r@.len() <= rules@.len(),
        r@.map_values(|m: MatchedRule| matched_view(m)) == matched_spec(
            rules@,
            user_id,
            key_id,
            model@,
        ),
{
    let model_chars = chars_of(model);
    let mut out: Vec<MatchedRule> = Vec::new();
    let mut i: usize = 0;
    while i < rules.len()
        invariant
            i <= rules@.len(),
            model_chars@ == model@,
            out@.map_values(|m: MatchedRule| matched_view(m)) == matched_spec(
                rules@.take(i as int),
                user_id,
                key_id,
                model@,
            ),
            out@.len() <= i,
        decreases rules@.len() - i,
    {
        let rule = &rules[i];
        let ghost prev = out@.map_values(|m: MatchedRule| matched_view(m));
        assert(rules@.take(i + 1).drop_last() =~= rules@.take(i as int));
        assert(rules@.take(i + 1).last() == rules@[i as int]);
        let base = scope_key_exec(rule, user_id, key_id);
        match base {
            Some(mut key) => {
                let keep = match &rule.model {
                    None => true,
                    Some(m) => {
                        let mc = chars_of(m.as_str());
                        if seq_eq(mc.as_slice(), model_chars.as_slice()) {
                            push_str(&mut key, "|model:");
                            push_all(&mut key, mc.as_slice());
                            true
                        } else {
                            false
                        }
                    },
                };
                if keep {
                    out.push(
                        MatchedRule {
                            key: string_from(key.as_slice()),
                            rpm: rule.rpm,
                            burst: rule.burst,
                            concurrency: rule.concurrency,
                        },
                    );
                    assert(out@.map_values(|m: MatchedRule| matched_view(m)) =~= matched_spec(
                        rules@.take(i + 1),
                        user_id,
                        key_id,
                        model@,
                    ));
                } else {
                    assert(out@.map_values(|m: MatchedRule| matched_view(m)) =~= matched_spec(
                        rules@.take(i + 1),
                        user_id,
                        key_id,
                        model@,
                    ));
                }
            },
            None => {
                assert(out@.map_values(|m: MatchedRule| matched_view(m)) =~= matched_spec(
                    rules@.take(i + 1),
                    user_id,
                    key_id,
                    model@,
                ));
            },
        }
        i = i + 1;
    }
    assert(rules@.take(rules@.len() as int) =~= rules@);
    out
}

// ---------------------------------------------------------------------------
// Concurrency key de-duplication
// ---------------------------------------------------------------------------
/// Some entry of `rs` has key `k`.
pub open spec fn has_key(rs: Seq<(Seq<char>, i32)>, k: Seq<char>) -> bool {
    exists|i: int| 0 <= i < rs.len() && rs[i].0 == k
}

/// `l` is the least limit among the entries of `rs` with key `k`.
pub open spec fn is_min_limit(rs: Seq<(Seq<char>, i32)>, k: Seq<char>, l: i32) -> bool {
    &&& exists|i: int| 0 <= i < rs.len() && rs[i].0 == k && rs[i].1 == l
    &&& forall|i: int| 0 <= i < rs.len() && rs[i].0 == k ==> l <= rs[i].1
}

/// Keys strictly increasing.
pub open spec fn keys_sorted(rs: Seq<(Seq<char>, i32)>) -> bool {
    forall|i: int, j: int| 0 <= i < j < rs.len() ==> lex_lt(rs[i].0, rs[j].0)
}

pub open spec fn pair_view(p: (String, i32)) -> (Seq<char>, i32) {
    (p.0@, p.1)
}

pub open spec fn pairs_view(v: Seq<(String, i32)>) -> Seq<(Seq<char>, i32)> {
    v.map_values(|p: (String, i32)| pair_view(p))
}

/// One entry per key, holding the strictest (least) limit among the entries
/// with that key; the result is ordered by key.
pub fn dedup_min_limit(rules: Vec<(String, i32)>) -> (r: Vec<(String, i32)>)
    ensures
        r@.len() <= rules@.len(),
        keys_sorted(pairs_view(r@)),
        forall|k: Seq<char>| has_key(pairs_view(rules@), k) <==> has_key(pairs_view(r@), k),
        forall|i: int|
            0 <= i < r@.len() ==> is_min_limit(
                pairs_view(rules@),
                #[trigger] pairs_view(r@)[i].0,
                pairs_view(r@)[i].1,
            ),
{
    let ghost input = pairs_view(rules@);
    let mut out: Vec<(String, i32)> = Vec::new();
    let mut i: usize = 0;
    while i < rules.len()
        invariant
            i <= rules@.len(),
            input == pairs_view(rules@),
            keys_sorted(pairs_view(out@)),
            forall|k: Seq<char>|
                has_key(input.take(i as int), k) <==> has_key(pairs_view(out@), k),
            forall|j: int|
                0 <= j < out@.len() ==> is_min_limit(
                    input.take(i as int),
                    #[trigger] pairs_view(out@)[j].0,
                    pairs_view(out@)[j].1,
                ),
            out@.len() <= i,
        decreases rules@.len() - i,
    {
        let key = chars_of(rules[i].0.as_str());
        let limit = rules[i].1;
        let ghost pre = input.take(i as int);
        let ghost post = input.take(i + 1);
        assert(post =~= pre.push(input[i as int]));
        assert(input[i as int] == (key@, limit));
        let ghost ov = pairs_view(out@);
        // position of the first key not below `key`
        let mut p: usize = 0;
        while p < out.len() && lex_compare(chars_of(out[p].0.as_str()).as_slice(), key.as_slice())
            == -1
            invariant
                p <= out@.len(),
                ov == pairs_view(out@),
                forall|j: int| 0 <= j < p ==> lex_lt(#[trigger] ov[j].0, key@),
            decreases out@.len() - p,
        {
            p = p + 1;
        }
        let found = p < out.len() && seq_eq(chars_of(out[p].0.as_str()).as_slice(), key.as_slice());
        if found {
            if limit < out[p].1 {
                let k = out[p].0.clone();
                out.set(p, (k, limit));
            }
            proof {
                let nv = pairs_view(out@);
                assert(nv.len() == ov.len());
                assert forall|j: int| 0 <= j < nv.len() && j != p implies nv[j] == ov[j] by {}
                assert(nv[p as int].0 == key@);
                assert forall|k: Seq<char>| has_key(post, k) <==> has_key(nv, k) by {
                    if has_key(post, k) {
                        let a = choose|a: int| 0 <= a < post.len() && post[a].0 == k;
                        if a < pre.len() {
                            assert(pre[a] == post[a]);
                            assert(has_key(pre, k));
                            assert(has_key(ov, k));
                            let b = choose|b: int| 0 <= b < ov.len() && ov[b].0 == k;
                            assert(nv[b].0 == k);
                        } else {
                            assert(nv[p as int].0 == k);
                        }
                    }
                    if has_key(nv, k) {
                        let b = choose|b: int| 0 <= b < nv.len() && nv[b].0 == k;
                        assert(ov[b].0 == k);
                        assert(has_key(pre, k));
                        let a = choose|a: int| 0 <= a < pre.len() && pre[a].0 == k;
                        assert(post[a] == pre[a]);
                    }
                }
                assert forall|j: int| 0 <= j < nv.len() implies is_min_limit(
                    post,
                    #[trigger] nv[j].0,
                    nv[j].1,
                ) by {
                    assert(is_min_limit(pre, ov[j].0, ov[j].1));
                    let a = choose|a: int|
                        0 <= a < pre.len() && pre[a].0 == ov[j].0 && pre[a].1 == ov[j].1;
                    assert(post[a] == pre[a]);
                    assert forall|b: int|
                        0 <= b < post.len() && post[b].0 == nv[j].0 implies nv[j].1 <= post[b].1 by {
                        if b < pre.len() {
                            assert(post[b] == pre[b]);
                        } else if j != p {
                            lemma_lex_irreflexive(key@);
                            if j < p {
                                assert(lex_lt(ov[j].0, ov[p as int].0));
                            } else {
                                assert(lex_lt(ov[p as int].0, ov[j].0));
                            }
                            assert(ov[j].0 != key@);
                        }
                    }
                    if j == p && nv[j].1 != ov[j].1 {
                        assert(post[pre.len() as int] == (key@, limit));
                    }
                }
                assert(keys_sorted(nv)) by {
                    assert forall|a: int, b: int| 0 <= a < b < nv.len() implies lex_lt(
                        nv[a].0,
                        nv[b].0,
                    ) by {
                        assert(nv[a].0 == ov[a].0);
                        assert(nv[b].0 == ov[b].0);
                    }
                }
            }
        } else {
            out.insert(p, (string_from(key.as_slice()), limit));
            proof {
                let nv = pairs_view(out@);
                assert(nv =~= ov.insert(p as int, (key@, limit)));
                if p < ov.len() {
                    lemma_lex_total(ov[p as int].0, key@);
                    lemma_lex_asym(ov[p as int].0, key@);
                }
                assert forall|j: int| 0 <= j < ov.len() implies ov[j].0 != key@ by {
                    if j < p {
                        lemma_lex_irreflexive(key@);
                    } else if j > p {
                        lemma_lex_trans(key@, ov[p as int].0, ov[j].0);
                        lemma_lex_irreflexive(key@);
                    }
                }
                assert(keys_sorted(nv)) by {
                    assert forall|a: int, b: int| 0 <= a < b < nv.len() implies lex_lt(
                        nv[a].0,
                        nv[b].0,
                    ) by {
                        if b == p {
                            assert(nv[a] == ov[a]);
                        } else if a == p {
                            assert(nv[b] == ov[b - 1]);
                            if b - 1 > p {
                                lemma_lex_trans(key@, ov[p as int].0, ov[b - 1].0);
                            }
                        } else {
                            let a0 = if a < p { a } else { a - 1 };
                            let b0 = if b < p { b } else { b - 1 };
                            assert(nv[a] == ov[a0]);
                            assert(nv[b] == ov[b0]);
                        }
                    }
                }
                assert forall|k: Seq<char>| has_key(post, k) <==> has_key(nv, k) by {
                    if has_key(post, k) {
                        let a = choose|a: int| 0 <= a < post.len() && post[a].0 == k;
                        if a < pre.len() {
                            assert(pre[a] == post[a]);
                            assert(has_key(pre, k));
                            assert(has_key(ov, k));
                            let b = choose|b: int| 0 <= b < ov.len() && ov[b].0 == k;
                            let b1 = if b < p { b } else { b + 1 };
                            assert(nv[b1].0 == k);
                        } else {
                            assert(nv[p as int].0 == k);
                        }
                    }
                    if has_key(nv, k) {
                        let b = choose|b: int| 0 <= b < nv.len() && nv[b].0 == k;
                        if b == p {
                            assert(post[pre.len() as int].0 == k);
                        } else {
                            let b0 = if b < p { b } else { b - 1 };
                            assert(ov[b0].0 == k);
                            assert(has_key(pre, k));
                            let a = choose|a: int| 0 <= a < pre.len() && pre[a].0 == k;
                            assert(post[a] == pre[a]);
                        }
                    }
                }
                assert forall|j: int| 0 <= j < nv.len() implies is_min_limit(
                    post,
                    #[trigger] nv[j].0,
                    nv[j].1,
                ) by {
                    if j == p {
                        assert(post[pre.len() as int] == (key@, limit));
                        assert forall|b: int|
                            0 <= b < post.len() && post[b].0 == key@ implies limit <= post[b].1 by {
                            if b < pre.len() {
                                assert(post[b] == pre[b]);
                                assert(has_key(pre, key@));
                                assert(has_key(ov, key@));
                                let c = choose|c: int| 0 <= c < ov.len() && ov[c].0 == key@;
                                assert(ov[c].0 != key@);
                            }
                        }
                    } else {
                        let j0 = if j < p { j } else { j - 1 };
                        assert(nv[j] == ov[j0]);
                        assert(is_min_limit(pre, ov[j0].0, ov[j0].1));
                        let a = choose|a: int|
                            0 <= a < pre.len() && pre[a].0 == ov[j0].0 && pre[a].1 == ov[j0].1;
                        assert(post[a] == pre[a]);
                        assert forall|b: int|
                            0 <= b < post.len() && post[b].0 == nv[j].0 implies nv[j].1
                            <= post[b].1 by {
                            if b < pre.len() {
                                assert(post[b] == pre[b]);
                            }
                        }
                    }
                }
            }
        }
        i = i + 1;
    }
    assert(input.take(rules@.len() as int) =~= input);
    out
}

} // verus!

verus! {

// ---------------------------------------------------------------------------
// Token buckets
// ---------------------------------------------------------------------------
/// One token, in bucket units (units per minute per token-per-minute).
pub const TOKEN: i128 = 60_000_000_000;

/// Lowest level a bucket is held at (a bucket drained by a negative rate
/// stops there; far below anything a configured rule reaches).
pub const TOKEN_FLOOR: i128 = -1267650600228229401496703205376;

/// Bucket table size at which idle buckets are evicted.
pub const MAX_BUCKETS: usize = 10_000;

/// Identity table size at which idle identities are evicted.
pub const MAX_IDENTITIES: usize = 10_000;

/// Entries idle this long (ns) are dropped on eviction.
pub const IDLE_EVICT_AFTER: u64 = 3_600_000_000_000;

/// A token bucket: its level, last refill time and current configuration.
#[derive(Clone, Copy)]
pub struct Bucket {
    pub tokens: i128,
    pub last: u64,
    pub rpm: i32,
    pub burst: i32,
}

/// How long a refused caller should wait.
#[derive(Clone, Copy, Debug, PartialEq, Eq)]
pub enum Wait {
    /// This many nanoseconds.
    After(u128),
    /// The bucket never refills (rate <= 0).
    Unbounded,
}

/// A value with a last-activity time stamp.
pub trait Stamped: Copy {
    spec fn stamp(&self) -> u64;

    fn stamp_exec(&self) -> (r: u64)
        ensures
            r == self.stamp(),
    ;
}

impl Stamped for Bucket {
    open spec fn stamp(&self) -> u64 {
        self.last
    }

    fn stamp_exec(&self) -> (r: u64) {
        self.last
    }
}

impl Stamped for u64 {
    open spec fn stamp(&self) -> u64 {
        *self
    }

    fn stamp_exec(&self) -> (r: u64) {
        *self
    }
}

/// `now - then`, or 0 when the clock reads earlier (saturating).
pub open spec fn elapsed(now: u64, then: u64) -> int {
    if now >= then {
        now - then
    } else {
        0
    }
}

/// The entries active within the eviction window.
pub open spec fn fresh_part<V: Stamped>(m: Map<Seq<char>, V>, now: u64) -> Map<Seq<char>, V> {
    Map::new(
        |k: Seq<char>| m.contains_key(k) && elapsed(now, m[k].stamp()) < IDLE_EVICT_AFTER,
        |k: Seq<char>| m[k],
    )
}

/// Bucket table after the size guard: when full, idle buckets go; when still
/// full, everything goes.
pub open spec fn evict_buckets(m: Map<Seq<char>, Bucket>, now: u64) -> Map<Seq<char>, Bucket> {
    if m.len() >= MAX_BUCKETS {
        let f = fresh_part(m, now);
        if f.len() >= MAX_BUCKETS {
            Map::empty()
        } else {
            f
        }
    } else {
        m
    }
}

/// Identity table after the size guard (idle identities go when full).
pub open spec fn evict_ids(m: Map<Seq<char>, u64>, now: u64) -> Map<Seq<char>, u64> {
    if m.len() >= MAX_IDENTITIES {
        fresh_part(m, now)
    } else {
        m
    }
}

/// New level: previous level plus the refill for the elapsed time, capped at
/// `burst`, held at the floor.
pub open spec fn refill_level(tokens: int, el: int, rpm: int, burst: int) -> int {
    let raw = tokens + el * rpm;
    let capped = if raw < burst * TOKEN {
        raw
    } else {
        burst * TOKEN
    };
    if capped < TOKEN_FLOOR {
        TOKEN_FLOOR as int
    } else {
        capped
    }
}

/// The bucket a rule sees: the stored one (or a full new one), reconfigured
/// to the rule's rate and burst and refilled up to `now`.
pub open spec fn refreshed(prev: Option<Bucket>, now: u64, rpm: i32, burst: i32) -> Bucket {
    let b = match prev {
        Some(b) => b,
        None => Bucket { tokens: (burst * TOKEN) as i128, last: now, rpm, burst },
    };
    Bucket {
        tokens: refill_level(b.tokens as int, elapsed(now, b.last), rpm as int, burst as int) as i128,
        last: now,
        rpm,
        burst,
    }
}

/// The refreshed bucket of rule `r` against table `m`.
pub open spec fn touched(m: Map<Seq<char>, Bucket>, r: (Seq<char>, i32, i32), now: u64) -> Bucket {
    refreshed(
        if m.contains_key(r.0) {
            Some(m[r.0])
        } else {
            None
        },
        now,
        r.1,
        r.2,
    )
}

/// A bucket holds at least one whole token.
pub open spec fn grants(b: Bucket) -> bool {
    b.tokens >= TOKEN
}

/// Wait until a refusing bucket holds a whole token (rounded up).
pub open spec fn wait_of(b: Bucket) -> Wait {
    if b.rpm > 0 {
        Wait::After(((TOKEN - b.tokens + b.rpm - 1) / (b.rpm as int)) as u128)
    } else {
        Wait::Unbounded
    }
}

pub open spec fn wmax(a: Wait, b: Wait) -> Wait {
    match (a, b) {
        (Wait::After(x), Wait::After(y)) => Wait::After(
            if x >= y {
                x
            } else {
                y
            },
        ),
        _ => Wait::Unbounded,
    }
}

/// Some rule's bucket lacks a whole token.
pub open spec fn rejected(m: Map<Seq<char>, Bucket>, rs: Seq<(Seq<char>, i32, i32)>, now: u64) -> bool
    decreases rs.len(),
{
    rs.len() > 0 && (rejected(m, rs.drop_last(), now) || !grants(touched(m, rs.last(), now)))
}

/// Largest wait over the refusing buckets (0 when none refuses).
pub open spec fn max_wait(m: Map<Seq<char>, Bucket>, rs: Seq<(Seq<char>, i32, i32)>, now: u64) -> Wait
    decreases rs.len(),
{
    if rs.len() == 0 {
        Wait::After(0)
    } else {
        let w = max_wait(m, rs.drop_last(), now);
        let b = touched(m, rs.last(), now);
        if grants(b) {
            w
        } else {
            wmax(w, wait_of(b))
        }
    }
}

/// Rules as (bucket key, rpm, burst) views.
pub open spec fn rule_views(rs: Seq<(String, i32, i32)>) -> Seq<(Seq<char>, i32, i32)> {
    rs.map_values(|r: (String, i32, i32)| (r.0@, r.1, r.2))
}

/// One token taken.
pub open spec fn consume(b: Bucket) -> Bucket {
    Bucket { tokens: (b.tokens - TOKEN) as i128, ..b }
}

/// What a rule writes back: the refreshed bucket, less one token when the
/// whole request passes.
pub open spec fn settled(b: Bucket, refused: bool) -> Bucket {
    if refused {
        b
    } else {
        consume(b)
    }
}

/// The table after write-back: each rule, in order, stores its settled
/// bucket (computed against `m`, the table before the request).
pub open spec fn settle(
    m: Map<Seq<char>, Bucket>,
    rs: Seq<(Seq<char>, i32, i32)>,
    now: u64,
    refused: bool,
) -> Map<Seq<char>, Bucket>
    decreases rs.len(),
{
    if rs.len() == 0 {
        m
    } else {
        settle(m, rs.drop_last(), now, refused).insert(
            rs.last().0,
            settled(touched(m, rs.last(), now), refused),
        )
    }
}

/// The resume exemption applies: exemption enabled and the identity idle
/// for at least `idle` (or never seen).
pub open spec fn exempt_granted(
    ids: Map<Seq<char>, u64>,
    identity: Option<Seq<char>>,
    now: u64,
    idle: u64,
) -> bool {
    match identity {
        None => false,
        Some(id) => idle > 0 && (!ids.contains_key(id) || elapsed(now, ids[id]) >= idle),
    }
}

/// The answer of a check.
pub open spec fn check_outcome(
    m: Map<Seq<char>, Bucket>,
    rs: Seq<(Seq<char>, i32, i32)>,
    now: u64,
    exempt: bool,
) -> Result<(), Wait> {
    if !rejected(m, rs, now) || exempt {
        Ok(())
    } else {
        Err(max_wait(m, rs, now))
    }
}

pub open spec fn bucket_ok(b: Bucket) -> bool {
    TOKEN_FLOOR <= b.tokens <= (i32::MAX as int) * TOKEN
}

pub open spec fn buckets_ok(m: Map<Seq<char>, Bucket>) -> bool {
    forall|k: Seq<char>| #[trigger] m.contains_key(k) ==> bucket_ok(m[k])
}

/// Keeps the entries active within the eviction window.
pub fn retain_fresh<V: Stamped>(t: &Table<V>, now: u64) -> (r: Table<V>)
    requires
        t.wf(),
    ensures
        r.wf(),
        r@ == fresh_part(t@, now),
{
    proof {
        t.lemma_wf();
    }
    let n = t.len();
    let mut r: Table<V> = Table::new();
    let mut i: usize = 0;
    while i < n
        invariant
            t.wf(),
            n == t.key_seq().len(),
            i <= n,
            r.wf(),
            t.key_seq().no_duplicates(),
            forall|j: int| 0 <= j < n ==> t@.contains_key(#[trigger] t.key_seq()[j]),
            r@ == Map::new(
                |k: Seq<char>|
                    t.key_seq().take(i as int).contains(k) && elapsed(now, t@[k].stamp())
                        < IDLE_EVICT_AFTER,
                |k: Seq<char>| t@[k],
            ),
        decreases n - i,
    {
        let k = t.key_at(i);
        let v: V = *t.get(k.as_str()).unwrap();
        let ghost old_r = r@;
        let st = v.stamp_exec();
        let fresh = if now >= st {
            now - st < IDLE_EVICT_AFTER
        } else {
            0 < IDLE_EVICT_AFTER
        };
        if fresh {
            r.insert(k.clone(), v);
        }
        proof {
            let ks = t.key_seq();
            let kq = ks[i as int];
            assert(k@ == kq);
            assert(!ks.take(i as int).contains(kq)) by {
                if ks.take(i as int).contains(kq) {
                    let j = choose|j: int| 0 <= j < i && ks.take(i as int)[j] == kq;
                    assert(ks[j] == ks[i as int]);
                }
            }
            assert(v == t@[kq]);
            assert(fresh == (elapsed(now, t@[kq].stamp()) < IDLE_EVICT_AFTER));
            let pre = ks.take(i as int);
            let post = ks.take(i + 1);
            assert(post =~= pre.push(kq));
            assert forall|q: Seq<char>| post.contains(q) <==> (pre.contains(q) || q == kq) by {
                if post.contains(q) {
                    let j = choose|j: int| 0 <= j < post.len() && post[j] == q;
                    if j < pre.len() {
                        assert(pre[j] == q);
                    }
                }
                if pre.contains(q) {
                    let j = choose|j: int| 0 <= j < pre.len() && pre[j] == q;
                    assert(post[j] == q);
                }
                if q == kq {
                    assert(post[i as int] == q);
                }
            }
            assert(r@ =~= Map::new(
                |q: Seq<char>|
                    ks.take(i + 1).contains(q) && elapsed(now, t@[q].stamp()) < IDLE_EVICT_AFTER,
                |q: Seq<char>| t@[q],
            ));
        }
        i = i + 1;
    }
    proof {
        assert(t.key_seq().take(n as int) =~= t.key_seq());
        assert(r@ =~= fresh_part(t@, now));
    }
    r
}

fn refresh(prev: Option<Bucket>, now: u64, rpm: i32, burst: i32) -> (b: Bucket)
    requires
        prev matches Some(p) ==> bucket_ok(p),
    ensures
        b == refreshed(prev, now, rpm, burst),
        bucket_ok(b),
{
    let base = match prev {
        Some(p) => p,
        None => Bucket { tokens: (burst as i128) * TOKEN, last: now, rpm, burst },
    };
    let el: u64 = if now >= base.last {
        now - base.last
    } else {
        0
    };
    let e = el as i128;
    let q = rpm as i128;
    proof {
        assert(-18446744073709551616 * 2147483648 <= e * q <= 18446744073709551616 * 2147483648)
            by (nonlinear_arith)
            requires
                0 <= e < 18446744073709551616,
                -2147483648 <= q < 2147483648,
        ;
    }
    let raw: i128 = base.tokens + e * q;
    let cap: i128 = (burst as i128) * TOKEN;
    let capped = if raw < cap {
        raw
    } else {
        cap
    };
    let t = if capped < TOKEN_FLOOR {
        TOKEN_FLOOR
    } else {
        capped
    };
    Bucket { tokens: t, last: now, rpm, burst }
}

fn wait_exec(b: &Bucket) -> (w: Wait)
    requires
        !grants(*b),
        bucket_ok(*b),
    ensures
        w == wait_of(*b),
{
    if b.rpm > 0 {
        let need = (TOKEN - b.tokens) as u128;
        let d = b.rpm as u128;
        Wait::After((need + d - 1) / d)
    } else {
        Wait::Unbounded
    }
}

fn wmax_exec(a: Wait, b: Wait) -> (w: Wait)
    ensures
        w == wmax(a, b),
{
    match (a, b) {
        (Wait::After(x), Wait::After(y)) => Wait::After(
            if x >= y {
                x
            } else {
                y
            },
        ),
        _ => Wait::Unbounded,
    }
}

/// In-process token buckets plus the last activity time of each requesting
/// identity (for the resume exemption).
pub struct RateLimiter {
    buckets: Table<Bucket>,
    identities: Table<u64>,
}

impl RateLimiter {
    /// Current bucket table.
    pub closed spec fn buckets(&self) -> Map<Seq<char>, Bucket> {
        self.buckets@
    }

    /// Last activity time of each identity.
    pub closed spec fn identities(&self) -> Map<Seq<char>, u64> {
        self.identities@
    }

    pub closed spec fn wf(&self) -> bool {
        &&& self.buckets.wf()
        &&& self.identities.wf()
        &&& buckets_ok(self.buckets@)
    }

    pub fn new() -> (r: Self)
        ensures
            r.wf(),
            r.buckets() == Map::<Seq<char>, Bucket>::empty(),
            r.identities() == Map::<Seq<char>, u64>::empty(),
    {
        RateLimiter { buckets: Table::new(), identities: Table::new() }
    }

    /// Single-rule check without an identity (no resume exemption), at `now`.
    pub fn check(&mut self, now: u64, key: &str, rpm: i32, burst: i32) -> (r: Result<(), Wait>)
        requires
            old(self).wf(),
        ensures
            final(self).wf(),
            ({
                let rs = seq![(key@, rpm, burst)];
                let m = evict_buckets(old(self).buckets(), now);
                &&& final(self).buckets() == settle(m, rs, now, rejected(m, rs, now))
                &&& final(self).identities() == old(self).identities()
                &&& r == check_outcome(m, rs, now, false)
            }),
    {
        let mut rules: Vec<(String, i32, i32)> = Vec::new();
        rules.push((string_from(chars_of(key).as_slice()), rpm, burst));
        let r = self.check_rules_at(now, rules.as_slice(), None, 0);
        proof {
            let rs = seq![(key@, rpm, burst)];
            assert(rule_views(rules@) =~= rs);
        }
        r
    }

    /// Multi-rule atomic check at time `now`: every matched bucket is refilled;
    /// the request passes only when every bucket holds a whole token, and then
    /// each bucket gives one; a refusal takes nothing. An identity idle for at
    /// least `idle_exempt` (or never seen) has one refusal waived.
    pub fn check_rules_at(
        &mut self,
        now: u64,
        rules: &[(String, i32, i32)],
        identity: Option<&str>,
        idle_exempt: u64,
    ) -> (r: Result<(), Wait>)
        requires
            old(self).wf(),
        ensures
            final(self).wf(),
            ({
                let m = evict_buckets(old(self).buckets(), now);
                let ids = evict_ids(old(self).identities(), now);
                let id = match identity {
                    Some(s) => Some(s@),
                    None => None,
                };
                &&& final(self).buckets() == settle(m, rule_views(rules@), now, rejected(m, rule_views(rules@), now))
                &&& final(self).identities() == match identity {
                    Some(s) => ids.insert(s@, now),
                    None => old(self).identities(),
                }
                &&& r == check_outcome(m, rule_views(rules@), now, exempt_granted(ids, id, now, idle_exempt))
            }),
    {
        // size guard
        if self.buckets.len() >= MAX_BUCKETS {
            let fresh = retain_fresh(&self.buckets, now);
            self.buckets = fresh;
            if self.buckets.len() >= MAX_BUCKETS {
                self.buckets.clear();
            }
        }
        let ghost m = self.buckets@;
        let ghost rv = rule_views(rules@);
        assert(m == evict_buckets(old(self).buckets(), now));
        assert(buckets_ok(m));
        let n = rules.len();
        let mut fresh_buckets: Vec<Bucket> = Vec::new();
        let mut wait = Wait::After(0);
        let mut refused = false;
        let mut i: usize = 0;
        while i < n
            invariant
                n == rules@.len(),
                rv == rule_views(rules@),
                i <= n,
                self.buckets@ == m,
                self.buckets.wf(),
                self.identities.wf(),
                self.identities@ == old(self).identities@,
                buckets_ok(m),
                fresh_buckets@.len() == i,
                forall|j: int|
                    0 <= j < i ==> #[trigger] fresh_buckets@[j] == touched(m, rv[j], now),
                forall|j: int| 0 <= j < i ==> bucket_ok(#[trigger] fresh_buckets@[j]),
                refused == rejected(m, rv.take(i as int), now),
                wait == max_wait(m, rv.take(i as int), now),
            decreases n - i,
        {
            let prev: Option<Bucket> = match self.buckets.get(rules[i].0.as_str()) {
                Some(b) => Some(*b),
                None => None,
            };
            let b = refresh(prev, now, rules[i].1, rules[i].2);
            proof {
                assert(rv.take(i + 1).drop_last() =~= rv.take(i as int));
                assert(rv.take(i + 1).last() == rv[i as int]);
            }
            if b.tokens < TOKEN {
                wait = wmax_exec(wait, wait_exec(&b));
                refused = true;
            }
            fresh_buckets.push(b);
            i = i + 1;
        }
        assert(rv.take(n as int) =~= rv);
        let mut j: usize = 0;
        while j < n
            invariant
                n == rules@.len(),
                rv == rule_views(rules@),
                j <= n,
                self.buckets.wf(),
                self.identities.wf(),
                self.identities@ == old(self).identities@,
                fresh_buckets@.len() == n,
                forall|q: int| 0 <= q < n ==> #[trigger] fresh_buckets@[q] == touched(m, rv[q], now),
                forall|q: int| 0 <= q < n ==> bucket_ok(#[trigger] fresh_buckets@[q]),
                refused == rejected(m, rv, now),
                buckets_ok(self.buckets@),
                self.buckets@ == settle(m, rv.take(j as int), now, refused),
            decreases n - j,
        {
            let b = fresh_buckets[j];
            let nb = if refused {
                b
            } else {
                Bucket { tokens: b.tokens - TOKEN, ..b }
            };
            proof {
                if !refused {
                    lemma_not_rejected_all_grant(m, rv, now, j as int);
                }
                assert(rv.take(j + 1).drop_last() =~= rv.take(j as int));
                assert(rv.take(j + 1).last() == rv[j as int]);
            }
            self.buckets.insert(rules[j].0.clone(), nb);
            j = j + 1;
        }
        assert(rv.take(n as int) =~= rv);
        // identity bookkeeping and the resume exemption
        let exempt = match identity {
            Some(id) => {
                if self.identities.len() >= MAX_IDENTITIES {
                    let kept = retain_fresh(&self.identities, now);
                    self.identities = kept;
                }
                let gap_ok = match self.identities.get(id) {
                    Some(prev) => {
                        let p = *prev;
                        let gap: u64 = if now >= p {
                            now - p
                        } else {
                            0
                        };
                        gap >= idle_exempt
                    },
                    None => true,
                };
                self.identities.insert(string_from(chars_of(id).as_slice()), now);
                gap_ok && idle_exempt > 0
            },
            None => false,
        };
        if !refused || exempt {
            Ok(())
        } else {
            Err(wait)
        }
    }

    /// Drops the bucket of `key` (after a successful login, say).
    pub fn reset(&mut self, key: &str)
        requires
            old(self).wf(),
        ensures
            final(self).wf(),
            final(self).buckets() == old(self).buckets().remove(key@),
            final(self).identities() == old(self).identities(),
    {
        self.buckets.remove(key);
    }
}

/// When no rule refuses, every rule's bucket holds a whole token.
pub proof fn lemma_not_rejected_all_grant(
    m: Map<Seq<char>, Bucket>,
    rs: Seq<(Seq<char>, i32, i32)>,
    now: u64,
    j: int,
)
    requires
        !rejected(m, rs, now),
        0 <= j < rs.len(),
    ensures
        grants(touched(m, rs[j], now)),
    decreases rs.len(),
{
    if j < rs.len() - 1 {
        assert(rs.drop_last()[j] == rs[j]);
        lemma_not_rejected_all_grant(m, rs.drop_last(), now, j);
    }
}

} // verus!

verus! {

// ---------------------------------------------------------------------------
// Concurrency slots
// ---------------------------------------------------------------------------
/// In-flight count of a key (0 when absent).
pub open spec fn count_of(m: Map<Seq<char>, i64>, k: Seq<char>) -> int {
    if m.contains_key(k) {
        m[k] as int
    } else {
        0
    }
}

/// A limited rule whose key is already at its limit.
pub open spec fn full(m: Map<Seq<char>, i64>, r: (Seq<char>, i32)) -> bool {
    r.1 > 0 && count_of(m, r.0) >= r.1
}

/// Index of the first full rule.
pub open spec fn first_full(m: Map<Seq<char>, i64>, rs: Seq<(Seq<char>, i32)>) -> Option<int>
    decreases rs.len(),
{
    if rs.len() == 0 {
        None
    } else {
        match first_full(m, rs.drop_last()) {
            Some(i) => Some(i),
            None => if full(m, rs.last()) {
                Some(rs.len() - 1)
            } else {
                None
            },
        }
    }
}

/// Counts after taking one slot for every limited rule, in order.
pub open spec fn occupy(m: Map<Seq<char>, i64>, rs: Seq<(Seq<char>, i32)>) -> Map<Seq<char>, i64>
    decreases rs.len(),
{
    if rs.len() == 0 {
        m
    } else {
        let p = occupy(m, rs.drop_last());
        let r = rs.last();
        if r.1 > 0 {
            p.insert(r.0, (count_of(p, r.0) + 1) as i64)
        } else {
            p
        }
    }
}

/// Keys of the limited rules, in order.
pub open spec fn limited_keys(rs: Seq<(Seq<char>, i32)>) -> Seq<Seq<char>>
    decreases rs.len(),
{
    if rs.len() == 0 {
        Seq::empty()
    } else if rs.last().1 > 0 {
        limited_keys(rs.drop_last()).push(rs.last().0)
    } else {
        limited_keys(rs.drop_last())
    }
}

/// Counts after giving back one slot per key, in order; a count that
/// reaches zero leaves the table.
pub open spec fn vacate(m: Map<Seq<char>, i64>, ks: Seq<Seq<char>>) -> Map<Seq<char>, i64>
    decreases ks.len(),
{
    if ks.len() == 0 {
        m
    } else {
        let p = vacate(m, ks.drop_last());
        let k = ks.last();
        if !p.contains_key(k) {
            p
        } else if p[k] <= 1 {
            p.remove(k)
        } else {
            p.insert(k, (p[k] - 1) as i64)
        }
    }
}

pub open spec fn limit_views(rs: Seq<(String, i32)>) -> Seq<(Seq<char>, i32)> {
    rs.map_values(|r: (String, i32)| (r.0@, r.1))
}

/// No slice of rules is longer: a rule takes at least 32 bytes and no
/// allocation exceeds `isize::MAX` bytes.
pub const MAX_RULES: u64 = 0x0400_0000_0000_0000;

pub open spec fn counts_ok(m: Map<Seq<char>, i64>) -> bool {
    forall|k: Seq<char>| #[trigger] m.contains_key(k) ==> 1 <= m[k] <= 0x0800_0000_0000_0000
}

/// Slots held by one admitted request; give them back with `release`.
pub struct ConcurrencyGuard {
    keys: Vec<String>,
}

impl ConcurrencyGuard {
    /// Keys whose slots this guard holds (one slot per entry).
    pub closed spec fn keys(&self) -> Seq<Seq<char>> {
        self.keys@.map_values(|s: String| s@)
    }

    pub fn key_count(&self) -> (n: usize)
        ensures
            n == self.keys().len(),
    {
        self.keys.len()
    }
}

/// In-process in-flight counters per bucket key.
pub struct ConcurrencyLimiter {
    counts: Table<i64>,
}

impl ConcurrencyLimiter {
    /// Current in-flight counts (only keys with at least one request).
    pub closed spec fn counts(&self) -> Map<Seq<char>, i64> {
        self.counts@
    }

    pub closed spec fn wf(&self) -> bool {
        &&& self.counts.wf()
        &&& counts_ok(self.counts@)
    }

    pub fn new() -> (r: Self)
        ensures
            r.wf(),
            r.counts() == Map::<Seq<char>, i64>::empty(),
    {
        ConcurrencyLimiter { counts: Table::new() }
    }

    /// In-flight requests under `key`.
    pub fn active_in(&self, key: &str) -> (n: i64)
        ensures
            n == count_of(self.counts(), key@),
    {
        match self.counts.get(key) {
            Some(c) => *c,
            None => 0,
        }
    }

    /// Whether no key is in flight.
    pub fn is_idle(&self) -> (b: bool)
        requires
            self.wf(),
        ensures
            b == (self.counts().len() == 0),
    {
        self.counts.len() == 0
    }

    /// Takes one slot for every rule with a positive limit, all or nothing:
    /// when some limited key is already at its limit, nothing is taken and
    /// the first such (key, limit) is returned.
    pub fn try_acquire(&mut self, rules: &[(String, i32)]) -> (r: Result<ConcurrencyGuard, (String, i32)>)
        requires
            old(self).wf(),
            rules@.len() <= MAX_RULES,
        ensures
            final(self).wf(),
            ({
                let rs = limit_views(rules@);
                let m = old(self).counts();
                match first_full(m, rs) {
                    Some(i) => {
                        &&& r matches Err(e) && e.0@ == rs[i].0 && e.1 == rs[i].1
                        &&& final(self).counts() == m
                    },
                    None => {
                        &&& r matches Ok(g) && g.keys() == limited_keys(rs)
                        &&& final(self).counts() == occupy(m, rs)
                    },
                }
            }),
    {
        let ghost rs = limit_views(rules@);
        let ghost m = self.counts@;
        let n = rules.len();
        let mut i: usize = 0;
        while i < n
            invariant
                n == rules@.len(),
                i <= n,
                rs == limit_views(rules@),
                self.counts@ == m,
                self.wf(),
                counts_ok(m),
                first_full(m, rs.take(i as int)) is None,
            decreases n - i,
        {
            proof {
                assert(rs.take(i + 1).drop_last() =~= rs.take(i as int));
                assert(rs.take(i + 1).last() == rs[i as int]);
            }
            let limit = rules[i].1;
            if limit > 0 {
                let c: i64 = match self.counts.get(rules[i].0.as_str()) {
                    Some(c) => *c,
                    None => 0,
                };
                if c >= limit as i64 {
                    proof {
                        lemma_first_full_prefix(m, rs, i as int);
                    }
                    return Err((rules[i].0.clone(), limit));
                }
            }
            i = i + 1;
        }
        assert(rs.take(n as int) =~= rs);
        let mut keys: Vec<String> = Vec::new();
        let mut j: usize = 0;
        while j < n
            invariant
                n == rules@.len(),
                j <= n,
                n <= MAX_RULES,
                rs == limit_views(rules@),
                first_full(m, rs) is None,
                counts_ok(m),
                self.counts.wf(),
                self.counts@ == occupy(m, rs.take(j as int)),
                keys@.map_values(|s: String| s@) == limited_keys(rs.take(j as int)),
                forall|k: Seq<char>| #[trigger]
                    self.counts@.contains_key(k) ==> 1 <= self.counts@[k] && (self.counts@[k]
                        == count_of(m, k) || (count_of(m, k) < 0x8000_0000 && self.counts@[k]
                        <= count_of(m, k) + j)),
            decreases n - j,
        {
            proof {
                assert(rs.take(j + 1).drop_last() =~= rs.take(j as int));
                assert(rs.take(j + 1).last() == rs[j as int]);
            }
            let limit = rules[j].1;
            if limit > 0 {
                let c: i64 = match self.counts.get(rules[j].0.as_str()) {
                    Some(c) => *c,
                    None => 0,
                };
                proof {
                    lemma_no_full_at(m, rs, j as int);
                    assert(count_of(m, rs[j as int].0) < limit);
                }
                self.counts.insert(rules[j].0.clone(), c + 1);
                keys.push(rules[j].0.clone());
                proof {
                    assert(keys@.map_values(|s: String| s@) =~= limited_keys(rs.take(j + 1)));
                }
            } else {
                proof {
                    assert(keys@.map_values(|s: String| s@) =~= limited_keys(rs.take(j + 1)));
                }
            }
            j = j + 1;
        }
        assert(rs.take(n as int) =~= rs);
        proof {
            assert forall|k: Seq<char>| #[trigger] self.counts@.contains_key(k) implies 1
                <= self.counts@[k] <= 0x0800_0000_0000_0000 by {
                if m.contains_key(k) {
                    assert(count_of(m, k) <= 0x0800_0000_0000_0000);
                }
            }
        }
        Ok(ConcurrencyGuard { keys })
    }

    /// Gives back the slots a guard holds; counts that reach zero leave
    /// the table.
    pub fn release(&mut self, guard: ConcurrencyGuard)
        requires
            old(self).wf(),
        ensures
            final(self).wf(),
            final(self).counts() == vacate(old(self).counts(), guard.keys()),
    {
        let ghost m = self.counts@;
        let ghost ks = guard.keys();
        let n = guard.keys.len();
        let mut i: usize = 0;
        while i < n
            invariant
                n == guard.keys@.len(),
                ks == guard.keys(),
                i <= n,
                self.wf(),
                self.counts@ == vacate(m, ks.take(i as int)),
            decreases n - i,
        {
            proof {
                assert(ks.take(i + 1).drop_last() =~= ks.take(i as int));
                assert(ks.take(i + 1).last() == guard.keys@[i as int]@);
            }
            let k = &guard.keys[i];
            match self.counts.get(k.as_str()) {
                Some(c) => {
                    let c = *c;
                    if c <= 1 {
                        self.counts.remove(k.as_str());
                    } else {
                        self.counts.insert(k.clone(), c - 1);
                    }
                },
                None => {},
            }
            i = i + 1;
        }
        assert(ks.take(n as int) =~= ks);
    }
}

/// The first full rule sits at `i` when the prefix before it has none.
pub proof fn lemma_first_full_prefix(m: Map<Seq<char>, i64>, rs: Seq<(Seq<char>, i32)>, i: int)
    requires
        0 <= i < rs.len(),
        first_full(m, rs.take(i)) is None,
        full(m, rs[i]),
    ensures
        first_full(m, rs) == Some(i),
    decreases rs.len(),
{
    if i < rs.len() - 1 {
        assert(rs.drop_last().take(i) =~= rs.take(i));
        assert(rs.drop_last()[i] == rs[i]);
        lemma_first_full_prefix(m, rs.drop_last(), i);
    } else {
        assert(rs.drop_last() =~= rs.take(i));
    }
}

/// With no full rule, no rule is full.
pub proof fn lemma_no_full_at(m: Map<Seq<char>, i64>, rs: Seq<(Seq<char>, i32)>, i: int)
    requires
        0 <= i < rs.len(),
        first_full(m, rs) is None,
    ensures
        !full(m, rs[i]),
    decreases rs.len(),
{
    if i < rs.len() - 1 {
        assert(rs.drop_last()[i] == rs[i]);
        lemma_no_full_at(m, rs.drop_last(), i);
    }
}

} // verus!

verus! {

// ---------------------------------------------------------------------------
// Applying the configured rules to a request
// ---------------------------------------------------------------------------
/// Calls `rand::Rng::gen_range` on the thread-local generator: a draw in
/// `[0, bound)`. Nothing else is claimed of the draw.
#[verifier::external_body]
fn random_below(bound: u64) -> (r: u64)
    requires
        bound > 0,
    ensures
        r < bound,
{
    rand::Rng::gen_range(&mut rand::thread_rng(), 0..bound)
}

/// Requesting identity: user and key together (`u:{user}|k:{key}`), the user
/// alone (`u:{user}`), or none.
pub open spec fn identity_of(user_id: Option<i64>, key_id: Option<i64>) -> Option<Seq<char>> {
    match (user_id, key_id) {
        (Some(u), Some(k)) => Some("u:"@ + int_decimal(u as int) + "|k:"@ + int_decimal(k as int)),
        (Some(u), None) => Some("u:"@ + int_decimal(u as int)),
        _ => None,
    }
}

fn identity_exec(user_id: Option<i64>, key_id: Option<i64>) -> (r: Option<String>)
    ensures
        match r {
            Some(s) => identity_of(user_id, key_id) == Some(s@),
            None => identity_of(user_id, key_id).is_none(),
        },
{
    match user_id {
        Some(u) => {
            let mut v = chars_of("u:");
            push_all(&mut v, i64_decimal(u).as_slice());
            match key_id {
                Some(k) => {
                    push_str(&mut v, "|k:");
                    push_all(&mut v, i64_decimal(k).as_slice());
                },
                None => {},
            }
            Some(string_from(v.as_slice()))
        },
        None => None,
    }
}

/// Token rules of a request: (key, rpm, burst) of each matched rule.
pub open spec fn token_rules(
    rules: Seq<RateRule>,
    user_id: Option<i64>,
    key_id: Option<i64>,
    model: Seq<char>,
) -> Seq<(Seq<char>, i32, i32)> {
    matched_spec(rules, user_id, key_id, model).map_values(
        |m: (Seq<char>, i32, i32, i32)| (m.0, m.1, m.2),
    )
}

/// Concurrency rules of a request: (key, limit) of each matched rule with a
/// positive in-flight limit.
pub open spec fn conc_rules(
    rules: Seq<RateRule>,
    user_id: Option<i64>,
    key_id: Option<i64>,
    model: Seq<char>,
) -> Seq<(Seq<char>, i32)> {
    conc_of(matched_spec(rules, user_id, key_id, model))
}

/// (key, limit) of the matched rules with a positive in-flight limit.
pub open spec fn conc_of(ms: Seq<(Seq<char>, i32, i32, i32)>) -> Seq<(Seq<char>, i32)>
    decreases ms.len(),
{
    if ms.len() == 0 {
        Seq::empty()
    } else if ms.last().3 > 0 {
        conc_of(ms.drop_last()).push((ms.last().0, ms.last().3))
    } else {
        conc_of(ms.drop_last())
    }
}

/// Rate limits for one request at time `now`: the matched rules' buckets are
/// checked together (see `check_rules_at`) under the request's identity; a
/// refusal's wait is spread by up to one second.
pub fn apply_rate_limits(
    limiter: &mut RateLimiter,
    rules: &[RateRule],
    user_id: Option<i64>,
    key_id: Option<i64>,
    model: &str,
    now: u64,
    idle_exempt: u64,
) -> (r: Result<(), Wait>)
    requires
        old(limiter).wf(),
    ensures
        final(limiter).wf(),
        ({
            let tr = token_rules(rules@, user_id, key_id, model@);
            let m = evict_buckets(old(limiter).buckets(), now);
            let id = identity_of(user_id, key_id);
            let ids = evict_ids(old(limiter).identities(), now);
            &&& final(limiter).buckets() == settle(m, tr, now, rejected(m, tr, now))
            &&& final(limiter).identities() == match id {
                Some(s) => ids.insert(s, now),
                None => old(limiter).identities(),
            }
            &&& match check_outcome(m, tr, now, exempt_granted(ids, id, now, idle_exempt)) {
                Ok(_) => r is Ok,
                Err(Wait::Unbounded) => r == Err::<(), Wait>(Wait::Unbounded),
                Err(Wait::After(w)) => r matches Err(Wait::After(x)) && w <= x < w + 1_000_000_000,
            }
        }),
{
    let matched = matched_rules(rules, user_id, key_id, model);
    let ghost mv = matched@.map_values(|m: MatchedRule| matched_view(m));
    let mut trs: Vec<(String, i32, i32)> = Vec::new();
    let mut i: usize = 0;
    while i < matched.len()
        invariant
            i <= matched@.len(),
            mv == matched@.map_values(|m: MatchedRule| matched_view(m)),
            rule_views(trs@) == mv.take(i as int).map_values(
                |m: (Seq<char>, i32, i32, i32)| (m.0, m.1, m.2),
            ),
        decreases matched@.len() - i,
    {
        let m = &matched[i];
        let ghost prev = trs@;
        trs.push((m.key.clone(), m.rpm, m.burst));
        proof {
            let f = |m: (Seq<char>, i32, i32, i32)| (m.0, m.1, m.2);
            assert(mv.take(i + 1) =~= mv.take(i as int).push(mv[i as int]));
            assert(mv[i as int] == matched_view(matched@[i as int]));
            assert(mv.take(i + 1).map_values(f) =~= mv.take(i as int).map_values(f).push(
                f(mv[i as int]),
            ));
            assert(rule_views(trs@) =~= rule_views(prev).push(
                (trs@[i as int].0@, trs@[i as int].1, trs@[i as int].2),
            ));
        }
        i = i + 1;
    }
    assert(mv.take(matched@.len() as int) =~= mv);
    let identity = identity_exec(user_id, key_id);
    let id_ref: Option<&str> = match &identity {
        Some(s) => Some(s.as_str()),
        None => None,
    };
    let res = limiter.check_rules_at(now, trs.as_slice(), id_ref, idle_exempt);
    match res {
        Ok(()) => Ok(()),
        Err(Wait::Unbounded) => Err(Wait::Unbounded),
        Err(Wait::After(w)) => {
            let j = random_below(1_000_000_000);
            proof {
                lemma_max_wait_bound(
                    evict_buckets(old(limiter).buckets(), now),
                    rule_views(trs@),
                    now,
                );
            }
            Err(Wait::After(w + (j as u128)))
        },
    }
}

/// Waits stay far below the range of `u128`.
pub proof fn lemma_max_wait_bound(m: Map<Seq<char>, Bucket>, rs: Seq<(Seq<char>, i32, i32)>, now: u64)
    requires
        buckets_ok(m),
    ensures
        max_wait(m, rs, now) matches Wait::After(w) ==> w < 0x100_0000_0000_0000_0000_0000_0000,
    decreases rs.len(),
{
    if rs.len() > 0 {
        lemma_max_wait_bound(m, rs.drop_last(), now);
        let b = touched(m, rs.last(), now);
        if !grants(b) && b.rpm > 0 {
            let n = TOKEN - b.tokens + b.rpm - 1;
            assert(n / (b.rpm as int) <= n) by (nonlinear_arith)
                requires
                    n >= 0,
                    b.rpm >= 1,
            ;
        }
    }
}

/// Concurrency limits for one request: matched rules with a positive limit,
/// one entry per key at the strictest limit; admitted when every such key is
/// below every limit configured for it, and then each key takes one slot.
/// A refusal takes nothing and suggests a retry after one to two seconds.
pub fn apply_concurrency_limits(
    limiter: &mut ConcurrencyLimiter,
    rules: &[RateRule],
    user_id: Option<i64>,
    key_id: Option<i64>,
    model: &str,
) -> (r: Result<ConcurrencyGuard, u64>)
    requires
        old(limiter).wf(),
        rules@.len() <= MAX_RULES,
    ensures
        final(limiter).wf(),
        ({
            let cr = conc_rules(rules@, user_id, key_id, model@);
            let m = old(limiter).counts();
            let admitted = forall|i: int| 0 <= i < cr.len() ==> count_of(m, (#[trigger] cr[i]).0) < cr[i].1;
            &&& r is Ok <==> admitted
            &&& r is Err ==> final(limiter).counts() == m
            &&& (r matches Err(retry) ==> 1_000_000_000 <= retry < 2_000_000_000)
            &&& (r matches Ok(g) ==> {
                &&& g.keys().no_duplicates()
                &&& forall|k: Seq<char>| g.keys().contains(k) <==> has_key(cr, k)
                &&& forall|k: Seq<char>| #[trigger] count_of(final(limiter).counts(), k) == count_of(m, k) + if has_key(cr, k) { 1int } else { 0int }
            })
        }),
{
    let matched = matched_rules(rules, user_id, key_id, model);
    let ghost mv = matched@.map_values(|m: MatchedRule| matched_view(m));
    let ghost cr = conc_rules(rules@, user_id, key_id, model@);
    let mut limited: Vec<(String, i32)> = Vec::new();
    let mut i: usize = 0;
    while i < matched.len()
        invariant
            i <= matched@.len(),
            mv == matched@.map_values(|m: MatchedRule| matched_view(m)),
            pairs_view(limited@) == conc_of(mv.take(i as int)),
            limited@.len() <= i,
        decreases matched@.len() - i,
    {
        let m = &matched[i];
        proof {
            assert(mv.take(i + 1).drop_last() =~= mv.take(i as int));
            assert(mv.take(i + 1).last() == mv[i as int]);
            assert(mv[i as int] == matched_view(matched@[i as int]));
        }
        if m.concurrency > 0 {
            limited.push((m.key.clone(), m.concurrency));
        }
        proof {
            assert(pairs_view(limited@) =~= conc_of(mv.take(i + 1)));
        }
        i = i + 1;
    }
    assert(mv.take(matched@.len() as int) =~= mv);
    assert(pairs_view(limited@) == cr);
    proof {
        lemma_conc_rules_positive(cr, rules@, user_id, key_id, model@);
    }
    let deduped = dedup_min_limit(limited);
    let ghost dv = pairs_view(deduped@);
    proof {
        lemma_dedup_props(cr, dv);
        assert(limit_views(deduped@) == dv);
    }
    let res = limiter.try_acquire(deduped.as_slice());
    proof {
        lemma_first_full_iff(old(limiter).counts(), dv);
        lemma_admitted_by_min(old(limiter).counts(), cr, dv);
    }
    match res {
        Ok(g) => {
            proof {
                lemma_occupy_distinct(old(limiter).counts(), dv);
                lemma_limited_keys_all(dv);
                assert forall|k: Seq<char>| g.keys().contains(k) <==> has_key(cr, k) by {
                    if g.keys().contains(k) {
                        let a = choose|a: int| 0 <= a < g.keys().len() && g.keys()[a] == k;
                        assert(dv[a].0 == k);
                        assert(has_key(dv, k));
                    }
                    if has_key(cr, k) {
                        assert(has_key(dv, k));
                        let a = choose|a: int| 0 <= a < dv.len() && dv[a].0 == k;
                        assert(g.keys()[a] == k);
                    }
                }
                assert forall|k: Seq<char>| #[trigger] count_of(final(limiter).counts(), k) == count_of(old(limiter).counts(), k) + if has_key(cr, k) { 1int } else { 0int } by {
                    assert(has_key(cr, k) == has_key(dv, k));
                }
            }
            Ok(g)
        },
        Err(_) => {
            let j = random_below(1_000_000_000);
            Err(1_000_000_000 + j)
        },
    }
}

/// Every concurrency rule has a positive limit.
pub proof fn lemma_conc_rules_positive(
    cr: Seq<(Seq<char>, i32)>,
    rules: Seq<RateRule>,
    user_id: Option<i64>,
    key_id: Option<i64>,
    model: Seq<char>,
)
    requires
        cr == conc_rules(rules, user_id, key_id, model),
    ensures
        forall|i: int| 0 <= i < cr.len() ==> (#[trigger] cr[i]).1 > 0,
{
    lemma_conc_of_positive(matched_spec(rules, user_id, key_id, model));
}

pub proof fn lemma_conc_of_positive(ms: Seq<(Seq<char>, i32, i32, i32)>)
    ensures
        forall|i: int| 0 <= i < conc_of(ms).len() ==> (#[trigger] conc_of(ms)[i]).1 > 0,
    decreases ms.len(),
{
    if ms.len() > 0 {
        lemma_conc_of_positive(ms.drop_last());
        let c = conc_of(ms.drop_last());
        assert forall|i: int| 0 <= i < conc_of(ms).len() implies (#[trigger] conc_of(ms)[i]).1 > 0 by {
            if i < c.len() {
                assert(conc_of(ms)[i] == c[i]);
            }
        }
    }
}

/// The de-duplicated list: distinct keys, positive limits, the same keys as
/// its input.
pub proof fn lemma_dedup_props(cr: Seq<(Seq<char>, i32)>, dv: Seq<(Seq<char>, i32)>)
    requires
        forall|i: int| 0 <= i < cr.len() ==> (#[trigger] cr[i]).1 > 0,
        keys_sorted(dv),
        forall|k: Seq<char>| has_key(cr, k) <==> has_key(dv, k),
        forall|i: int| 0 <= i < dv.len() ==> is_min_limit(cr, #[trigger] dv[i].0, dv[i].1),
    ensures
        forall|i: int, j: int| 0 <= i < j < dv.len() ==> dv[i].0 != dv[j].0,
        forall|i: int| 0 <= i < dv.len() ==> (#[trigger] dv[i]).1 > 0,
{
    assert forall|i: int, j: int| 0 <= i < j < dv.len() implies dv[i].0 != dv[j].0 by {
        lemma_lex_irreflexive(dv[i].0);
    }
    assert forall|i: int| 0 <= i < dv.len() implies (#[trigger] dv[i]).1 > 0 by {
        assert(is_min_limit(cr, dv[i].0, dv[i].1));
    }
}

/// No full rule exactly when every rule is below its limit.
pub proof fn lemma_first_full_iff(m: Map<Seq<char>, i64>, rs: Seq<(Seq<char>, i32)>)
    ensures
        first_full(m, rs) is None <==> forall|i: int| 0 <= i < rs.len() ==> !full(m, #[trigger] rs[i]),
    decreases rs.len(),
{
    if rs.len() > 0 {
        lemma_first_full_iff(m, rs.drop_last());
        if first_full(m, rs) is None {
            assert forall|i: int| 0 <= i < rs.len() implies !full(m, #[trigger] rs[i]) by {
                if i < rs.len() - 1 {
                    assert(rs.drop_last()[i] == rs[i]);
                }
            }
        }
        if forall|i: int| 0 <= i < rs.len() ==> !full(m, #[trigger] rs[i]) {
            assert forall|i: int| 0 <= i < rs.len() - 1 implies !full(m, #[trigger] rs.drop_last()[i]) by {
                assert(rs.drop_last()[i] == rs[i]);
            }
            assert(!full(m, rs[rs.len() - 1]));
        }
    }
}

/// Below the strictest limit of each key exactly when below every limit.
pub proof fn lemma_admitted_by_min(
    m: Map<Seq<char>, i64>,
    cr: Seq<(Seq<char>, i32)>,
    dv: Seq<(Seq<char>, i32)>,
)
    requires
        forall|i: int| 0 <= i < cr.len() ==> (#[trigger] cr[i]).1 > 0,
        forall|k: Seq<char>| has_key(cr, k) <==> has_key(dv, k),
        forall|i: int| 0 <= i < dv.len() ==> is_min_limit(cr, #[trigger] dv[i].0, dv[i].1),
    ensures
        (forall|i: int| 0 <= i < dv.len() ==> !full(m, #[trigger] dv[i])) <==> (forall|i: int|
            0 <= i < cr.len() ==> count_of(m, (#[trigger] cr[i]).0) < cr[i].1),
{
    if forall|i: int| 0 <= i < dv.len() ==> !full(m, #[trigger] dv[i]) {
        assert forall|i: int| 0 <= i < cr.len() implies count_of(m, (#[trigger] cr[i]).0) < cr[i].1 by {
            assert(has_key(cr, cr[i].0));
            assert(has_key(dv, cr[i].0));
            let a = choose|a: int| 0 <= a < dv.len() && dv[a].0 == cr[i].0;
            assert(is_min_limit(cr, dv[a].0, dv[a].1));
            assert(!full(m, dv[a]));
        }
    }
    if forall|i: int| 0 <= i < cr.len() ==> count_of(m, (#[trigger] cr[i]).0) < cr[i].1 {
        assert forall|i: int| 0 <= i < dv.len() implies !full(m, #[trigger] dv[i]) by {
            assert(is_min_limit(cr, dv[i].0, dv[i].1));
            let a = choose|a: int| 0 <= a < cr.len() && cr[a].0 == dv[i].0 && cr[a].1 == dv[i].1;
            assert(count_of(m, cr[a].0) < cr[a].1);
        }
    }
}

/// Occupying rules with distinct keys and positive limits adds one to each
/// of their keys.
pub proof fn lemma_occupy_distinct(m: Map<Seq<char>, i64>, rs: Seq<(Seq<char>, i32)>)
    requires
        counts_ok(m),
        forall|i: int, j: int| 0 <= i < j < rs.len() ==> rs[i].0 != rs[j].0,
        forall|i: int| 0 <= i < rs.len() ==> (#[trigger] rs[i]).1 > 0,
    ensures
        forall|k: Seq<char>| #[trigger] count_of(occupy(m, rs), k) == count_of(m, k) + if has_key(rs, k) { 1int } else { 0int },
    decreases rs.len(),
{
    if rs.len() > 0 {
        let d = rs.drop_last();
        assert forall|i: int, j: int| 0 <= i < j < d.len() implies d[i].0 != d[j].0 by {
            assert(d[i] == rs[i]);
            assert(d[j] == rs[j]);
        }
        assert forall|i: int| 0 <= i < d.len() implies (#[trigger] d[i]).1 > 0 by {
            assert(d[i] == rs[i]);
        }
        lemma_occupy_distinct(m, d);
        let last = rs.last();
        assert(last == rs[rs.len() - 1]);
        assert(count_of(m, last.0) <= 0x0800_0000_0000_0000);
        let p = occupy(m, d);
        assert(count_of(p, last.0) == count_of(m, last.0));
        assert(occupy(m, rs) == p.insert(last.0, (count_of(p, last.0) + 1) as i64));
        assert(!has_key(d, last.0)) by {
            if has_key(d, last.0) {
                let a = choose|a: int| 0 <= a < d.len() && d[a].0 == last.0;
                assert(d[a] == rs[a]);
            }
        }
        assert forall|k: Seq<char>| #[trigger] count_of(occupy(m, rs), k) == count_of(m, k) + if has_key(rs, k) { 1int } else { 0int } by {
            assert(count_of(p, k) == count_of(m, k) + if has_key(d, k) { 1int } else { 0int });
            if k == last.0 {
                assert(rs[rs.len() - 1].0 == k);
                assert(has_key(rs, k));
            }
            if has_key(rs, k) && k != last.0 {
                let a = choose|a: int| 0 <= a < rs.len() && rs[a].0 == k;
                assert(a < rs.len() - 1);
                assert(d[a] == rs[a]);
            }
            if has_key(d, k) {
                let a = choose|a: int| 0 <= a < d.len() && d[a].0 == k;
                assert(rs[a] == d[a]);
            }
        }
    }
}

/// With every limit positive, the guard holds every rule's key.
pub proof fn lemma_limited_keys_all(rs: Seq<(Seq<char>, i32)>)
    requires
        forall|i: int| 0 <= i < rs.len() ==> (#[trigger] rs[i]).1 > 0,
    ensures
        limited_keys(rs) == rs.map_values(|r: (Seq<char>, i32)| r.0),
    decreases rs.len(),
{
    if rs.len() > 0 {
        let d = rs.drop_last();
        assert forall|i: int| 0 <= i < d.len() implies (#[trigger] d[i]).1 > 0 by {
            assert(d[i] == rs[i]);
        }
        lemma_limited_keys_all(d);
        assert(rs.last() == rs[rs.len() - 1]);
        assert(limited_keys(rs) =~= rs.map_values(|r: (Seq<char>, i32)| r.0));
    }
}

} // verus!

verus! {

// ---------------------------------------------------------------------------
// Laws
// ---------------------------------------------------------------------------
/// `rs[i]` is the last rule naming its key.
pub open spec fn last_of_key(rs: Seq<(Seq<char>, i32, i32)>, i: int) -> bool {
    0 <= i < rs.len() && forall|j: int| i < j < rs.len() ==> (#[trigger] rs[j]).0 != rs[i].0
}

/// No rule names key `k`.
pub open spec fn untouched_key(rs: Seq<(Seq<char>, i32, i32)>, k: Seq<char>) -> bool {
    forall|j: int| 0 <= j < rs.len() ==> (#[trigger] rs[j]).0 != k
}

/// What write-back leaves under each key.
pub proof fn lemma_settle_at(
    m: Map<Seq<char>, Bucket>,
    rs: Seq<(Seq<char>, i32, i32)>,
    now: u64,
    refused: bool,
    i: int,
)
    requires
        last_of_key(rs, i),
    ensures
        settle(m, rs, now, refused).contains_key(rs[i].0),
        settle(m, rs, now, refused)[rs[i].0] == settled(touched(m, rs[i], now), refused),
    decreases rs.len(),
{
    if i < rs.len() - 1 {
        let d = rs.drop_last();
        assert(d[i] == rs[i]);
        assert forall|j: int| i < j < d.len() implies (#[trigger] d[j]).0 != d[i].0 by {
            assert(d[j] == rs[j]);
        }
        lemma_settle_at(m, d, now, refused, i);
        assert(rs.last() == rs[rs.len() - 1]);
    }
}

pub proof fn lemma_settle_other(
    m: Map<Seq<char>, Bucket>,
    rs: Seq<(Seq<char>, i32, i32)>,
    now: u64,
    refused: bool,
    k: Seq<char>,
)
    requires
        untouched_key(rs, k),
    ensures
        settle(m, rs, now, refused).contains_key(k) == m.contains_key(k),
        m.contains_key(k) ==> settle(m, rs, now, refused)[k] == m[k],
    decreases rs.len(),
{
    if rs.len() > 0 {
        let d = rs.drop_last();
        assert forall|j: int| 0 <= j < d.len() implies (#[trigger] d[j]).0 != k by {
            assert(d[j] == rs[j]);
        }
        lemma_settle_other(m, d, now, refused, k);
        assert(rs.last() == rs[rs.len() - 1]);
    }
}

/// Some rule refuses exactly when `rejected` says so.
pub proof fn lemma_rejected_iff(m: Map<Seq<char>, Bucket>, rs: Seq<(Seq<char>, i32, i32)>, now: u64)
    ensures
        rejected(m, rs, now) <==> exists|i: int| 0 <= i < rs.len() && !grants(touched(m, #[trigger] rs[i], now)),
    decreases rs.len(),
{
    if rs.len() > 0 {
        let d = rs.drop_last();
        lemma_rejected_iff(m, d, now);
        if rejected(m, d, now) {
            let i = choose|i: int| 0 <= i < d.len() && !grants(touched(m, #[trigger] d[i], now));
            assert(d[i] == rs[i]);
        }
        if !grants(touched(m, rs.last(), now)) {
            assert(rs.last() == rs[rs.len() - 1]);
        }
        if exists|i: int| 0 <= i < rs.len() && !grants(touched(m, #[trigger] rs[i], now)) {
            let i = choose|i: int| 0 <= i < rs.len() && !grants(touched(m, #[trigger] rs[i], now));
            if i < rs.len() - 1 {
                assert(d[i] == rs[i]);
            }
        }
    }
}

/// A refused request takes no token: the bucket left under each key a rule
/// names is exactly that rule's refilled bucket.
pub proof fn law_refusal_takes_no_token(
    m: Map<Seq<char>, Bucket>,
    rs: Seq<(Seq<char>, i32, i32)>,
    now: u64,
    i: int,
)
    requires
        rejected(m, rs, now),
        last_of_key(rs, i),
    ensures
        settle(m, rs, now, rejected(m, rs, now))[rs[i].0] == touched(m, rs[i], now),
{
    lemma_settle_at(m, rs, now, true, i);
}

/// An admitted request takes exactly one token from each bucket it names,
/// and each such bucket held at least one.
pub proof fn law_pass_takes_one_token_each(
    m: Map<Seq<char>, Bucket>,
    rs: Seq<(Seq<char>, i32, i32)>,
    now: u64,
    i: int,
)
    requires
        !rejected(m, rs, now),
        last_of_key(rs, i),
    ensures
        touched(m, rs[i], now).tokens >= TOKEN,
        settle(m, rs, now, rejected(m, rs, now))[rs[i].0].tokens == touched(m, rs[i], now).tokens
            - TOKEN,
{
    lemma_settle_at(m, rs, now, false, i);
    lemma_not_rejected_all_grant(m, rs, now, i);
}

/// Buckets no rule names are left as they were, whatever the answer.
pub proof fn law_other_buckets_unchanged(
    m: Map<Seq<char>, Bucket>,
    rs: Seq<(Seq<char>, i32, i32)>,
    now: u64,
    k: Seq<char>,
)
    requires
        untouched_key(rs, k),
    ensures
        settle(m, rs, now, rejected(m, rs, now)).contains_key(k) == m.contains_key(k),
        m.contains_key(k) ==> settle(m, rs, now, rejected(m, rs, now))[k] == m[k],
{
    lemma_settle_other(m, rs, now, rejected(m, rs, now), k);
}

/// `a` is no longer a wait than `b`.
pub open spec fn wait_le(a: Wait, b: Wait) -> bool {
    match (a, b) {
        (_, Wait::Unbounded) => true,
        (Wait::After(x), Wait::After(y)) => x <= y,
        _ => false,
    }
}

/// The wait of a refusal is the longest wait among the refusing buckets:
/// no refusing bucket needs longer, and one needs exactly that long.
pub proof fn law_retry_is_longest_wait(
    m: Map<Seq<char>, Bucket>,
    rs: Seq<(Seq<char>, i32, i32)>,
    now: u64,
)
    requires
        rejected(m, rs, now),
    ensures
        forall|i: int|
            0 <= i < rs.len() && !grants(touched(m, rs[i], now)) ==> wait_le(
                wait_of(touched(m, #[trigger] rs[i], now)),
                max_wait(m, rs, now),
            ),
        exists|i: int|
            0 <= i < rs.len() && !grants(touched(m, #[trigger] rs[i], now)) && max_wait(m, rs, now)
                == wait_of(touched(m, rs[i], now)),
    decreases rs.len(),
{
    let d = rs.drop_last();
    let b = touched(m, rs.last(), now);
    assert(rs.last() == rs[rs.len() - 1]);
    lemma_wait_ge_zero(m, d, now);
    if rejected(m, d, now) {
        law_retry_is_longest_wait(m, d, now);
        assert forall|i: int|
            0 <= i < rs.len() && !grants(touched(m, rs[i], now)) implies wait_le(
            wait_of(touched(m, #[trigger] rs[i], now)),
            max_wait(m, rs, now),
        ) by {
            if i < d.len() {
                assert(d[i] == rs[i]);
            }
        }
        let i0 = choose|i: int|
            0 <= i < d.len() && !grants(touched(m, #[trigger] d[i], now)) && max_wait(m, d, now)
                == wait_of(touched(m, d[i], now));
        assert(d[i0] == rs[i0]);
        if !grants(b) {
            if max_wait(m, rs, now) == wait_of(b) {
                assert(!grants(touched(m, rs[rs.len() - 1], now)));
            }
        }
    } else {
        assert forall|i: int|
            0 <= i < rs.len() && !grants(touched(m, rs[i], now)) implies wait_le(
            wait_of(touched(m, #[trigger] rs[i], now)),
            max_wait(m, rs, now),
        ) by {
            if i < d.len() {
                assert(d[i] == rs[i]);
                lemma_rejected_iff(m, d, now);
            }
        }
        assert(!grants(touched(m, rs[rs.len() - 1], now)));
    }
}

/// With nothing refusing, the running maximum is zero.
pub proof fn lemma_wait_ge_zero(m: Map<Seq<char>, Bucket>, rs: Seq<(Seq<char>, i32, i32)>, now: u64)
    ensures
        !rejected(m, rs, now) ==> max_wait(m, rs, now) == Wait::After(0),
    decreases rs.len(),
{
    if rs.len() > 0 {
        lemma_wait_ge_zero(m, rs.drop_last(), now);
    }
}

/// A bucket never holds more than its burst: after a check, each bucket a
/// rule names holds at most `burst` tokens of that rule.
pub proof fn law_bucket_capped_at_burst(
    m: Map<Seq<char>, Bucket>,
    rs: Seq<(Seq<char>, i32, i32)>,
    now: u64,
    i: int,
)
    requires
        last_of_key(rs, i),
    ensures
        settle(m, rs, now, rejected(m, rs, now))[rs[i].0].tokens <= rs[i].2 * TOKEN,
        settle(m, rs, now, rejected(m, rs, now))[rs[i].0].burst == rs[i].2,
{
    lemma_settle_at(m, rs, now, rejected(m, rs, now), i);
}

/// The resume exemption is granted at most once per idle gap: right after
/// a check under identity `id` at `now`, a check under `id` at `t` earlier
/// than `idle` later (and within the eviction window) gets no exemption.
pub proof fn law_exemption_once_per_gap(
    ids: Map<Seq<char>, u64>,
    id: Seq<char>,
    now: u64,
    t: u64,
    idle: u64,
)
    requires
        elapsed(t, now) < idle,
        elapsed(t, now) < IDLE_EVICT_AFTER,
    ensures
        !exempt_granted(evict_ids(evict_ids(ids, now).insert(id, now), t), Some(id), t, idle),
{
    let after = evict_ids(ids, now).insert(id, now);
    assert(after.contains_key(id) && after[id] == now);
    if after.len() >= MAX_IDENTITIES {
        assert(fresh_part(after, t).contains_key(id));
    }
}

/// The bucket keys of the rules are distinct.
pub open spec fn distinct_keys(rs: Seq<(Seq<char>, i32, i32)>) -> bool {
    forall|a: int, b: int| 0 <= a < rs.len() && 0 <= b < rs.len() && a != b ==> rs[a].0 != rs[b].0
}

proof fn lemma_rejected_witness(m: Map<Seq<char>, Bucket>, rs: Seq<(Seq<char>, i32, i32)>, now: u64)
    requires
        rejected(m, rs, now),
    ensures
        exists|j: int| 0 <= j < rs.len() && !grants(#[trigger] touched(m, rs[j], now)),
    decreases rs.len(),
{
    if rejected(m, rs.drop_last(), now) {
        lemma_rejected_witness(m, rs.drop_last(), now);
        let j = choose|j: int| 0 <= j < rs.drop_last().len() && !grants(#[trigger] touched(m, rs.drop_last()[j], now));
        assert(rs[j] == rs.drop_last()[j]);
    } else {
        assert(!grants(touched(m, rs[rs.len() - 1], now)));
    }
}

proof fn lemma_rejected_at(m: Map<Seq<char>, Bucket>, rs: Seq<(Seq<char>, i32, i32)>, now: u64, j: int)
    requires
        0 <= j < rs.len(),
        !grants(touched(m, rs[j], now)),
    ensures
        rejected(m, rs, now),
    decreases rs.len(),
{
    if j < rs.len() - 1 {
        assert(rs.drop_last()[j] == rs[j]);
        lemma_rejected_at(m, rs.drop_last(), now, j);
    }
}

/// The resume exemption lets one refused request through, not its
/// repeat: when a request that some bucket refuses is let through under
/// an idle identity, the identical request at the same instant is refused
/// (the exemption took no token and recorded the identity as active). With
/// the exemption switched off (`idle == 0`) the first request is refused.
/// This holds when the rules name distinct buckets and the bucket table is
/// not full afterwards.
pub proof fn law_exemption_not_repeated(
    buckets: Map<Seq<char>, Bucket>,
    ids: Map<Seq<char>, u64>,
    rs: Seq<(Seq<char>, i32, i32)>,
    id: Seq<char>,
    now: u64,
    idle: u64,
)
    requires
        distinct_keys(rs),
        rejected(evict_buckets(buckets, now), rs, now),
        settle(evict_buckets(buckets, now), rs, now, true).len() < MAX_BUCKETS,
    ensures
        check_outcome(evict_buckets(buckets, now), rs, now, exempt_granted(evict_ids(ids, now), Some(id), now, 0)) is Err,
        exempt_granted(evict_ids(ids, now), Some(id), now, idle) ==> ({
            let m1 = evict_buckets(buckets, now);
            let b2 = settle(m1, rs, now, true);
            let i2 = evict_ids(ids, now).insert(id, now);
            &&& check_outcome(m1, rs, now, true) == Ok::<(), Wait>(())
            &&& check_outcome(evict_buckets(b2, now), rs, now, exempt_granted(evict_ids(i2, now), Some(id), now, idle)) is Err
        }),
{
    let m1 = evict_buckets(buckets, now);
    if exempt_granted(evict_ids(ids, now), Some(id), now, idle) {
        let b2 = settle(m1, rs, now, true);
        lemma_rejected_witness(m1, rs, now);
        let j = choose|j: int| 0 <= j < rs.len() && !grants(#[trigger] touched(m1, rs[j], now));
        assert(last_of_key(rs, j));
        lemma_settle_at(m1, rs, now, true, j);
        assert(evict_buckets(b2, now) == b2);
        assert(touched(b2, rs[j], now) == touched(m1, rs[j], now));
        lemma_rejected_at(b2, rs, now, j);
        law_exemption_once_per_gap(ids, id, now, now, idle);
    }
}

// -- concurrency: releasing a guard gives back exactly what it took ----------
/// Occurrences of `k` in `ks`.
pub open spec fn occ(ks: Seq<Seq<char>>, k: Seq<char>) -> int
    decreases ks.len(),
{
    if ks.len() == 0 {
        0
    } else {
        occ(ks.drop_last(), k) + if ks.last() == k {
            1int
        } else {
            0int
        }
    }
}

pub open spec fn positive_counts(m: Map<Seq<char>, i64>) -> bool {
    forall|k: Seq<char>| #[trigger] m.contains_key(k) ==> m[k] >= 1
}

pub proof fn lemma_occ_le_len(ks: Seq<Seq<char>>, k: Seq<char>)
    ensures
        0 <= occ(ks, k) <= ks.len(),
    decreases ks.len(),
{
    if ks.len() > 0 {
        lemma_occ_le_len(ks.drop_last(), k);
    }
}

pub proof fn lemma_limited_keys_len(rs: Seq<(Seq<char>, i32)>)
    ensures
        limited_keys(rs).len() <= rs.len(),
    decreases rs.len(),
{
    if rs.len() > 0 {
        lemma_limited_keys_len(rs.drop_last());
    }
}

/// Occupying adds the occurrences of each key among the limited rules.
pub proof fn lemma_occupy_counts(m: Map<Seq<char>, i64>, rs: Seq<(Seq<char>, i32)>)
    requires
        counts_ok(m),
        rs.len() <= MAX_RULES,
    ensures
        positive_counts(occupy(m, rs)),
        forall|k: Seq<char>|
            #[trigger] count_of(occupy(m, rs), k) == count_of(m, k) + occ(limited_keys(rs), k),
        forall|k: Seq<char>| #[trigger] occupy(m, rs).contains_key(k) ==> occupy(m, rs)[k] <= 0x0800_0000_0000_0000 + rs.len(),
    decreases rs.len(),
{
    if rs.len() > 0 {
        let d = rs.drop_last();
        lemma_occupy_counts(m, d);
        let p = occupy(m, d);
        let r = rs.last();
        lemma_limited_keys_len(d);
        if r.1 > 0 {
            lemma_occ_le_len(limited_keys(d), r.0);
            assert(count_of(p, r.0) <= 0x0800_0000_0000_0000 + d.len()) by {
                if !m.contains_key(r.0) {
                } else {
                }
            }
            assert(occupy(m, rs) == p.insert(r.0, (count_of(p, r.0) + 1) as i64));
            assert(limited_keys(rs) == limited_keys(d).push(r.0));
            assert forall|k: Seq<char>| #[trigger] count_of(occupy(m, rs), k) == count_of(m, k) + occ(limited_keys(rs), k) by {
                assert(limited_keys(rs).drop_last() =~= limited_keys(d));
                assert(count_of(p, k) == count_of(m, k) + occ(limited_keys(d), k));
            }
        } else {
            assert(limited_keys(rs) == limited_keys(d));
        }
    }
}

/// Giving back one slot per key of `ks` subtracts its occurrences.
pub proof fn lemma_vacate_counts(m: Map<Seq<char>, i64>, ks: Seq<Seq<char>>)
    requires
        positive_counts(m),
        forall|k: Seq<char>| occ(ks, k) <= #[trigger] count_of(m, k),
    ensures
        positive_counts(vacate(m, ks)),
        forall|k: Seq<char>| #[trigger] count_of(vacate(m, ks), k) == count_of(m, k) - occ(ks, k),
    decreases ks.len(),
{
    if ks.len() > 0 {
        let d = ks.drop_last();
        let k0 = ks.last();
        assert forall|k: Seq<char>| occ(d, k) <= #[trigger] count_of(m, k) by {
            assert(occ(ks, k) <= count_of(m, k));
        }
        lemma_vacate_counts(m, d);
        let p = vacate(m, d);
        assert(occ(ks, k0) <= count_of(m, k0));
        assert(count_of(p, k0) == count_of(m, k0) - occ(d, k0));
        assert(count_of(p, k0) >= 1);
        assert forall|k: Seq<char>| #[trigger] count_of(vacate(m, ks), k) == count_of(m, k) - occ(ks, k) by {
            assert(count_of(p, k) == count_of(m, k) - occ(d, k));
        }
    }
}

/// Maps with positive values agree when every key counts the same.
pub proof fn lemma_counts_ext(a: Map<Seq<char>, i64>, b: Map<Seq<char>, i64>)
    requires
        positive_counts(a),
        positive_counts(b),
        forall|k: Seq<char>| #[trigger] count_of(a, k) == count_of(b, k),
    ensures
        a == b,
{
    assert forall|k: Seq<char>| a.contains_key(k) <==> b.contains_key(k) by {
        assert(count_of(a, k) == count_of(b, k));
    }
    assert forall|k: Seq<char>| a.contains_key(k) implies a[k] == b[k] by {
        assert(count_of(a, k) == count_of(b, k));
    }
    assert(a =~= b);
}

/// Releasing the guard of an admitted request gives back exactly the slots
/// it took: the counts return to what they were before, and keys that had no
/// request in flight leave the table again.
pub proof fn law_release_undoes_acquire(m: Map<Seq<char>, i64>, rs: Seq<(Seq<char>, i32)>)
    requires
        counts_ok(m),
        rs.len() <= MAX_RULES,
    ensures
        vacate(occupy(m, rs), limited_keys(rs)) == m,
{
    lemma_occupy_counts(m, rs);
    let o = occupy(m, rs);
    let ks = limited_keys(rs);
    assert forall|k: Seq<char>| occ(ks, k) <= #[trigger] count_of(o, k) by {
        assert(count_of(o, k) == count_of(m, k) + occ(ks, k));
    }
    lemma_vacate_counts(o, ks);
    assert forall|k: Seq<char>| #[trigger] count_of(vacate(o, ks), k) == count_of(m, k) by {
        assert(count_of(o, k) == count_of(m, k) + occ(ks, k));
    }
    lemma_counts_ext(vacate(o, ks), m);
}

} // verus!

verus! {

/// An `api_key` rule limits the request's API key: it applies exactly when
/// the request's key id is the rule's id, whatever the user, and its bucket
/// is `key:<id>`. A `user` rule likewise follows the user id alone.
pub proof fn law_scope_follows_its_id(rule: RateRule, user_id: Option<i64>, key_id: Option<i64>, k: i64)
    requires
        rule.scope_id == Some(k),
    ensures
        rule.scope@ == "api_key"@ ==> scope_key(rule, user_id, key_id) == if key_id == Some(k) {
            Some("key:"@ + int_decimal(k as int))
        } else {
            None::<Seq<char>>
        },
        rule.scope@ == "user"@ ==> scope_key(rule, user_id, key_id) == if user_id == Some(k) {
            Some("user:"@ + int_decimal(k as int))
        } else {
            None::<Seq<char>>
        },
{
    reveal_strlit("api_key");
    reveal_strlit("user");
    reveal_strlit("global");
    assert("api_key"@.len() == 7 && "user"@.len() == 4 && "global"@.len() == 6);
    if rule.scope@ == "api_key"@ {
        assert(rule.scope@ != "global"@ && rule.scope@ != "user"@);
    }
    if rule.scope@ == "user"@ {
        assert(rule.scope@ != "global"@);
    }
}

} // verus!

verus! {

/// A global rule applies to every request under the bucket `global`; a
/// rule limited to a model applies only to that exact model, under its
/// scope's bucket with `|model:<model>` appended; a rule without a model
/// applies to every model under its scope's bucket.
pub proof fn law_rule_key_scopes(rule: RateRule, user_id: Option<i64>, key_id: Option<i64>, model: Seq<char>)
    ensures
        rule.scope@ == "global"@ && rule.model is None ==> rule_key(rule, user_id, key_id, model) == Some("global"@),
        rule.model matches Some(m) ==> (rule_key(rule, user_id, key_id, model) is Some ==> m@ == model
            && rule_key(rule, user_id, key_id, model) == Some(
            scope_key(rule, user_id, key_id)->Some_0 + "|model:"@ + model,
        )),
        rule.model is None ==> rule_key(rule, user_id, key_id, model) == scope_key(rule, user_id, key_id),
{
}

} // verus!
