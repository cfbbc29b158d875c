//! Model routing: route selection by pattern, the per-provider model
//! switch-off list and the per-user access allow-list.
use std::collections::HashMap;
use vstd::hash_set::StringHashSet;
use vstd::prelude::*;

use crate::text::{chars_of, has_prefix, seq_eq, starts_with};

verus! {

broadcast use {
    vstd::std_specs::hash::group_hash_axioms,
};

/// A routing rule (its model pattern is what route selection reads).
pub struct ModelRoute {
    pub model_pattern: String,
}

/// One allow-list entry: `None` provider = any provider, `None` pattern =
/// every model.
pub struct UserAccessRule {
    pub provider_id: Option<i64>,
    pub model_pattern: Option<String>,
}

/// Pattern match: a trailing `*` matches any model with the rest as prefix;
/// otherwise only the exact name.
pub open spec fn pattern_matches(pattern: Seq<char>, model: Seq<char>) -> bool {
    if pattern.len() > 0 && pattern.last() == '*' {
        has_prefix(model, pattern.drop_last())
    } else {
        pattern == model
    }
}

pub fn matches_pattern(pattern: &str, model: &str) -> (r: bool)
    ensures
        r == pattern_matches(pattern@, model@),
{
    let p = chars_of(pattern);
    let m = chars_of(model);
    let n = p.len();
    if n > 0 && p[n - 1] == '*' {
        let prefix = crate::text::slice_range(p.as_slice(), 0, n - 1);
        assert(prefix@ =~= p@.drop_last());
        starts_with(m.as_slice(), prefix.as_slice())
    } else {
        seq_eq(p.as_slice(), m.as_slice())
    }
}

/// Index of the route a model goes to: the first route whose pattern equals
/// the model; failing that, the first route whose pattern matches it
/// (routes come ordered by priority).
pub open spec fn route_index(routes: Seq<ModelRoute>, model: Seq<char>) -> Option<int> {
    if exists|i: int| 0 <= i < routes.len() && routes[i].model_pattern@ == model {
        Some(
            choose|i: int|
                0 <= i < routes.len() && routes[i].model_pattern@ == model && forall|j: int|
                    0 <= j < i ==> routes[j].model_pattern@ != model,
        )
    } else if exists|i: int| 0 <= i < routes.len() && pattern_matches(routes[i].model_pattern@, model) {
        Some(
            choose|i: int|
                0 <= i < routes.len() && pattern_matches(routes[i].model_pattern@, model) && forall|
                    j: int,
                | 0 <= j < i ==> !pattern_matches(routes[j].model_pattern@, model),
        )
    } else {
        None
    }
}

/// First index satisfying the exact test, or the first matching one.
fn first_exact(routes: &[ModelRoute], model: &[char]) -> (r: Option<usize>)
    ensures
        match r {
            Some(i) => i < routes@.len() && routes@[i as int].model_pattern@ == model@ && forall|
                j: int,
            | 0 <= j < i ==> routes@[j].model_pattern@ != model@,
            None => forall|j: int| 0 <= j < routes@.len() ==> routes@[j].model_pattern@ != model@,
        },
{
    let mut i: usize = 0;
    while i < routes.len()
        invariant
            i <= routes@.len(),
            forall|j: int| 0 <= j < i ==> routes@[j].model_pattern@ != model@,
        decreases routes@.len() - i,
    {
        if seq_eq(chars_of(routes[i].model_pattern.as_str()).as_slice(), model) {
            return Some(i);
        }
        i = i + 1;
    }
    None
}

fn first_matching(routes: &[ModelRoute], model: &str) -> (r: Option<usize>)
    ensures
        match r {
            Some(i) => i < routes@.len() && pattern_matches(routes@[i as int].model_pattern@, model@)
                && forall|j: int| 0 <= j < i ==> !pattern_matches(routes@[j].model_pattern@, model@),
            None => forall|j: int|
                0 <= j < routes@.len() ==> !pattern_matches(routes@[j].model_pattern@, model@),
        },
{
    let mut i: usize = 0;
    while i < routes.len()
        invariant
            i <= routes@.len(),
            forall|j: int| 0 <= j < i ==> !pattern_matches(routes@[j].model_pattern@, model@),
        decreases routes@.len() - i,
    {
        if matches_pattern(routes[i].model_pattern.as_str(), model) {
            return Some(i);
        }
        i = i + 1;
    }
    None
}

/// Route selection: exact pattern first, else the first (highest-priority)
/// wildcard match.
pub fn resolve_route<'a>(routes: &'a [ModelRoute], model: &str) -> (r: Option<&'a ModelRoute>)
    ensures
        match route_index(routes@, model@) {
            Some(i) => r == Some(&routes@[i]),
            None => r is None,
        },
{
    let m = chars_of(model);
    match first_exact(routes, m.as_slice()) {
        Some(i) => {
            proof {
                let k = choose|k: int|
                    0 <= k < routes@.len() && routes@[k].model_pattern@ == model@ && forall|j: int|
                        0 <= j < k ==> routes@[j].model_pattern@ != model@;
                assert(k == i as int) by {
                    if k < i {
                    } else if k > i {
                    }
                }
            }
            Some(&routes[i])
        },
        None => match first_matching(routes, model) {
            Some(i) => {
                proof {
                    let k = choose|k: int|
                        0 <= k < routes@.len() && pattern_matches(routes@[k].model_pattern@, model@)
                            && forall|j: int|
                            0 <= j < k ==> !pattern_matches(routes@[j].model_pattern@, model@);
                    assert(k == i as int) by {
                        if k < i {
                        } else if k > i {
                        }
                    }
                }
                Some(&routes[i])
            },
            None => None,
        },
    }
}

/// Models switched off per provider (upstream model names).
pub struct DisabledModels {
    map: HashMap<i64, StringHashSet>,
}

impl DisabledModels {
    /// Provider id -> switched-off model names.
    pub closed spec fn spec_disabled(&self, provider_id: i64, model: Seq<char>) -> bool {
        self.map@.contains_key(provider_id) && self.map@[provider_id]@.contains(model)
    }

    pub fn new() -> (r: Self)
        ensures
            forall|p: i64, m: Seq<char>| !r.spec_disabled(p, m),
    {
        DisabledModels { map: HashMap::new() }
    }

    /// Switches a model off for a provider.
    pub fn disable(&mut self, provider_id: i64, model: String)
        ensures
            forall|p: i64, m: Seq<char>|
                final(self).spec_disabled(p, m) == (old(self).spec_disabled(p, m) || (p
                    == provider_id && m == model@)),
    {
        let ghost mv = model@;
        let mut set = match self.map.remove(&provider_id) {
            Some(s) => s,
            None => StringHashSet::new(),
        };
        let ghost before = set@;
        set.insert(model);
        self.map.insert(provider_id, set);
        proof {
            assert forall|p: i64, m: Seq<char>|
                self.spec_disabled(p, m) == (old(self).spec_disabled(p, m) || (p == provider_id && m
                    == mv)) by {
                if p == provider_id {
                    if old(self).map@.contains_key(provider_id) {
                        assert(before == old(self).map@[provider_id]@);
                    } else {
                        assert(!before.contains(m));
                    }
                }
            }
        }
    }
}

/// Whether the admin switched this upstream model off for the provider.
pub fn model_disabled(disabled: &DisabledModels, provider_id: i64, upstream_model: &str) -> (r: bool)
    ensures
        r == disabled.spec_disabled(provider_id, upstream_model@),
{
    match disabled.map.get(&provider_id) {
        Some(models) => models.contains(upstream_model),
        None => false,
    }
}

/// An allow-list entry admits this provider and model.
pub open spec fn rule_allows(r: UserAccessRule, provider_id: i64, model: Seq<char>) -> bool {
    &&& (r.provider_id.is_none() || r.provider_id == Some(provider_id))
    &&& (r.model_pattern.is_none() || pattern_matches(r.model_pattern.unwrap()@, model))
}

/// Per-user access allow-lists.
pub struct UserAccess {
    map: HashMap<i64, Vec<UserAccessRule>>,
}

impl UserAccess {
    /// The rules of a user (`None` = no entry).
    pub closed spec fn spec_rules(&self, user_id: i64) -> Option<Seq<UserAccessRule>> {
        if self.map@.contains_key(user_id) {
            Some(self.map@[user_id]@)
        } else {
            None
        }
    }

    pub fn new() -> (r: Self)
        ensures
            forall|u: i64| r.spec_rules(u) is None,
    {
        UserAccess { map: HashMap::new() }
    }

    /// Replaces a user's rule list.
    pub fn set_rules(&mut self, user_id: i64, rules: Vec<UserAccessRule>)
        ensures
            final(self).spec_rules(user_id) == Some(rules@),
            forall|u: i64| u != user_id ==> final(self).spec_rules(u) == old(self).spec_rules(u),
    {
        self.map.insert(user_id, rules);
    }
}

/// Access decision: a user without rules (no entry or an empty list) may use
/// everything; otherwise some rule must admit the provider and model.
pub fn user_can_use(access: &UserAccess, user_id: i64, provider_id: i64, model: &str) -> (r: bool)
    ensures
        r == match access.spec_rules(user_id) {
            None => true,
            Some(rules) => rules.len() == 0 || exists|i: int|
                0 <= i < rules.len() && rule_allows(#[trigger] rules[i], provider_id, model@),
        },
{
    let rules = match access.map.get(&user_id) {
        Some(r) => r,
        None => return true,
    };
    if rules.len() == 0 {
        return true;
    }
    assert(access.spec_rules(user_id) == Some(rules@));
    let mut i: usize = 0;
    while i < rules.len()
        invariant
            i <= rules@.len(),
            access.spec_rules(user_id) == Some(rules@),
            forall|j: int| 0 <= j < i ==> !rule_allows(#[trigger] rules@[j], provider_id, model@),
        decreases rules@.len() - i,
    {
        let r = &rules[i];
        let provider_ok = match r.provider_id {
            None => true,
            Some(p) => p == provider_id,
        };
        let model_ok = match &r.model_pattern {
            None => true,
            Some(p) => matches_pattern(p.as_str(), model),
        };
        if provider_ok && model_ok {
            assert(rule_allows(rules@[i as int], provider_id, model@));
            return true;
        }
        i = i + 1;
    }
    false
}

} // verus!

verus! {

/// A pattern ending in `*` matches exactly the models that start with the
/// rest of the pattern (every extension of the prefix, the prefix itself
/// included); any other pattern matches only the model it spells.
pub proof fn law_pattern_matching(prefix: Seq<char>, pattern: Seq<char>, model: Seq<char>)
    ensures
        pattern_matches(prefix.push('*'), model) <==> has_prefix(model, prefix),
        !(pattern.len() > 0 && pattern.last() == '*') ==> (pattern_matches(pattern, model) <==> pattern
            == model),
{
    assert(prefix.push('*').drop_last() =~= prefix);
}

} // verus!

verus! {

/// The chosen route matches the model; a route naming the model exactly
/// wins over every wildcard route, whatever their order; and a model that
/// no pattern matches has no route.
pub proof fn law_route_choice(routes: Seq<ModelRoute>, model: Seq<char>)
    ensures
        route_index(routes, model) matches Some(i) ==> 0 <= i < routes.len() && pattern_matches(
            routes[i].model_pattern@,
            model,
        ),
        (exists|k: int| 0 <= k < routes.len() && routes[k].model_pattern@ == model) ==> (route_index(
            routes,
            model,
        ) matches Some(i) && routes[i].model_pattern@ == model),
        route_index(routes, model) is None <==> forall|k: int|
            0 <= k < routes.len() ==> !pattern_matches(#[trigger] routes[k].model_pattern@, model),
{
    if exists|k: int| 0 <= k < routes.len() && routes[k].model_pattern@ == model {
        let k = choose|k: int| 0 <= k < routes.len() && routes[k].model_pattern@ == model;
        lemma_first_exact_exists(routes, model, k);
        let i = route_index(routes, model)->Some_0;
        let p = routes[i].model_pattern@;
        if p.len() > 0 && p.last() == '*' {
            assert(model.subrange(0, p.drop_last().len() as int) =~= p.drop_last());
        }
    } else if exists|k: int| 0 <= k < routes.len() && pattern_matches(routes[k].model_pattern@, model) {
        let k = choose|k: int| 0 <= k < routes.len() && pattern_matches(routes[k].model_pattern@, model);
        lemma_first_matching_exists(routes, model, k);
    }
}

proof fn lemma_first_exact_exists(routes: Seq<ModelRoute>, model: Seq<char>, k: int)
    requires
        0 <= k < routes.len(),
        routes[k].model_pattern@ == model,
    ensures
        exists|i: int|
            0 <= i < routes.len() && routes[i].model_pattern@ == model && forall|j: int|
                0 <= j < i ==> routes[j].model_pattern@ != model,
    decreases k,
{
    if exists|j: int| 0 <= j < k && routes[j].model_pattern@ == model {
        let j = choose|j: int| 0 <= j < k && routes[j].model_pattern@ == model;
        lemma_first_exact_exists(routes, model, j);
    }
}

proof fn lemma_first_matching_exists(routes: Seq<ModelRoute>, model: Seq<char>, k: int)
    requires
        0 <= k < routes.len(),
        pattern_matches(routes[k].model_pattern@, model),
    ensures
        exists|i: int|
            0 <= i < routes.len() && pattern_matches(routes[i].model_pattern@, model) && forall|j: int|
                0 <= j < i ==> !pattern_matches(routes[j].model_pattern@, model),
    decreases k,
{
    if exists|j: int| 0 <= j < k && pattern_matches(routes[j].model_pattern@, model) {
        let j = choose|j: int| 0 <= j < k && pattern_matches(routes[j].model_pattern@, model);
        lemma_first_matching_exists(routes, model, j);
    }
}

} // verus!
