use std::collections::HashMap;
use std::time::Duration;

use llm_gateway::ratelimit::{
    dedup_min_limit, matched_rules, ConcurrencyLimiter, MatchedRule, RateLimiter, RateRule, Wait,
};

fn rule(scope: &str, scope_id: Option<i64>, model: Option<&str>) -> RateRule {
    RateRule {
        scope: scope.to_string(),
        scope_id,
        rpm: 60,
        burst: 10,
        model: model.map(str::to_string),
        concurrency: 0,
    }
}

fn keys(matched: &[MatchedRule]) -> Vec<&str> {
    matched.iter().map(|m| m.key.as_str()).collect()
}

fn conc_rules(pairs: &[(&str, i32)]) -> Vec<(String, i32)> {
    pairs.iter().map(|(k, l)| (k.to_string(), *l)).collect()
}

fn rules_global(rpm: f64, burst: f64) -> Vec<(String, i32, i32)> {
    vec![("global".to_string(), rpm as i32, burst as i32)]
}

fn ns(d: Duration) -> u64 {
    d.as_nanos() as u64
}

fn check(
    rl: &mut RateLimiter,
    now: Duration,
    rules: &[(String, i32, i32)],
    identity: Option<&str>,
    idle_exempt: Duration,
) -> Result<(), f64> {
    rl.check_rules_at(ns(now), rules, identity, ns(idle_exempt)).map_err(|w| match w {
        Wait::After(n) => n as f64 / 1e9,
        Wait::Unbounded => f64::INFINITY,
    })
}

#[test]
fn model_scoped_rule_matches_exact_model_only() {
    let rules = vec![rule("global", None, Some("gpt-4o"))];
    assert_eq!(keys(&matched_rules(&rules, None, None, "gpt-4o")), vec!["global|model:gpt-4o"]);
    assert!(matched_rules(&rules, None, None, "gpt-4o-mini").is_empty());
    assert!(matched_rules(&rules, None, None, "GPT-4O").is_empty(), "case sensitive");
}

#[test]
fn unscoped_rule_matches_all_models() {
    let rules = vec![rule("global", None, None)];
    for m in ["a", "b", ""] {
        assert_eq!(keys(&matched_rules(&rules, None, None, m)), vec!["global"]);
    }
}

#[test]
fn user_scoped_model_rule() {
    let rules = vec![rule("user", Some(7), Some("sonnet-3"))];
    assert_eq!(keys(&matched_rules(&rules, Some(7), None, "sonnet-3")), vec!["user:7|model:sonnet-3"]);
    assert!(matched_rules(&rules, Some(8), None, "sonnet-3").is_empty());
    assert!(matched_rules(&rules, Some(7), None, "gpt-4o").is_empty());
}

#[test]
fn dedup_concurrency_keys_takes_min_limit() {
    let out = dedup_min_limit(conc_rules(&[("global", 6), ("global", 3), ("user:7", 2)]));
    assert_eq!(out, conc_rules(&[("global", 3), ("user:7", 2)]));
    assert!(dedup_min_limit(conc_rules(&[])).is_empty());
}

#[test]
fn model_rule_stacks_with_general_rule() {
    let rules = vec![rule("global", None, None), rule("user", Some(1), Some("m2"))];
    assert_eq!(keys(&matched_rules(&rules, Some(1), None, "m2")), vec!["global", "user:1|model:m2"]);
    assert_eq!(keys(&matched_rules(&rules, Some(1), None, "m1")), vec!["global"]);
}

#[test]
fn burst_drain_then_reject_with_retry_after() {
    let mut rl = RateLimiter::new();
    let now = Duration::ZERO;
    for i in 0..5 {
        assert!(
            check(&mut rl, now, &rules_global(60.0, 5.0), None, Duration::ZERO).is_ok(),
            "request {i} within the burst passes"
        );
    }
    let err = check(&mut rl, now, &rules_global(60.0, 5.0), None, Duration::ZERO).unwrap_err();
    assert!((err - 1.0).abs() < 1e-9, "retry after ~1s, got {err}");
}

#[test]
fn rejection_does_not_leak_other_buckets() {
    let mut rl = RateLimiter::new();
    let rules = vec![("global".to_string(), 0, 2), ("user:7".to_string(), 6, 1)];
    assert!(check(&mut rl, Duration::ZERO, &rules, None, Duration::ZERO).is_ok());
    for _ in 0..3 {
        let err = check(&mut rl, Duration::ZERO, &rules, None, Duration::ZERO).unwrap_err();
        assert!((err - 10.0).abs() < 1e-9, "slow bucket rpm=6 waits 10s, got {err}");
    }
    assert!(
        check(&mut rl, Duration::from_secs(10), &rules, None, Duration::ZERO).is_ok(),
        "global tokens were not leaked"
    );
}

#[test]
fn retry_after_is_max_across_failing_buckets() {
    let mut rl = RateLimiter::new();
    let rules = vec![("global".to_string(), 60, 0), ("user:7".to_string(), 6, 0)];
    let err = check(&mut rl, Duration::ZERO, &rules, None, Duration::ZERO).unwrap_err();
    assert!((err - 10.0).abs() < 1e-9, "largest wait 10s, got {err}");
}

#[test]
fn short_wait_still_limited_but_retry_shrinks() {
    let mut rl = RateLimiter::new();
    let mut now = Duration::ZERO;
    for _ in 0..5 {
        check(&mut rl, now, &rules_global(1.0, 5.0), None, Duration::ZERO).ok();
    }
    now += Duration::from_secs(10);
    let err = check(&mut rl, now, &rules_global(1.0, 5.0), None, Duration::ZERO).unwrap_err();
    assert!((err - 50.0).abs() < 1e-6, "5/6 of a token missing -> 50s, got {err}");
}

#[test]
fn long_idle_refills_bucket_to_burst() {
    let mut rl = RateLimiter::new();
    let mut now = Duration::from_secs(1_000);
    for _ in 0..5 {
        check(&mut rl, now, &rules_global(1.0, 5.0), None, Duration::ZERO).ok();
    }
    assert!(check(&mut rl, now, &rules_global(1.0, 5.0), None, Duration::ZERO).is_err(), "drained");
    now += Duration::from_secs(600);
    for i in 0..5 {
        assert!(
            check(&mut rl, now, &rules_global(1.0, 5.0), None, Duration::ZERO).is_ok(),
            "request {i} after a long idle passes"
        );
    }
    assert!(check(&mut rl, now, &rules_global(1.0, 5.0), None, Duration::ZERO).is_err(), "past the burst");
}

#[test]
fn resume_exemption_grants_first_request_after_idle() {
    let mut rl = RateLimiter::new();
    let mut now = Duration::from_secs(1_000);
    let alice = "u:1|k:1";
    let bob = "u:2|k:2";
    let idle = Duration::from_secs(60);
    assert!(check(&mut rl, now, &rules_global(1.0, 5.0), Some(alice), idle).is_ok());
    now += Duration::from_secs(30);
    for _ in 0..5 {
        check(&mut rl, now, &rules_global(1.0, 5.0), Some(bob), idle).ok();
    }
    assert!(check(&mut rl, now, &rules_global(1.0, 5.0), Some(bob), idle).is_err());
    assert!(
        check(&mut rl, now, &rules_global(1.0, 5.0), Some(alice), idle).is_err(),
        "idle below the threshold is not exempt"
    );
    now += Duration::from_secs(120);
    for _ in 0..5 {
        check(&mut rl, now, &rules_global(1.0, 5.0), Some(bob), idle).ok();
    }
    assert!(
        check(&mut rl, now, &rules_global(1.0, 5.0), Some(alice), idle).is_ok(),
        "first request after a long idle is exempt"
    );
    assert!(
        check(&mut rl, now, &rules_global(1.0, 5.0), Some(alice), idle).is_err(),
        "the exemption covers one request"
    );
}

#[test]
fn sustained_hammering_never_gets_exempt() {
    let mut rl = RateLimiter::new();
    let mut now = Duration::from_secs(1_000);
    let attacker = "u:9|k:9";
    let idle = Duration::from_secs(60);
    for i in 0..8 {
        let r = check(&mut rl, now, &rules_global(1.0, 5.0), Some(attacker), idle);
        if i < 5 {
            assert!(r.is_ok(), "request {i} within the burst passes");
        } else {
            assert!(r.is_err(), "request {i} is limited and not exempt");
        }
    }
    let start = now;
    let mut passes = 0usize;
    for _ in 0..20 {
        if check(&mut rl, now, &rules_global(1.0, 5.0), Some(attacker), idle).is_ok() {
            passes += 1;
        }
        now += Duration::from_secs(30);
    }
    let elapsed_min = (now - start).as_secs_f64() / 60.0;
    let cap = 5 + elapsed_min as usize;
    assert!(passes <= cap, "{passes} passes in 10 minutes exceed burst+refill {cap}");
    assert!(passes < 20, "sustained overload cannot all pass");
}

#[test]
fn exemption_disabled_when_threshold_zero() {
    let mut rl = RateLimiter::new();
    let now = Duration::from_secs(1_000);
    let a = "u:1|k:1";
    let b = "u:2|k:2";
    for _ in 0..5 {
        check(&mut rl, now, &rules_global(1.0, 5.0), Some(b), Duration::ZERO).ok();
    }
    assert!(
        check(&mut rl, now, &rules_global(1.0, 5.0), Some(a), Duration::ZERO).is_err(),
        "idle_exempt=0 never exempts"
    );
}

#[test]
fn multi_rule_each_bucket_consumed() {
    let mut rl = RateLimiter::new();
    let now = Duration::from_secs(1_000);
    let rules = vec![("user:1".to_string(), 60, 1), ("global".to_string(), 60, 1)];
    assert!(check(&mut rl, now, &rules, None, Duration::ZERO).is_ok());
    let err = check(&mut rl, now, &rules, None, Duration::ZERO).unwrap_err();
    assert!((err - 1.0).abs() < 1e-9);
    let user_rule = vec![("user:1".to_string(), 60, 1)];
    assert!(check(&mut rl, now, &user_rule, None, Duration::ZERO).is_err());
}

#[test]
fn rpm_zero_yields_infinite_wait_not_nan() {
    let mut rl = RateLimiter::new();
    let now = Duration::from_secs(1_000);
    assert!(check(&mut rl, now, &rules_global(0.0, 1.0), None, Duration::ZERO).is_ok());
    let err = check(&mut rl, now, &rules_global(0.0, 1.0), None, Duration::ZERO).unwrap_err();
    assert!(err.is_infinite(), "rpm=0 drained waits forever, got {err}");
    assert!(!err.is_nan());
}

#[test]
fn cold_start_identity_gets_single_pass() {
    let mut rl = RateLimiter::new();
    let now = Duration::from_secs(1_000);
    let idle = Duration::from_secs(60);
    let old = "u:8|k:8";
    for _ in 0..5 {
        check(&mut rl, now, &rules_global(1.0, 5.0), Some(old), idle).ok();
    }
    let fresh = "u:7|k:7";
    assert!(check(&mut rl, now, &rules_global(1.0, 5.0), Some(fresh), idle).is_ok(), "new identity passes once");
    assert!(check(&mut rl, now, &rules_global(1.0, 5.0), Some(fresh), idle).is_err());
}

#[test]
fn rule_change_keeps_remaining_tokens() {
    let mut rl = RateLimiter::new();
    let now = Duration::from_secs(1_000);
    check(&mut rl, now, &rules_global(60.0, 5.0), None, Duration::ZERO).ok();
    check(&mut rl, now, &rules_global(60.0, 2.0), None, Duration::ZERO).ok();
    check(&mut rl, now, &rules_global(60.0, 2.0), None, Duration::ZERO).ok();
    assert!(check(&mut rl, now, &rules_global(60.0, 2.0), None, Duration::ZERO).is_err());
}

#[test]
fn concurrency_acquire_reject_and_release() {
    let mut cl = ConcurrencyLimiter::new();
    let rules = conc_rules(&[("global", 2)]);
    let g1 = cl.try_acquire(&rules).unwrap();
    let _g2 = cl.try_acquire(&rules).unwrap();
    let err = cl.try_acquire(&rules).err().unwrap();
    assert_eq!(err, ("global".to_string(), 2), "a refusal names the key and its limit");
    assert_eq!(cl.active_in("global"), 2);
    cl.release(g1);
    assert_eq!(cl.active_in("global"), 1, "a released slot can be taken again");
    let g3 = cl.try_acquire(&rules).unwrap();
    assert!(cl.try_acquire(&rules).is_err(), "full again");
    cl.release(g3);
}

#[test]
fn concurrency_multi_rule_all_or_nothing() {
    let mut cl = ConcurrencyLimiter::new();
    let rules = conc_rules(&[("global", 1), ("user:7", 5)]);
    let g = cl.try_acquire(&rules).unwrap();
    assert_eq!(cl.active_in("global"), 1);
    assert_eq!(cl.active_in("user:7"), 1);
    assert!(cl.try_acquire(&rules).is_err(), "global full refuses the request");
    assert_eq!(cl.active_in("user:7"), 1, "a refusal takes no slot");
    cl.release(g);
    assert!(cl.try_acquire(&rules).is_ok(), "all released, admitted again");
}

#[test]
fn concurrency_zero_limit_unlimited() {
    let mut cl = ConcurrencyLimiter::new();
    let rules = conc_rules(&[("global", 0)]);
    for _ in 0..100 {
        let g = cl.try_acquire(&rules).unwrap();
        cl.release(g);
    }
    assert!(cl.try_acquire(&rules).is_ok(), "limit 0 means unlimited");
    assert_eq!(cl.active_in("global"), 0, "limit 0 keys are not counted");
}

#[test]
fn concurrency_entries_removed_when_all_released() {
    let mut cl = ConcurrencyLimiter::new();
    let rules = conc_rules(&[("global", 3), ("user:7", 3)]);
    let g = cl.try_acquire(&rules).unwrap();
    cl.release(g);
    assert_eq!(cl.active_in("global"), 0);
    assert_eq!(cl.active_in("user:7"), 0);
    assert!(cl.is_idle(), "emptied entries are removed");
}

#[test]
fn matched_rules_carry_concurrency() {
    let mut user_rule = rule("user", Some(7), Some("gpt-4o"));
    user_rule.concurrency = 6;
    let mut global_rule = rule("global", None, None);
    global_rule.concurrency = 3;
    let matched = matched_rules(&[user_rule, global_rule], Some(7), None, "gpt-4o");
    assert_eq!(matched.len(), 2);
    let by_key: HashMap<&str, i32> = matched.iter().map(|m| (m.key.as_str(), m.concurrency)).collect();
    assert_eq!(by_key["user:7|model:gpt-4o"], 6);
    assert_eq!(by_key["global"], 3);
    let matched_other = matched_rules(&[rule("user", Some(7), Some("gpt-4o"))], Some(7), None, "other");
    assert!(matched_other.is_empty());
}

#[test]
fn single_bucket_check_counts_tokens() {
    let mut rl = RateLimiter::new();
    assert!(rl.check(0, "k", 60, 2).is_ok());
    assert!(rl.check(0, "k", 60, 2).is_ok());
    assert_eq!(rl.check(0, "k", 60, 2), Err(Wait::After(1_000_000_000)));
    rl.reset("k");
    assert!(rl.check(0, "k", 60, 2).is_ok(), "reset refills");
}
