use llm_gateway::usage::UsageCache;

#[test]
fn plan_counter_adds_within_period() {
    let mut c = UsageCache::new();
    assert_eq!(c.get_plan(1, 2, "2024-05"), 0);
    c.incr_plan(1, 2, "2024-05", 100);
    c.incr_plan(1, 2, "2024-05", 50);
    assert_eq!(c.get_plan(1, 2, "2024-05"), 150);
    assert_eq!(c.get_plan(1, 3, "2024-05"), 0);
    assert_eq!(c.get_plan(2, 2, "2024-05"), 0);
}

#[test]
fn plan_counter_rolls_over_on_new_period() {
    let mut c = UsageCache::new();
    c.incr_plan(1, 2, "p1", 100);
    c.incr_plan(1, 2, "p2", 7);
    assert_eq!(c.get_plan(1, 2, "p2"), 7);
    assert_eq!(c.get_plan(1, 2, "p1"), 0);
    c.incr_plan(1, 2, "p3", -5);
    assert_eq!(c.get_plan(1, 2, "p3"), 0);
}

#[test]
fn plan_counter_saturates() {
    let mut c = UsageCache::new();
    c.incr_plan(1, 1, "p", i64::MAX);
    c.incr_plan(1, 1, "p", 10);
    assert_eq!(c.get_plan(1, 1, "p"), i64::MAX);
    c.incr_plan(2, 2, "p", -3);
    assert_eq!(c.get_plan(2, 2, "p"), -3);
}

#[test]
fn snapshot_overwrites_counter() {
    let mut c = UsageCache::new();
    c.incr_plan(1, 1, "p", 10);
    c.set_plan(1, 1, "q".to_string(), 99);
    assert_eq!(c.get_plan(1, 1, "q"), 99);
    assert_eq!(c.get_plan(1, 1, "p"), 0);
}
