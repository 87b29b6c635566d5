use session::tool_guard::{backoff, record, worst, FailureMap, ToolGuardConfig};

fn cfg() -> ToolGuardConfig {
    ToolGuardConfig {
        max_consecutive_failures: 3,
        backoff_base_ms: 200,
        backoff_max_ms: 2000,
    }
}

#[test]
fn success_resets_counter() {
    let mut m = FailureMap::new();
    let (t, _) = record(&mut m, "bash", true, &cfg());
    assert!(!t);
    assert_eq!(m.get("bash"), Some(&1));

    let (t, _) = record(&mut m, "bash", false, &cfg());
    assert!(!t);
    assert!(!m.contains_key("bash"));
}

#[test]
fn threshold_trips_exactly_at_limit() {
    let mut m = FailureMap::new();
    let c = cfg();
    let (t1, _) = record(&mut m, "bash", true, &c);
    assert!(!t1);
    let (t2, _) = record(&mut m, "bash", true, &c);
    assert!(!t2);
    let (t3, _) = record(&mut m, "bash", true, &c);
    assert!(t3);
}

#[test]
fn backoff_exponential_and_capped() {
    let mut m = FailureMap::new();
    let c = cfg();
    let (_, d1) = record(&mut m, "t", true, &c);
    assert_eq!(d1, 200);
    let (_, d2) = record(&mut m, "t", true, &c);
    assert_eq!(d2, 400);
    let (_, d3) = record(&mut m, "t", true, &c);
    assert_eq!(d3, 800);
    let (_, d4) = record(&mut m, "t", true, &c);
    assert_eq!(d4, 1600);
    let (_, d5) = record(&mut m, "t", true, &c);
    assert_eq!(d5, 2000);
    let (_, d6) = record(&mut m, "t", true, &c);
    assert_eq!(d6, 2000);
}

#[test]
fn independent_tools_tracked_separately() {
    let mut m = FailureMap::new();
    record(&mut m, "bash", true, &cfg());
    record(&mut m, "read", true, &cfg());
    assert_eq!(m.get("bash"), Some(&1));
    assert_eq!(m.get("read"), Some(&1));
}

#[test]
fn success_between_failures_resets() {
    let mut m = FailureMap::new();
    let c = cfg();
    record(&mut m, "bash", true, &c);
    record(&mut m, "bash", true, &c);
    record(&mut m, "bash", false, &c);
    let (t, _) = record(&mut m, "bash", true, &c);
    assert!(!t);
    assert_eq!(m.get("bash"), Some(&1));
}

#[test]
fn zero_threshold_disables_guard() {
    let mut m = FailureMap::new();
    let c = ToolGuardConfig {
        max_consecutive_failures: 0,
        backoff_base_ms: 200,
        backoff_max_ms: 2000,
    };
    let (t, d) = record(&mut m, "x", true, &c);
    assert!(!t);
    assert_eq!(d, 0);
}

#[test]
fn worst_returns_highest_count() {
    let mut m = FailureMap::new();
    m.insert("a".into(), 1);
    m.insert("b".into(), 3);
    m.insert("c".into(), 2);
    assert_eq!(worst(&m), Some(("b", 3)));
}

#[test]
fn worst_empty_is_none() {
    let m = FailureMap::new();
    assert_eq!(worst(&m), None);
}

#[test]
fn backoff_exponent_stops_growing_at_twenty() {
    let c = ToolGuardConfig {
        max_consecutive_failures: 3,
        backoff_base_ms: 1,
        backoff_max_ms: u64::MAX,
    };
    assert_eq!(backoff(0, &c), 0);
    assert_eq!(backoff(21, &c), 1 << 20);
    assert_eq!(backoff(40, &c), 1 << 20);
}

#[test]
fn backoff_saturates_before_the_cap() {
    let c = ToolGuardConfig {
        max_consecutive_failures: 3,
        backoff_base_ms: u64::MAX / 2,
        backoff_max_ms: u64::MAX,
    };
    assert_eq!(backoff(3, &c), u64::MAX);
}
