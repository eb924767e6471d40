use quectoclaw::limiter::RateLimiter;

#[test]
fn test_zero_max_always_allows() {
    let mut lim = RateLimiter::new(0, 60);
    for i in 0..50u64 {
        let key = format!("key-{}", i % 3);
        assert!(lim.check_at(&key, i * 10));
        assert!(lim.check_rate_limit(&key));
    }
}

#[test]
fn test_sliding_window_rejects_after_max() {
    let mut lim = RateLimiter::new(3, 60);
    // three calls within the window are admitted
    assert!(lim.check_at("alice", 1_000));
    assert!(lim.check_at("alice", 2_000));
    assert!(lim.check_at("alice", 3_000));
    // the fourth call within the window is rejected
    assert!(!lim.check_at("alice", 4_000));
    // still rejected anywhere inside the window
    assert!(!lim.check_at("alice", 60_999));
}

#[test]
fn test_window_elapse_readmits() {
    let mut lim = RateLimiter::new(2, 60);
    assert!(lim.check_at("bob", 0));
    assert!(lim.check_at("bob", 1));
    assert!(!lim.check_at("bob", 2));
    // after the window has passed, the old timestamps are pruned
    assert!(lim.check_at("bob", 60_001));
}

#[test]
fn test_keys_are_independent() {
    let mut lim = RateLimiter::new(1, 60);
    assert!(lim.check_at("a", 10));
    assert!(!lim.check_at("a", 20));
    assert!(lim.check_at("b", 30));
}

#[test]
fn test_real_clock_window() {
    let mut lim = RateLimiter::new(1, 3600);
    assert!(lim.check_rate_limit("carol"));
    // the second call lands well inside an hour-long window
    assert!(!lim.check_rate_limit("carol"));
}
