use proxy_trust::rate_limit::RateLimitTracker;

#[test]
fn test_parse_from_error_404_returns_none() {
    let mut tracker = RateLimitTracker::new();
    let backoff_steps = vec![60, 300, 1800, 7200];

    // 404 should NOT be tracked as a rate limit event
    let info = tracker.parse_from_error("acc_404", 404, None, "Not Found", None, &backoff_steps);
    assert!(info.is_none(), "404 should return None — not a retryable/rate-limit error");
}

#[test]
fn test_404_does_not_lock_account() {
    let mut tracker = RateLimitTracker::new();
    let backoff_steps = vec![60, 300, 1800, 7200];

    // Attempt to mark 404 — should be ignored
    tracker.parse_from_error("acc_404_no_lock", 404, None, "Not Found", None, &backoff_steps);

    // Account should NOT be rate limited
    assert!(
        !tracker.is_rate_limited("acc_404_no_lock", None),
        "Account should not be locked after 404"
    );
    assert_eq!(
        tracker.get_remaining_wait("acc_404_no_lock", None),
        0,
        "No wait time after 404"
    );
}

#[test]
fn test_503_still_locks_account() {
    let mut tracker = RateLimitTracker::new();
    let backoff_steps = vec![60, 300, 1800, 7200];

    // 503 should still work as before
    let info_503 = tracker.parse_from_error(
        "acc_cmp_503", 503, None, "Service Unavailable", None, &backoff_steps,
    );
    assert!(info_503.is_some(), "503 should still return Some");
    assert_eq!(info_503.unwrap().retry_after_sec, 8, "503 should lock for 8s");
}

#[test]
fn test_503_locked_account_is_rate_limited_now() {
    let mut tracker = RateLimitTracker::new();
    let backoff_steps = vec![60, 300, 1800, 7200];
    tracker.parse_from_error("acc_now", 503, None, "Service Unavailable", None, &backoff_steps);
    assert!(tracker.is_rate_limited("acc_now", None));
}

#[test]
fn test_remaining_wait_matches_decision() {
    let mut tracker = RateLimitTracker::new();
    let backoff_steps = vec![60, 300, 1800, 7200];
    let now = 1_000_000;
    let info = tracker
        .classify_at(now, "acc_wait", 503, None, "Service Unavailable", None, &backoff_steps)
        .unwrap();
    assert_eq!(info.retry_after_sec, 8);
    assert_eq!(tracker.get_remaining_wait("acc_wait", Some(now)), 8);
    assert!(tracker.is_rate_limited("acc_wait", Some(now + 7)));
    assert!(!tracker.is_rate_limited("acc_wait", Some(now + 8)));
}

#[test]
fn test_consecutive_failures_escalate() {
    let mut tracker = RateLimitTracker::new();
    let backoff_steps = vec![60, 300, 1800, 7200];
    let now = 500;
    let w1 = tracker
        .classify_at(now, "acc_esc", 429, None, "Too Many Requests", None, &backoff_steps)
        .unwrap()
        .retry_after_sec;
    let w2 = tracker
        .classify_at(now, "acc_esc", 429, None, "Too Many Requests", None, &backoff_steps)
        .unwrap()
        .retry_after_sec;
    let w3 = tracker
        .classify_at(now, "acc_esc", 429, None, "Too Many Requests", None, &backoff_steps)
        .unwrap()
        .retry_after_sec;
    assert_eq!(w1, 8);
    assert_eq!(w2, 60);
    assert_eq!(w3, 300);
    assert!(w1 <= w2 && w2 <= w3);
    // saturates at the last configured step
    for _ in 0..10 {
        tracker.classify_at(now, "acc_esc", 429, None, "Too Many Requests", None, &backoff_steps);
    }
    let w_last = tracker
        .classify_at(now, "acc_esc", 429, None, "Too Many Requests", None, &backoff_steps)
        .unwrap()
        .retry_after_sec;
    assert_eq!(w_last, 7200);
}

#[test]
fn test_upstream_retry_after_is_preferred() {
    let mut tracker = RateLimitTracker::new();
    let backoff_steps = vec![60, 300, 1800, 7200];
    let now = 42;
    let info = tracker
        .classify_at(now, "acc_up", 429, Some(17), "Too Many Requests", None, &backoff_steps)
        .unwrap();
    assert_eq!(info.retry_after_sec, 17);
    assert_eq!(tracker.get_remaining_wait("acc_up", Some(now)), 17);
}

#[test]
fn test_insane_upstream_retry_after_is_ignored() {
    let mut tracker = RateLimitTracker::new();
    let backoff_steps = vec![60, 300, 1800, 7200];
    let info = tracker
        .classify_at(0, "acc_insane", 429, Some(1_000_000), "Too Many Requests", None, &backoff_steps)
        .unwrap();
    assert_eq!(info.retry_after_sec, 8, "a nonsense upstream wait falls back to the default");
}

#[test]
fn test_record_success_clears_lock() {
    let mut tracker = RateLimitTracker::new();
    let backoff_steps = vec![60, 300, 1800, 7200];
    let now = 999;
    tracker.classify_at(now, "acc_ok", 503, None, "Service Unavailable", None, &backoff_steps);
    assert!(tracker.is_rate_limited("acc_ok", Some(now)));
    tracker.record_success("acc_ok");
    assert!(!tracker.is_rate_limited("acc_ok", Some(now)));
    assert_eq!(tracker.get_remaining_wait("acc_ok", Some(now)), 0);
    // the failure count starts over
    let info = tracker
        .classify_at(now, "acc_ok", 503, None, "Service Unavailable", None, &backoff_steps)
        .unwrap();
    assert_eq!(info.retry_after_sec, 8);
}

#[test]
fn test_info_carries_context() {
    let mut tracker = RateLimitTracker::new();
    let backoff_steps = vec![60];
    let info = tracker
        .classify_at(0, "acc_ctx", 503, None, "Service Unavailable", Some("req-7"), &backoff_steps)
        .unwrap();
    assert_eq!(info.account_id, "acc_ctx");
    assert_eq!(info.status_code, 503);
    assert_eq!(info.message, "Service Unavailable");
    assert_eq!(info.context.as_deref(), Some("req-7"));
}
