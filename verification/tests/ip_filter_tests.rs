use proxy_trust::ip_filter::{
    build_ban_message, build_block_log, create_blocked_response_body, evaluate_access,
    evaluate_request, extract_client_ip, needs_blacklist_lookup, needs_whitelist_lookup,
    new_log_id, AccessDecision, BlacklistLookup, BlacklistPolicy, IpListEntry, SecurityPolicy,
    WhitelistLookup, WhitelistPolicy,
};
use proxy_trust::u64_to_string;

fn policy(enabled: bool, priority: bool, blacklist: bool) -> SecurityPolicy {
    SecurityPolicy {
        allow_lan_access: false,
        whitelist: WhitelistPolicy { enabled, whitelist_priority: priority },
        blacklist: BlacklistPolicy { enabled: blacklist },
    }
}

fn entry(reason: Option<&str>, expires_at: Option<i64>) -> IpListEntry {
    IpListEntry {
        ip: "10.0.0.9".to_string(),
        reason: reason.map(|s| s.to_string()),
        expires_at,
    }
}

#[test]
fn test_extract_trusts_forwarded_header_in_lan_mode() {
    let r = extract_client_ip(
        true,
        Some("  1.2.3.4 , 5.6.7.8"),
        Some("9.9.9.9"),
        Some("127.0.0.1"),
    );
    assert_eq!(r.as_deref(), Some("1.2.3.4"));
}

#[test]
fn test_extract_falls_back_to_real_ip_then_peer_in_lan_mode() {
    assert_eq!(
        extract_client_ip(true, None, Some("9.9.9.9"), Some("127.0.0.1")).as_deref(),
        Some("9.9.9.9")
    );
    assert_eq!(
        extract_client_ip(true, None, None, Some("127.0.0.1")).as_deref(),
        Some("127.0.0.1")
    );
}

#[test]
fn test_extract_prefers_peer_in_direct_mode() {
    // a spoofed forwarded header must not override the transport peer
    let r = extract_client_ip(
        false,
        Some("6.6.6.6"),
        Some("7.7.7.7"),
        Some("203.0.113.5"),
    );
    assert_eq!(r.as_deref(), Some("203.0.113.5"));
}

#[test]
fn test_extract_header_fallback_without_peer() {
    assert_eq!(
        extract_client_ip(false, Some("6.6.6.6, 1.1.1.1"), None, None).as_deref(),
        Some("6.6.6.6")
    );
    assert_eq!(extract_client_ip(false, None, Some("7.7.7.7"), None).as_deref(), Some("7.7.7.7"));
    assert_eq!(extract_client_ip(false, None, None, None), None);
}

#[test]
fn test_whitelist_mode_allows_listed_ip() {
    let d = evaluate_access(&policy(true, false, true), &WhitelistLookup::Found, &BlacklistLookup::NotFound, 0);
    assert!(matches!(d, AccessDecision::Allow));
}

#[test]
fn test_whitelist_mode_blocks_unlisted_ip() {
    let d = evaluate_access(&policy(true, false, true), &WhitelistLookup::NotFound, &BlacklistLookup::NotFound, 0);
    match d {
        AccessDecision::Block { message, log_reason } => {
            assert_eq!(message, "Access denied. Your IP is not in the whitelist.");
            assert!(log_reason.is_none());
        }
        _ => panic!("expected a block"),
    }
}

#[test]
fn test_whitelist_mode_lookup_error_fails_closed() {
    let d = evaluate_access(&policy(true, false, true), &WhitelistLookup::LookupError, &BlacklistLookup::NotFound, 0);
    assert!(matches!(d, AccessDecision::Unavailable));
}

#[test]
fn test_blacklist_takes_precedence_without_priority() {
    // on both lists, whitelist-priority off: blocked
    let e = entry(Some("abuse"), None);
    let d = evaluate_access(
        &policy(false, false, true),
        &WhitelistLookup::Found,
        &BlacklistLookup::Found(e),
        0,
    );
    match d {
        AccessDecision::Block { message, log_reason } => {
            assert_eq!(message, "Access denied. Reason: abuse. Permanent ban.");
            assert_eq!(log_reason.as_deref(), Some("IP in blacklist: abuse"));
        }
        _ => panic!("expected a block"),
    }
}

#[test]
fn test_whitelist_priority_short_circuits_blacklist() {
    // on both lists, whitelist-priority on: allowed
    let e = entry(Some("abuse"), None);
    let d = evaluate_access(
        &policy(false, true, true),
        &WhitelistLookup::Found,
        &BlacklistLookup::Found(e),
        0,
    );
    assert!(matches!(d, AccessDecision::Allow));
}

#[test]
fn test_blacklist_lookup_error_fails_open() {
    let d = evaluate_access(
        &policy(false, false, true),
        &WhitelistLookup::NotFound,
        &BlacklistLookup::LookupError,
        0,
    );
    assert!(matches!(d, AccessDecision::Allow));
}

#[test]
fn test_disabled_lists_allow() {
    let d = evaluate_access(
        &policy(false, false, false),
        &WhitelistLookup::NotFound,
        &BlacklistLookup::NotFound,
        0,
    );
    assert!(matches!(d, AccessDecision::Allow));
}

#[test]
fn test_ban_message_expired_entry() {
    let now = 1_700_000_000;
    let e = entry(None, Some(now - 5));
    assert_eq!(
        build_ban_message(&e, now),
        "Access denied. Reason: Malicious activity detected. Temporary ban (expired, will be removed soon)."
    );
}

#[test]
fn test_ban_message_in_days_beyond_24_hours() {
    let now = 1_700_000_000;
    // three days and a bit
    let e = entry(Some("scanning"), Some(now + 3 * 86400 + 7200));
    assert_eq!(
        build_ban_message(&e, now),
        "Access denied. Reason: scanning. Temporary ban. Please try again after 3 day(s)."
    );
    // just over a day still renders in whole days
    let e2 = entry(Some("scanning"), Some(now + 86400 + 60));
    assert_eq!(
        build_ban_message(&e2, now),
        "Access denied. Reason: scanning. Temporary ban. Please try again after 1 day(s)."
    );
}

#[test]
fn test_ban_message_hours_and_minutes() {
    let now = 1_700_000_000;
    let e = entry(Some("bruteforce"), Some(now + 2 * 3600 + 31 * 60));
    assert_eq!(
        build_ban_message(&e, now),
        "Access denied. Reason: bruteforce. Temporary ban. Please try again after 2 hour(s) and 31 minute(s)."
    );
    let e2 = entry(Some("bruteforce"), Some(now + 12 * 60 + 30));
    assert_eq!(
        build_ban_message(&e2, now),
        "Access denied. Reason: bruteforce. Temporary ban. Please try again after 12 minute(s)."
    );
}

#[test]
fn test_blocked_response_body_shape() {
    let body = create_blocked_response_body("1.2.3.4", "nope");
    assert_eq!(
        body,
        "{\"error\":{\"message\":\"nope\",\"type\":\"ip_blocked\",\"code\":\"ip_blocked\",\"ip\":\"1.2.3.4\"}}"
    );
}

#[test]
fn test_blocked_response_body_escapes_json() {
    let body = create_blocked_response_body("1.2.3.4", "say \"no\" \\ twice\nplease\u{1}");
    assert_eq!(
        body,
        "{\"error\":{\"message\":\"say \\\"no\\\" \\\\ twice\\nplease\\u0001\",\"type\":\"ip_blocked\",\"code\":\"ip_blocked\",\"ip\":\"1.2.3.4\"}}"
    );
}

#[test]
fn test_lookup_need_helpers() {
    assert!(needs_whitelist_lookup(&policy(true, false, false)));
    assert!(needs_whitelist_lookup(&policy(false, true, false)));
    assert!(!needs_whitelist_lookup(&policy(false, false, true)));

    assert!(needs_blacklist_lookup(&policy(false, false, true), &WhitelistLookup::NotFound));
    assert!(!needs_blacklist_lookup(&policy(true, false, true), &WhitelistLookup::NotFound));
    assert!(!needs_blacklist_lookup(&policy(false, true, true), &WhitelistLookup::Found));
    assert!(needs_blacklist_lookup(&policy(false, true, true), &WhitelistLookup::LookupError));
    assert!(!needs_blacklist_lookup(&policy(false, false, false), &WhitelistLookup::NotFound));
}

#[test]
fn test_block_log_fields() {
    let log = build_block_log(
        new_log_id(),
        "5.5.5.5".to_string(),
        123456,
        "GET".to_string(),
        "/v1/messages".to_string(),
        Some("curl/8".to_string()),
        "IP in blacklist: abuse".to_string(),
    );
    assert_eq!(log.id.len(), 36);
    assert_eq!(log.client_ip, "5.5.5.5");
    assert_eq!(log.timestamp, 123456);
    assert_eq!(log.method.as_deref(), Some("GET"));
    assert_eq!(log.path.as_deref(), Some("/v1/messages"));
    assert_eq!(log.user_agent.as_deref(), Some("curl/8"));
    assert_eq!(log.status, Some(403));
    assert_eq!(log.duration, Some(0));
    assert!(log.api_key_hash.is_none());
    assert!(log.blocked);
    assert_eq!(log.block_reason.as_deref(), Some("IP in blacklist: abuse"));
    assert!(log.username.is_none());
}

#[test]
fn test_u64_rendering() {
    assert_eq!(u64_to_string(0), "0");
    assert_eq!(u64_to_string(7), "7");
    assert_eq!(u64_to_string(12345), "12345");
    assert_eq!(u64_to_string(u64::MAX), "18446744073709551615");
}

#[test]
fn test_unknown_client_ip_fails_open() {
    // with no client IP the request passes, even when the lists would block
    let e = entry(Some("abuse"), None);
    let d = evaluate_request(
        &policy(true, false, true),
        None,
        &WhitelistLookup::NotFound,
        &BlacklistLookup::Found(e),
        0,
    );
    assert!(matches!(d, AccessDecision::Allow));
}

#[test]
fn test_known_client_ip_decides_as_evaluate_access() {
    let e = entry(Some("abuse"), None);
    let d = evaluate_request(
        &policy(false, false, true),
        Some("10.0.0.9"),
        &WhitelistLookup::NotFound,
        &BlacklistLookup::Found(e),
        0,
    );
    assert!(matches!(d, AccessDecision::Block { .. }));
}
