use happy_ip_scanner::limits::{
    effective_limit, raise_request, socket_budget, MAX_SOCKET_BUDGET, MIN_SOCKET_BUDGET,
    TARGET_OPEN_FILES,
};

#[test]
fn socket_budget_is_within_bounds() {
    for limits in [None, Some((0, 0)), Some((256, 1024)), Some((1_000_000, u64::MAX))] {
        let budget = socket_budget(limits) as u64;
        assert!((MIN_SOCKET_BUDGET..=MAX_SOCKET_BUDGET).contains(&budget));
    }
}

#[test]
fn socket_budget_values() {
    assert_eq!(socket_budget(None), 4096);
    assert_eq!(socket_budget(Some((256, 1024))), 192);
    assert_eq!(socket_budget(Some((64, 64))), 32);
    assert_eq!(socket_budget(Some((10240, 10240))), 4096);
}

#[test]
fn raising_the_limit_never_lowers_it() {
    for (soft, hard) in [(256, 1024), (256, u64::MAX), (20000, 30000), (0, 0)] {
        for accepted in [false, true] {
            assert!(effective_limit(soft, hard, accepted) >= soft);
        }
    }
}

#[test]
fn raise_requests_the_target_within_the_hard_limit() {
    assert_eq!(raise_request(256, u64::MAX), Some(TARGET_OPEN_FILES));
    assert_eq!(raise_request(256, 1024), Some(1024));
    assert_eq!(raise_request(20000, 30000), None);
    assert_eq!(effective_limit(256, 1024, true), 1024);
    assert_eq!(effective_limit(256, 1024, false), 256);
}
