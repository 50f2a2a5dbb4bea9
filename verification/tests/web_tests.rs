use ltp_dashboard::web::{
    after_wait, build_failure_message, listen_address, on_request, CacheStep, CACHE_TTL_MS,
};

#[test]
fn fresh_page_is_served_from_the_cache() {
    assert_eq!(CACHE_TTL_MS, 5 * 60 * 1000);
    assert_eq!(on_request(Some(0), false), (CacheStep::ServeCached, false));
    assert_eq!(on_request(Some(CACHE_TTL_MS - 1), true), (CacheStep::ServeCached, true));
}

#[test]
fn stale_page_starts_one_refresh() {
    assert_eq!(on_request(Some(CACHE_TTL_MS), false), (CacheStep::ServeCachedAndRefresh, true));
    assert_eq!(on_request(Some(u64::MAX), true), (CacheStep::ServeCached, true));
}

#[test]
fn without_a_page_wait_or_build() {
    assert_eq!(on_request(None, true), (CacheStep::WaitForRefresh, true));
    assert_eq!(on_request(None, false), (CacheStep::Build, false));
    assert_eq!(after_wait(true), CacheStep::ServeCached);
    assert_eq!(after_wait(false), CacheStep::Build);
}

#[test]
fn error_answer_and_address() {
    assert_eq!(build_failure_message("HTTP 502"), "Failed to fetch patch data: HTTP 502");
    assert_eq!(listen_address(3030), "0.0.0.0:3030");
    assert_eq!(listen_address(0), "0.0.0.0:0");
}
