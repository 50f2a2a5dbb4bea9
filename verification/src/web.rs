//! The web page cache: when a request is answered from the cache, when a
//! background refresh starts, and when the page is built on the spot.
use vstd::prelude::*;

use crate::text::concat;

verus! {

/// How long a built page stays fresh: five minutes, in milliseconds.
pub const CACHE_TTL_MS: u64 = 300000;

/// What a request handler does next.
#[derive(Debug, Clone, Copy, PartialEq, Eq, Structural)]
pub enum CacheStep {
    /// Answer with the cached page.
    ServeCached,
    /// Answer with the cached page and start a background refresh.
    ServeCachedAndRefresh,
    /// A refresh is running and there is no page yet: wait for it to finish.
    WaitForRefresh,
    /// Build the page now and cache it.
    Build,
}

/// The step for a request, given the age of the cached page (`None` when no
/// page is cached) and whether a refresh is running; the second value is
/// whether a refresh is running afterwards.
pub open spec fn request_step(cache_age_ms: Option<u64>, refreshing: bool) -> (CacheStep, bool) {
    match cache_age_ms {
        Some(age) => if age < CACHE_TTL_MS {
            (CacheStep::ServeCached, refreshing)
        } else if refreshing {
            (CacheStep::ServeCached, true)
        } else {
            (CacheStep::ServeCachedAndRefresh, true)
        },
        None => if refreshing {
            (CacheStep::WaitForRefresh, true)
        } else {
            (CacheStep::Build, false)
        },
    }
}

/// Decides how to answer a request: a fresh page is served as is; a stale page
/// is served while one background refresh is started (unless one is running);
/// with no page, the handler waits for a running refresh or builds the page.
pub fn on_request(cache_age_ms: Option<u64>, refreshing: bool) -> (r: (CacheStep, bool))
    ensures
        r == request_step(cache_age_ms, refreshing),
{
    match cache_age_ms {
        Some(age) => {
            if age < CACHE_TTL_MS {
                (CacheStep::ServeCached, refreshing)
            } else if refreshing {
                (CacheStep::ServeCached, true)
            } else {
                (CacheStep::ServeCachedAndRefresh, true)
            }
        },
        None => {
            if refreshing {
                (CacheStep::WaitForRefresh, true)
            } else {
                (CacheStep::Build, false)
            }
        },
    }
}

/// After waiting for a refresh: serve the page it cached, or build one.
pub fn after_wait(has_cache: bool) -> (r: CacheStep)
    ensures
        r == if has_cache {
            CacheStep::ServeCached
        } else {
            CacheStep::Build
        },
{
    if has_cache {
        CacheStep::ServeCached
    } else {
        CacheStep::Build
    }
}

/// The body of the error answer when the page could not be built.
pub fn build_failure_message(err: &str) -> (r: String)
    ensures
        r@ == "Failed to fetch patch data: "@ + err@,
{
    concat("Failed to fetch patch data: ", err)
}

/// The address the server listens on.
pub fn listen_address(port: u16) -> (r: String)
    ensures
        r@ == "0.0.0.0:"@ + crate::text::nat_decimal(port as nat),
{
    let mut r = crate::text::owned("0.0.0.0:");
    crate::text::push_decimal(&mut r, port as u64);
    r
}

/// A fresh page is served without any refresh or rebuild; a background
/// refresh is started only when none is running, and is recorded as running.
pub proof fn law_cache_requests(cache_age_ms: Option<u64>, refreshing: bool)
    ensures
        cache_age_ms matches Some(age) && age < CACHE_TTL_MS ==> request_step(
            cache_age_ms,
            refreshing,
        ) == (CacheStep::ServeCached, refreshing),
        request_step(cache_age_ms, refreshing).0 == CacheStep::ServeCachedAndRefresh ==> !refreshing
            && request_step(cache_age_ms, refreshing).1,
        refreshing ==> request_step(cache_age_ms, refreshing).1,
        cache_age_ms is Some ==> (request_step(cache_age_ms, refreshing).0
            == CacheStep::ServeCached || request_step(cache_age_ms, refreshing).0
            == CacheStep::ServeCachedAndRefresh),
{
}

} // verus!
