//! The integer side of rate limiting: the hourly quotas and what a
//! decision means to the caller.

use vstd::prelude::*;

verus! {

/// The outcome of a rate-limit check.
#[derive(Debug, Clone, Copy, PartialEq, Eq, Structural)]
pub enum RateLimitDecision {
    Allowed,
    RateLimited,
    QuotaExceeded,
}

/// The hourly quota check made before the token buckets are consulted:
/// `QuotaExceeded` when the hour's requests have reached their limit or the
/// request's whole megabytes would take the hour's bandwidth past its
/// limit; otherwise `None`, the request goes on to the buckets.
pub fn hourly_decision(requests_this_hour: u64, bandwidth_this_hour: u64, request_mb: u64,
    max_requests_per_hour: u64, max_bandwidth_mb_per_hour: u64) -> (r: Option<RateLimitDecision>)
    requires
        bandwidth_this_hour + request_mb <= u64::MAX,
    ensures
        r is Some <==> (requests_this_hour >= max_requests_per_hour
            || bandwidth_this_hour + request_mb > max_bandwidth_mb_per_hour),
        r matches Some(d) ==> d == RateLimitDecision::QuotaExceeded,
{
    if requests_this_hour >= max_requests_per_hour {
        return Some(RateLimitDecision::QuotaExceeded);
    }
    if bandwidth_this_hour + request_mb > max_bandwidth_mb_per_hour {
        return Some(RateLimitDecision::QuotaExceeded);
    }
    None
}

/// The hour's counters after an allowed request: one more request, and the
/// request's whole megabytes.
pub fn record_allowed(requests_this_hour: u64, bandwidth_this_hour: u64, request_mb: u64) -> (r: (u64, u64))
    requires
        requests_this_hour < u64::MAX,
        bandwidth_this_hour + request_mb <= u64::MAX,
    ensures
        r.0 == requests_this_hour + 1,
        r.1 == bandwidth_this_hour + request_mb,
{
    (requests_this_hour + 1, bandwidth_this_hour + request_mb)
}

/// What is left of the hour's quotas: requests and megabytes, not below
/// zero.
pub fn remaining_quota(max_requests_per_hour: u64, requests_this_hour: u64,
    max_bandwidth_mb_per_hour: u64, bandwidth_this_hour: u64) -> (r: (u64, u64))
    ensures
        r.0 == (if max_requests_per_hour >= requests_this_hour { max_requests_per_hour - requests_this_hour } else { 0 }),
        r.1 == (if max_bandwidth_mb_per_hour >= bandwidth_this_hour { max_bandwidth_mb_per_hour - bandwidth_this_hour } else { 0 }),
{
    (max_requests_per_hour.saturating_sub(requests_this_hour), max_bandwidth_mb_per_hour.saturating_sub(bandwidth_this_hour))
}

/// What a decision means to the caller: success, or the message to show.
pub fn decision_result(d: RateLimitDecision) -> (r: core::result::Result<(), String>)
    ensures
        d == RateLimitDecision::Allowed <==> r is Ok,
        d == RateLimitDecision::RateLimited ==> (r matches Err(e) && e@ == "Rate limit exceeded. Try again later."@),
        d == RateLimitDecision::QuotaExceeded ==>
            (r matches Err(e) && e@ == "Hourly quota exceeded. Please try again in the next hour."@),
{
    proof {
        reveal_strlit("Rate limit exceeded. Try again later.");
        reveal_strlit("Hourly quota exceeded. Please try again in the next hour.");
    }
    match d {
        RateLimitDecision::Allowed => Ok(()),
        RateLimitDecision::RateLimited => Err("Rate limit exceeded. Try again later.".to_string()),
        RateLimitDecision::QuotaExceeded => Err("Hourly quota exceeded. Please try again in the next hour.".to_string()),
    }
}

} // verus!
