//! Limiting how often a client may send requests.

use crate::ip::IpAddr;
use crate::net;
use crate::net::canonical_client_ip;
use axum::http::HeaderMap;
use vstd::prelude::*;

verus! {

/// Nanoseconds in a second.
pub const SECOND: u64 = 1_000_000_000;

/// How requests are limited, each client for itself.
#[derive(Clone, Copy, Debug)]
pub struct RateLimit {
    /// After how many nanoseconds a client may send one more request.
    pub interval_nanos: u64,
    /// How many requests a client may have saved up.
    pub burst_size: u32,
    /// After how long (nanoseconds) what is over is cleaned up, again and again.
    pub cleanup_interval: u128,
}

/// The time between two requests at a sustained rate; at least one nanosecond.
pub open spec fn interval(per_second: u64) -> u64 {
    if per_second >= SECOND {
        1
    } else {
        SECOND / per_second
    }
}

/// The limits for a sustained rate and a burst allowance.
pub fn rate_limited(per_second: u64, burst_size: u32, cleanup_interval: u128) -> (limit: RateLimit)
    requires
        per_second > 0,
    ensures
        limit.interval_nanos == interval(per_second),
        limit.burst_size == burst_size,
        limit.cleanup_interval == cleanup_interval,
{
    let interval_nanos = if per_second >= SECOND {
        1
    } else {
        SECOND / per_second
    };
    RateLimit { interval_nanos, burst_size, cleanup_interval }
}

/// At this interval the sustained rate fits into each second, and a rate that is one interval
/// longer would not.
pub proof fn law_interval_sustains_the_rate(per_second: u64)
    requires
        0 < per_second <= SECOND,
    ensures
        interval(per_second) >= 1,
        per_second * interval(per_second) <= SECOND,
        per_second * (interval(per_second) + 1) > SECOND,
{
    let n = per_second as int;
    let q = SECOND as int / n;
    assert(SECOND as int == n * q + SECOND as int % n && 0 <= SECOND as int % n < n)
        by (nonlinear_arith)
        requires
            n > 0,
            q == SECOND as int / n,
    ;
    assert(n * (q + 1) == n * q + n) by (nonlinear_arith);
    assert(q >= 1) by (nonlinear_arith)
        requires
            0 < n <= SECOND,
            q == SECOND as int / n,
    ;
}

/// A second has a thousand million nanoseconds, and a rate above that is limited to one request in
/// each.
pub proof fn law_interval_is_never_zero(per_second: u64)
    requires
        per_second > 0,
    ensures
        per_second >= 1_000_000_000 ==> interval(per_second) == 1,
        per_second < 1_000_000_000 ==> per_second * interval(per_second) <= 1_000_000_000
            < per_second * (interval(per_second) + 1),
        interval(per_second) >= 1,
{
    if per_second <= SECOND {
        law_interval_sustains_the_rate(per_second);
    }
}

/// The client of a request cannot be told.
#[derive(Clone, Copy, Debug)]
pub struct UnableToExtractKey;

/// Finds the client that a request is counted for, with respect to trusted proxies. Only trusts
/// X-Forwarded-For / X-Real-IP when the peer is a trusted proxy.
///
/// The reverse proxy must overwrite (not append to / pass through) `X-Real-IP`; values resolving
/// to a trusted proxy IP are ignored.
#[derive(Clone, Debug)]
pub struct TrustedProxyKeyExtractor {
    pub trusted_proxies: Vec<IpAddr>,
}

impl TrustedProxyKeyExtractor {
    /// The client of a request from this peer, where the peer is known.
    pub fn extract(&self, peer_ip: Option<IpAddr>, headers: &HeaderMap) -> (key: Result<
        IpAddr,
        UnableToExtractKey,
    >)
        ensures
            match peer_ip {
                Some(peer) => key matches Ok(ip) && ip == net::normalized(
                    net::client_of(peer, *headers, self.trusted_proxies@),
                ),
                None => key is Err,
            },
    {
        match peer_ip {
            Some(peer) => Ok(
                canonical_client_ip(peer, headers, self.trusted_proxies.as_slice()),
            ),
            None => Err(UnableToExtractKey),
        }
    }
}

} // verus!
