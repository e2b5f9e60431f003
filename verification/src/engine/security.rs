//! Rate limiting and security limits.

use std::time::Instant;

use vstd::prelude::*;

use crate::codec::concat_str;
use crate::error::{OvnError, OvnResult};

verus! {

/// `std::time::Instant`, a reading of the monotonic clock.
#[verifier::external_type_specification]
#[verifier::external_body]
pub struct ExInstant(Instant);

/// `Instant::now()`: the current reading of the monotonic clock. Nothing is
/// claimed of it.
#[verifier::external_body]
fn instant_now() -> Instant {
    Instant::now()
}

/// `later.duration_since(earlier)` in nanoseconds (`as_nanos`); zero when
/// `earlier` is later (saturating, as `duration_since` does since Rust 1.60).
/// Nothing is claimed of the value.
#[verifier::external_body]
fn nanos_between(earlier: &Instant, later: &Instant) -> u128 {
    later.duration_since(*earlier).as_nanos()
}

/// Length of a rate-limiting window: one second.
pub const WINDOW_NANOS: u128 = 1_000_000_000;

/// Counts queries per one-second window and refuses those past the limit.
pub struct RateLimiter {
    /// Maximum queries per second.
    pub max_qps: u64,
    query_count: u64,
    window_start: Instant,
}

/// The query count after a window check: reset to zero when the window has
/// expired.
pub open spec fn window_count(count: u64, expired: bool) -> u64 {
    if expired {
        0
    } else {
        count
    }
}

impl RateLimiter {
    /// Queries admitted in the current window.
    pub closed spec fn spec_count(&self) -> u64 {
        self.query_count
    }

    /// The per-second limit.
    pub closed spec fn spec_max_qps(&self) -> u64 {
        self.max_qps
    }

    /// A limiter allowing `max_qps` queries per second, starting a window now.
    pub fn new(max_qps: u64) -> (r: Self)
        ensures
            r.spec_max_qps() == max_qps,
            r.spec_count() == 0,
    {
        RateLimiter { max_qps, query_count: 0, window_start: instant_now() }
    }

    /// Accept or refuse one query, given whether the window has expired (in
    /// which case a new window starts at `now`): refused with `QueryError`
    /// when the window already holds `max_qps` queries.
    fn decide(&mut self, expired: bool, now: Instant) -> (r: OvnResult<()>)
        ensures
            final(self).spec_max_qps() == old(self).spec_max_qps(),
            window_count(old(self).spec_count(), expired) >= old(self).spec_max_qps() ==> (r matches Err(
                OvnError::QueryError(_),
            )) && final(self).spec_count() == window_count(old(self).spec_count(), expired),
            window_count(old(self).spec_count(), expired) < old(self).spec_max_qps() ==> r is Ok
                && final(self).spec_count() == window_count(old(self).spec_count(), expired) + 1,
    {
        if expired {
            self.window_start = now;
            self.query_count = 0;
        }
        if self.query_count >= self.max_qps {
            let msg = concat_str("Rate limit exceeded: ".to_string(), self.max_qps.to_string().as_str());
            let msg = concat_str(msg, " queries per second limit reached");
            return Err(OvnError::QueryError(msg));
        }
        self.query_count = self.query_count + 1;
        Ok(())
    }

    /// Admit or refuse one query. When more than a second has passed since
    /// the window started, a new window starts with a zero count; a query is
    /// refused with `QueryError` when the window already holds `max_qps`.
    /// So no window ever admits more than `max_qps` queries.
    pub fn check_rate_limit(&mut self) -> (r: OvnResult<()>)
        ensures
            final(self).spec_max_qps() == old(self).spec_max_qps(),
            exists|expired: bool|
                {
                    &&& window_count(old(self).spec_count(), expired) >= old(self).spec_max_qps() ==> (r matches Err(
                        OvnError::QueryError(_),
                    )) && final(self).spec_count() == window_count(old(self).spec_count(), expired)
                    &&& window_count(old(self).spec_count(), expired) < old(self).spec_max_qps() ==> r is Ok
                        && final(self).spec_count() == window_count(old(self).spec_count(), expired) + 1
                },
            old(self).spec_count() <= old(self).spec_max_qps() ==> final(self).spec_count() <= final(self).spec_max_qps(),
    {
        let now = instant_now();
        let elapsed = nanos_between(&self.window_start, &now);
        let expired = elapsed > WINDOW_NANOS;
        self.decide(expired, now)
    }

    /// Start a new window with a zero count.
    pub fn reset(&mut self)
        ensures
            final(self).spec_max_qps() == old(self).spec_max_qps(),
            final(self).spec_count() == 0,
    {
        self.query_count = 0;
        self.window_start = instant_now();
    }

    /// Queries admitted in the current window.
    pub fn query_count(&self) -> (n: u64)
        ensures
            n == self.spec_count(),
    {
        self.query_count
    }
}

/// Security limits configuration.
#[derive(Debug, Clone)]
pub struct SecurityLimits {
    /// Maximum query execution time in milliseconds.
    pub max_query_time_ms: u64,
    /// Maximum result documents.
    pub max_result_documents: u64,
    /// Maximum aggregation memory in MiB.
    pub max_aggregation_memory_mb: u64,
    /// Maximum concurrent transactions.
    pub max_concurrent_transactions: u64,
    /// Maximum document size in bytes.
    pub max_document_size_bytes: u64,
    /// Maximum index key length in bytes.
    pub max_index_key_length: u64,
}

impl Default for SecurityLimits {
    /// 30 s queries, 10 000 results, 256 MiB aggregation memory, 100
    /// concurrent transactions, 16 MiB documents, 1 KiB index keys.
    fn default() -> (l: Self)
        ensures
            l.max_query_time_ms == 30000,
            l.max_result_documents == 10000,
            l.max_aggregation_memory_mb == 256,
            l.max_concurrent_transactions == 100,
            l.max_document_size_bytes == 16 * 1024 * 1024,
            l.max_index_key_length == 1024,
    {
        SecurityLimits {
            max_query_time_ms: 30000,
            max_result_documents: 10000,
            max_aggregation_memory_mb: 256,
            max_concurrent_transactions: 100,
            max_document_size_bytes: 16 * 1024 * 1024,
            max_index_key_length: 1024,
        }
    }
}

} // verus!
