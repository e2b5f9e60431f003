//! Background maintenance tasks: their configuration and the registry of
//! TTL indexes that the expirer walks.

use core::time::Duration;

use vstd::prelude::*;

verus! {

/// The `Duration` that `Duration::from_secs(secs)` makes. Named: the value
/// is opaque here, and the same argument always gives the same duration.
pub uninterp spec fn duration_of_secs(secs: u64) -> Duration;

/// `core::time::Duration::from_secs`: its result is the duration named by
/// `duration_of_secs` for the same number of seconds.
#[verifier::external_body]
fn duration_from_secs(secs: u64) -> (d: Duration)
    ensures
        d == duration_of_secs(secs),
{
    Duration::from_secs(secs)
}

/// Configuration for one background worker.
#[derive(Debug)]
pub struct WorkerConfig {
    pub name: String,
    pub interval: Duration,
    pub enabled: bool,
}

/// A TTL index: documents of `collection` whose `field` is older than
/// `expire_after_seconds` are expired.
#[derive(Debug, Clone)]
pub struct TtlIndexEntry {
    pub collection: String,
    pub field: String,
    pub expire_after_seconds: i64,
}

/// `w` is the worker `name`, run every `secs` seconds when `enabled`.
pub open spec fn worker_is(w: WorkerConfig, name: Seq<char>, secs: u64, enabled: bool) -> bool {
    &&& w.name@ == name
    &&& w.interval == duration_of_secs(secs)
    &&& w.enabled == enabled
}

fn worker(name: &str, secs: u64, enabled: bool) -> (w: WorkerConfig)
    ensures
        worker_is(w, name@, secs, enabled),
{
    WorkerConfig { name: name.to_owned(), interval: duration_from_secs(secs), enabled }
}

/// The standard background tasks: compaction every 30 s, GC every 60 s, the
/// TTL expirer every 60 s, checkpoints every 120 s, buffer eviction every
/// 10 s, all enabled; change-stream GC every 300 s, disabled until change
/// streams are used.
pub fn default_worker_configs() -> (v: Vec<WorkerConfig>)
    ensures
        v@.len() == 6,
        worker_is(v@[0], "compaction"@, 30, true),
        worker_is(v@[1], "gc"@, 60, true),
        worker_is(v@[2], "ttl_expirer"@, 60, true),
        worker_is(v@[3], "checkpoint"@, 120, true),
        worker_is(v@[4], "buffer_eviction"@, 10, true),
        worker_is(v@[5], "change_stream_gc"@, 300, false),
{
    let mut v: Vec<WorkerConfig> = Vec::new();
    v.push(worker("compaction", 30, true));
    v.push(worker("gc", 60, true));
    v.push(worker("ttl_expirer", 60, true));
    v.push(worker("checkpoint", 120, true));
    v.push(worker("buffer_eviction", 10, true));
    v.push(worker("change_stream_gc", 300, false));
    v
}

/// How long a worker sleeps before its next run.
#[derive(Debug, Clone, Copy, PartialEq, Eq, Structural)]
pub enum WorkerSleep {
    /// The worker's configured interval.
    Interval,
    /// A back-off delay in milliseconds.
    BackoffMs(u64),
}

/// The back-off after a first failure, and after every healthy run.
pub const INITIAL_BACKOFF_MS: u64 = 1000;

/// The longest back-off.
pub const MAX_BACKOFF_MS: u64 = 30000;

/// What a worker does after one run of its task, given its current back-off:
/// after a healthy run it sleeps its interval and resets the back-off to one
/// second; after a panic it sleeps the current back-off and doubles it, up
/// to thirty seconds.
pub fn after_run(backoff_ms: u64, panicked: bool) -> (r: (WorkerSleep, u64))
    requires
        backoff_ms <= MAX_BACKOFF_MS,
    ensures
        !panicked ==> r == (WorkerSleep::Interval, INITIAL_BACKOFF_MS),
        panicked ==> r.0 == WorkerSleep::BackoffMs(backoff_ms) && r.1 == if 2 * backoff_ms <= MAX_BACKOFF_MS {
            2 * backoff_ms
        } else {
            MAX_BACKOFF_MS as int
        },
        r.1 <= MAX_BACKOFF_MS,
{
    if panicked {
        let doubled = backoff_ms * 2;
        let next = if doubled <= MAX_BACKOFF_MS {
            doubled
        } else {
            MAX_BACKOFF_MS
        };
        (WorkerSleep::BackoffMs(backoff_ms), next)
    } else {
        (WorkerSleep::Interval, INITIAL_BACKOFF_MS)
    }
}

} // verus!
