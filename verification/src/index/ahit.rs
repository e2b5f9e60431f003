//! Access-frequency counters of the adaptive hybrid index tree: each key's
//! accesses are counted within a time window, and the count restarts when
//! the window has passed.

use vstd::prelude::*;

use crate::clock::unix_time_secs;

verus! {

/// The seconds from `start` to `now`, as `u64` wrapping subtraction gives
/// them.
pub open spec fn elapsed_secs(now: u64, start: u64) -> int {
    if now >= start {
        now - start
    } else {
        now - start + 0x1_0000_0000_0000_0000
    }
}

/// Accesses of one key within the current window.
#[derive(Debug)]
pub struct AccessCounter {
    count: u64,
    window_start: u64,
}

impl AccessCounter {
    /// The number of accesses in the window.
    pub closed spec fn spec_count(&self) -> u64 {
        self.count
    }

    /// When the window started (Unix seconds).
    pub closed spec fn spec_window_start(&self) -> u64 {
        self.window_start
    }

    /// A counter at zero whose window starts at `now`.
    pub fn new_at(now: u64) -> (c: Self)
        ensures
            c.spec_count() == 0,
            c.spec_window_start() == now,
    {
        AccessCounter { count: 0, window_start: now }
    }

    /// A counter at zero whose window starts now.
    pub fn new() -> (c: Self)
        ensures
            c.spec_count() == 0,
    {
        Self::new_at(unix_time_secs())
    }

    /// Count one access and return the new count (wrapping at `u64::MAX`).
    pub fn increment(&mut self) -> (n: u64)
        ensures
            n == (if old(self).spec_count() == u64::MAX { 0 } else { old(self).spec_count() + 1 }),
            final(self).spec_count() == n,
            final(self).spec_window_start() == old(self).spec_window_start(),
    {
        self.count = self.count.wrapping_add(1);
        self.count
    }

    /// At time `now`: when more than `window_secs` have passed since the
    /// window started, restart the count at zero with a window starting now.
    pub fn reset_if_expired_at(&mut self, now: u64, window_secs: u64)
        ensures
            if elapsed_secs(now, old(self).spec_window_start()) > window_secs {
                final(self).spec_count() == 0 && final(self).spec_window_start() == now
            } else {
                final(self).spec_count() == old(self).spec_count() && final(self).spec_window_start() == old(
                    self,
                ).spec_window_start()
            },
    {
        let start = self.window_start;
        if now.wrapping_sub(start) > window_secs {
            self.count = 0;
            self.window_start = now;
        }
    }

    /// Restart the count when more than `window_secs` have passed since the
    /// window started, judged by the wall clock.
    pub fn reset_if_expired(&mut self, window_secs: u64)
        ensures
            exists|now: u64|
                if elapsed_secs(now, old(self).spec_window_start()) > window_secs {
                    final(self).spec_count() == 0 && final(self).spec_window_start() == now
                } else {
                    final(self).spec_count() == old(self).spec_count() && final(self).spec_window_start()
                        == old(self).spec_window_start()
                },
    {
        let now = unix_time_secs();
        self.reset_if_expired_at(now, window_secs);
    }

    /// The number of accesses in the window.
    pub fn count(&self) -> (n: u64)
        ensures
            n == self.spec_count(),
    {
        self.count
    }
}

} // verus!
