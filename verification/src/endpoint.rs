//! A single transport target within a backend, with its rolling
//! health state.

use vstd::prelude::*;

verus! {

/// Consecutive failures after which an endpoint flips to unhealthy.
pub const ENDPOINT_FAILURE_THRESHOLD: u32 = 3;

/// Backend endpoint with health status. Timestamps are ticks the
/// caller supplies; the library never reads a clock.
#[derive(Debug, Clone)]
pub struct BackendEndpoint {
    pub url: String,
    pub healthy: bool,
    pub last_check: Option<u64>,
    pub consecutive_failures: u32,
}

impl BackendEndpoint {
    /// An endpoint is unhealthy only after accumulating at least the
    /// failure threshold of consecutive failures since its last
    /// success.
    pub open spec fn wf(&self) -> bool {
        !self.healthy ==> self.consecutive_failures >= ENDPOINT_FAILURE_THRESHOLD
    }

    /// A fresh endpoint is assumed healthy until proven otherwise.
    pub fn new(url: String) -> (e: Self)
        ensures
            e.url == url,
            e.healthy,
            e.last_check is None,
            e.consecutive_failures == 0,
            e.wf(),
    {
        Self { url, healthy: true, last_check: None, consecutive_failures: 0 }
    }

    /// A success resets the failure streak and restores health at once.
    pub fn mark_healthy(&mut self, now: u64)
        ensures
            final(self).url == old(self).url,
            final(self).healthy,
            final(self).last_check == Some(now),
            final(self).consecutive_failures == 0,
            final(self).wf(),
    {
        self.healthy = true;
        self.last_check = Some(now);
        self.consecutive_failures = 0;
    }

    /// A failure lengthens the streak; health flips to false exactly
    /// when the streak reaches the threshold.
    pub fn mark_unhealthy(&mut self, now: u64)
        requires
            old(self).consecutive_failures < u32::MAX,
        ensures
            final(self).url == old(self).url,
            final(self).last_check == Some(now),
            final(self).consecutive_failures == old(self).consecutive_failures + 1,
            final(self).healthy == (old(self).healthy && final(self).consecutive_failures
                < ENDPOINT_FAILURE_THRESHOLD),
            old(self).wf() ==> final(self).wf(),
    {
        self.consecutive_failures = self.consecutive_failures + 1;
        if self.consecutive_failures >= ENDPOINT_FAILURE_THRESHOLD {
            self.healthy = false;
        }
        self.last_check = Some(now);
    }
}

/// A well-formed endpoint reports unhealthy only with at least the
/// failure threshold of consecutive failures on record.
pub proof fn lemma_unhealthy_needs_threshold(e: BackendEndpoint)
    requires
        e.wf(),
        !e.healthy,
    ensures
        e.consecutive_failures >= ENDPOINT_FAILURE_THRESHOLD,
{
}

} // verus!
