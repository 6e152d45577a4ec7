//! Bounded request queue with a concurrency cap: the admission and
//! dispatch bookkeeping of the gateway. The channels, timers and
//! worker tasks run outside the library; every decision they need is
//! a verified function here.

use vstd::prelude::*;
use vstd::string::*;

use crate::error::AppError;
use crate::types::GenerateResponse;

verus! {

/// Configuration for the request queue.
#[derive(Debug, Clone, Copy)]
pub struct QueueConfig {
    /// Maximum number of pending requests in the queue.
    pub max_queue_size: usize,
    /// Maximum number of concurrent requests being processed.
    pub max_concurrent: usize,
    /// Request timeout in milliseconds.
    pub timeout_ms: u64,
}

impl Default for QueueConfig {
    fn default() -> (r: Self)
        ensures
            r.max_queue_size == 1000,
            r.max_concurrent == 10,
            r.timeout_ms == 120000,
    {
        QueueConfig { max_queue_size: 1000, max_concurrent: 10, timeout_ms: 120000 }
    }
}

/// Queue statistics.
#[derive(Debug, Clone)]
pub struct QueueStats {
    pub pending: u64,
    pub processed: u64,
    pub max_queue_size: usize,
    pub max_concurrent: usize,
}

/// How one submitted request's wait ended.
#[derive(Debug)]
pub enum SubmitWait {
    /// The worker sent a result through the channel.
    Completed(Result<GenerateResponse, AppError>),
    /// The channel closed without a result.
    ChannelClosed,
    /// The deadline elapsed before a result arrived.
    TimedOut,
}

/// Request queue bookkeeping: the pending counter gates admission, the
/// in-flight counter enforces the concurrency cap.
#[derive(Debug)]
pub struct RequestQueue {
    config: QueueConfig,
    pending_count: u64,
    processed_count: u64,
    in_flight: u64,
}

impl RequestQueue {
    /// The configuration in force.
    pub closed spec fn spec_config(&self) -> QueueConfig {
        self.config
    }

    /// Admitted requests that have not settled yet: the queue depth.
    pub closed spec fn spec_pending(&self) -> u64 {
        self.pending_count
    }

    /// Requests settled so far.
    pub closed spec fn spec_processed(&self) -> u64 {
        self.processed_count
    }

    /// Backend calls currently holding a permit.
    pub closed spec fn spec_in_flight(&self) -> u64 {
        self.in_flight
    }

    /// The counters respect the configured caps.
    pub closed spec fn wf(&self) -> bool {
        &&& self.pending_count <= self.config.max_queue_size
        &&& self.in_flight <= self.config.max_concurrent
    }

    /// A queue with the default configuration.
    pub fn new() -> (r: Self)
        ensures
            r.wf(),
            r.spec_config().max_queue_size == 1000,
            r.spec_config().max_concurrent == 10,
            r.spec_config().timeout_ms == 120000,
            r.spec_pending() == 0,
            r.spec_processed() == 0,
            r.spec_in_flight() == 0,
    {
        Self::with_config(QueueConfig::default())
    }

    /// A queue with a custom configuration.
    pub fn with_config(config: QueueConfig) -> (r: Self)
        ensures
            r.wf(),
            r.spec_config() == config,
            r.spec_pending() == 0,
            r.spec_processed() == 0,
            r.spec_in_flight() == 0,
    {
        RequestQueue { config, pending_count: 0, processed_count: 0, in_flight: 0 }
    }

    /// Admission check of `submit`: when the pending counter is at the
    /// queue cap the request is refused at once with `QueueFull`;
    /// otherwise it is counted as pending.
    pub fn try_admit(&mut self) -> (r: Result<(), AppError>)
        requires
            old(self).wf(),
        ensures
            final(self).wf(),
            final(self).spec_config() == old(self).spec_config(),
            final(self).spec_processed() == old(self).spec_processed(),
            final(self).spec_in_flight() == old(self).spec_in_flight(),
            old(self).spec_pending() >= old(self).spec_config().max_queue_size ==> (r matches Err(e)
                && e is QueueFull && final(self).spec_pending() == old(self).spec_pending()),
            old(self).spec_pending() < old(self).spec_config().max_queue_size ==> r is Ok && final(self).spec_pending() == old(self).spec_pending() + 1,
    {
        if self.pending_count >= self.config.max_queue_size as u64 {
            return Err(AppError::QueueFull);
        }
        self.pending_count = self.pending_count + 1;
        Ok(())
    }

    /// Settle one admitted request: the pending counter drops on every
    /// outcome, the processed counter rises, and the caller sees the
    /// worker's result, a cancellation error, or a timeout error.
    pub fn settle(&mut self, outcome: SubmitWait) -> (r: Result<GenerateResponse, AppError>)
        requires
            old(self).wf(),
            old(self).spec_pending() > 0,
            old(self).spec_processed() < u64::MAX,
        ensures
            final(self).wf(),
            final(self).spec_config() == old(self).spec_config(),
            final(self).spec_in_flight() == old(self).spec_in_flight(),
            final(self).spec_pending() == old(self).spec_pending() - 1,
            final(self).spec_processed() == old(self).spec_processed() + 1,
            match outcome {
                SubmitWait::Completed(result) => r == result,
                SubmitWait::ChannelClosed => (r matches Err(e) && e matches AppError::Internal(m)
                    && m@ == "Request processing was cancelled"@),
                SubmitWait::TimedOut => (r matches Err(e) && e matches AppError::Timeout(m) && m@
                    == "Request timed out"@),
            },
    {
        self.pending_count = self.pending_count - 1;
        self.processed_count = self.processed_count + 1;
        match outcome {
            SubmitWait::Completed(result) => result,
            SubmitWait::ChannelClosed => Err(
                AppError::Internal(String::from_str("Request processing was cancelled")),
            ),
            SubmitWait::TimedOut => Err(AppError::Timeout(String::from_str("Request timed out"))),
        }
    }

    /// Take one concurrency permit if any is free. A worker may start
    /// a backend call only after this returns true.
    pub fn try_acquire_permit(&mut self) -> (r: bool)
        requires
            old(self).wf(),
        ensures
            final(self).wf(),
            final(self).spec_config() == old(self).spec_config(),
            final(self).spec_pending() == old(self).spec_pending(),
            final(self).spec_processed() == old(self).spec_processed(),
            r == (old(self).spec_in_flight() < old(self).spec_config().max_concurrent),
            r ==> final(self).spec_in_flight() == old(self).spec_in_flight() + 1,
            !r ==> final(self).spec_in_flight() == old(self).spec_in_flight(),
    {
        if self.in_flight < self.config.max_concurrent as u64 {
            self.in_flight = self.in_flight + 1;
            true
        } else {
            false
        }
    }

    /// Return one concurrency permit; every worker exit path calls
    /// this exactly once.
    pub fn release_permit(&mut self)
        requires
            old(self).wf(),
            old(self).spec_in_flight() > 0,
        ensures
            final(self).wf(),
            final(self).spec_config() == old(self).spec_config(),
            final(self).spec_pending() == old(self).spec_pending(),
            final(self).spec_processed() == old(self).spec_processed(),
            final(self).spec_in_flight() == old(self).spec_in_flight() - 1,
    {
        self.in_flight = self.in_flight - 1;
    }

    /// The configuration in force.
    pub fn config(&self) -> (r: QueueConfig)
        ensures
            r == self.spec_config(),
    {
        self.config
    }

    /// Get the number of pending requests. This is by construction the
    /// queue depth: one increment per admission, one decrement per
    /// settlement, whatever the outcome.
    pub fn pending_count(&self) -> (r: u64)
        ensures
            r == self.spec_pending(),
    {
        self.pending_count
    }

    /// Get the number of settled requests.
    pub fn processed_count(&self) -> (r: u64)
        ensures
            r == self.spec_processed(),
    {
        self.processed_count
    }

    /// Get queue statistics.
    pub fn stats(&self) -> (r: QueueStats)
        ensures
            r.pending == self.spec_pending(),
            r.processed == self.spec_processed(),
            r.max_queue_size == self.spec_config().max_queue_size,
            r.max_concurrent == self.spec_config().max_concurrent,
    {
        QueueStats {
            pending: self.pending_count,
            processed: self.processed_count,
            max_queue_size: self.config.max_queue_size,
            max_concurrent: self.config.max_concurrent,
        }
    }
}

/// The concurrency cap holds in every well-formed queue state: no more
/// backend calls hold permits than `max_concurrent`, and the pending
/// counter never exceeds the queue cap.
pub proof fn lemma_caps_hold(q: &RequestQueue)
    requires
        q.wf(),
    ensures
        q.spec_in_flight() <= q.spec_config().max_concurrent,
        q.spec_pending() <= q.spec_config().max_queue_size,
{
}

} // verus!
