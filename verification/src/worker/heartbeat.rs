use vstd::prelude::*;

verus! {

/// Sends a signal at regular intervals.
#[derive(Debug)]
pub struct HeartbeatSender {
    interval_ms: u64,
}

impl HeartbeatSender {
    /// Milliseconds between two signals.
    pub closed spec fn interval(&self) -> u64 {
        self.interval_ms
    }

    /// A sender with this interval.
    pub fn new(interval_ms: u64) -> (r: Self)
        ensures
            r.interval() == interval_ms,
    {
        HeartbeatSender { interval_ms }
    }

    /// Milliseconds between two signals.
    pub fn interval_ms(&self) -> (r: u64)
        ensures
            r == self.interval(),
    {
        self.interval_ms
    }
}

} // verus!
