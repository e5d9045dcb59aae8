//! Throughput bookkeeping: bytes moved since an instant.

use vstd::prelude::*;

use crate::sysapi::unix_now_ms;

verus! {

/// A byte counter against a start instant.
#[derive(Debug, Clone)]
pub struct ThroughputTracker {
    start_ms: u64,
    bytes_transferred: u64,
}

impl ThroughputTracker {
    /// The bytes counted so far.
    pub closed spec fn spec_bytes(self) -> u64 {
        self.bytes_transferred
    }

    /// A fresh tracker, started now, with nothing counted.
    pub fn new() -> (r: ThroughputTracker)
        ensures
            r.spec_bytes() == 0,
    {
        ThroughputTracker { start_ms: unix_now_ms(), bytes_transferred: 0 }
    }

    /// Count more bytes, saturating.
    pub fn record_bytes(&mut self, bytes: u64)
        ensures
            final(self).spec_bytes() == if old(self).spec_bytes() + bytes <= u64::MAX {
                (old(self).spec_bytes() + bytes) as u64
            } else {
                u64::MAX
            },
    {
        self.bytes_transferred = self.bytes_transferred.saturating_add(bytes);
    }

    /// The bytes counted and the milliseconds elapsed; nothing is
    /// promised of the clock.
    pub fn measure(&self) -> (r: (u64, u64))
        ensures
            r.0 == self.spec_bytes(),
    {
        let now: u64 = unix_now_ms();
        (self.bytes_transferred, now.saturating_sub(self.start_ms))
    }

    /// Restart the tracker: the counter cleared, the instant now.
    pub fn reset(&mut self)
        ensures
            final(self).spec_bytes() == 0,
    {
        self.start_ms = unix_now_ms();
        self.bytes_transferred = 0;
    }
}

} // verus!
