//! Plain time values: a duration and a timestamp, each a pair of whole
//! seconds and a sub-second nanosecond remainder.

use vstd::prelude::*;

verus! {

pub const NANOS_PER_SEC: u32 = 1_000_000_000;

/// A span of time: `secs` whole seconds plus `nanos` nanoseconds.
#[derive(Clone, Copy, PartialEq, Eq, Structural, Debug)]
pub struct Duration {
    pub secs: u64,
    pub nanos: u32,
}

/// A point in time: a duration since the Unix epoch.
#[derive(Clone, Copy, PartialEq, Eq, Structural, Debug)]
pub struct Timestamp {
    pub secs: u64,
    pub nanos: u32,
}

impl Duration {
    /// A normalized duration keeps its nanosecond part under one second.
    pub open spec fn wf(self) -> bool {
        self.nanos < NANOS_PER_SEC
    }

    /// The whole span in nanoseconds.
    pub open spec fn total_nanos(self) -> int {
        self.secs * (NANOS_PER_SEC as int) + self.nanos
    }

    pub fn zero() -> (r: Duration)
        ensures
            r.secs == 0,
            r.nanos == 0,
            r.wf(),
    {
        Duration { secs: 0, nanos: 0 }
    }

    /// The sum of two durations; `None` when the seconds overflow.
    pub fn checked_add(self, other: Duration) -> (r: Option<Duration>)
        requires
            self.wf(),
            other.wf(),
        ensures
            match r {
                Some(d) => d.wf() && d.total_nanos() == self.total_nanos() + other.total_nanos(),
                None => self.total_nanos() + other.total_nanos() > Duration {
                    secs: u64::MAX,
                    nanos: (NANOS_PER_SEC - 1) as u32,
                }.total_nanos(),
            },
    {
        let ns: u32 = self.nanos + other.nanos;
        let (carry, rem): (u64, u32) = if ns >= NANOS_PER_SEC {
            (1, ns - NANOS_PER_SEC)
        } else {
            (0, ns)
        };
        match self.secs.checked_add(other.secs) {
            Some(s0) => match s0.checked_add(carry) {
                Some(s) => Some(Duration { secs: s, nanos: rem }),
                None => None,
            },
            None => None,
        }
    }
}

impl Timestamp {
    pub open spec fn wf(self) -> bool {
        self.nanos < NANOS_PER_SEC
    }

    /// The distance from the epoch in nanoseconds.
    pub open spec fn total_nanos(self) -> int {
        self.secs * (NANOS_PER_SEC as int) + self.nanos
    }
}

} // verus!
