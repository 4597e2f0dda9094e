use vstd::prelude::*;

verus! {

/// Number of nanoseconds in one second.
pub const NANOS_PER_SEC: u32 = 1_000_000_000;

/// A non-negative span of time since the start of a track, held as whole
/// seconds and the nanoseconds beyond them.
#[derive(Clone, Copy, Debug, PartialEq, Eq, Structural)]
pub struct Timestamp {
    pub secs: u64,
    pub nanos: u32,
}

impl Timestamp {
    /// The nanoseconds part is below one second.
    pub open spec fn wf(self) -> bool {
        self.nanos < NANOS_PER_SEC
    }

    /// The span as a number of nanoseconds.
    pub open spec fn total_nanos(self) -> int {
        self.secs * 1_000_000_000 + self.nanos
    }

    /// A span of `secs` seconds and `nanos` nanoseconds.
    pub fn new(secs: u64, nanos: u32) -> (r: Timestamp)
        requires
            nanos < NANOS_PER_SEC,
        ensures
            r.secs == secs,
            r.nanos == nanos,
            r.wf(),
    {
        Timestamp { secs, nanos }
    }

    /// Whether `self` comes strictly before `other`: by seconds, then by
    /// nanoseconds.
    pub open spec fn before(self, other: Timestamp) -> bool {
        self.secs < other.secs || (self.secs == other.secs && self.nanos < other.nanos)
    }

    /// The zero span.
    pub open spec fn spec_zero() -> Timestamp {
        Timestamp { secs: 0, nanos: 0 }
    }

    /// The zero span.
    pub fn zero() -> (r: Timestamp)
        ensures
            r == Timestamp::spec_zero(),
            r.wf(),
    {
        Timestamp { secs: 0, nanos: 0 }
    }

    /// Whether `self` is strictly earlier than `other`.
    pub fn lt(&self, other: &Timestamp) -> (r: bool)
        ensures
            r == self.before(*other),
            self.wf() && other.wf() ==> r == (self.total_nanos() < other.total_nanos()),
    {
        self.secs < other.secs || (self.secs == other.secs && self.nanos < other.nanos)
    }
}

} // verus!
