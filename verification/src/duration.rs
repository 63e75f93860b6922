use vstd::prelude::*;

verus! {

/// A non-negative span of time: whole seconds plus a sub-second remainder
/// in nanoseconds. The remainder never reaches a full second; carry into
/// whole seconds is performed when a value is built, never deferred.
#[derive(Clone, Copy, Debug, PartialEq, Eq, Structural)]
pub struct Duration {
    pub secs: u64,
    pub nanos: u32,
}

impl Duration {
    /// Representation invariant: the nanosecond remainder is below one second.
    pub open spec fn wf(&self) -> bool {
        self.nanos < 1_000_000_000
    }

    /// Total length rounded to the nearest whole millisecond, ties rounding up.
    pub open spec fn millis_rounded(&self) -> int {
        self.secs * 1000 + (self.nanos + 500_000) / 1_000_000
    }

    /// The duration holding exactly `ms` whole milliseconds.
    pub open spec fn spec_from_millis(ms: u64) -> Duration {
        Duration { secs: (ms / 1000) as u64, nanos: ((ms % 1000) * 1_000_000) as u32 }
    }

    pub fn new(secs: u64, nanos: u32) -> (r: Duration)
        requires
            nanos < 1_000_000_000,
        ensures
            r.wf(),
            r.secs == secs,
            r.nanos == nanos,
    {
        Duration { secs, nanos }
    }

    pub fn from_secs(secs: u64) -> (r: Duration)
        ensures
            r.wf(),
            r.secs == secs,
            r.nanos == 0,
    {
        Duration { secs, nanos: 0 }
    }

    pub fn from_millis(ms: u64) -> (r: Duration)
        ensures
            r.wf(),
            r == Duration::spec_from_millis(ms),
            r.millis_rounded() == ms,
    {
        let r = Duration { secs: ms / 1000, nanos: (ms % 1000) as u32 * 1_000_000 };
        assert(r.millis_rounded() == ms) by {
            assert(ms / 1000 * 1000 + ms % 1000 == ms) by (nonlinear_arith);
            assert((ms % 1000) * 1_000_000 + 500_000 < 1_000_000_000) by (nonlinear_arith)
                requires ms % 1000 < 1000;
            assert(((ms % 1000) * 1_000_000 + 500_000) / 1_000_000 == ms % 1000) by (nonlinear_arith)
                requires ms % 1000 < 1000;
        }
        r
    }

    pub fn as_secs(&self) -> (r: u64)
        ensures
            r == self.secs,
    {
        self.secs
    }

    pub fn subsec_nanos(&self) -> (r: u32)
        ensures
            r == self.nanos,
    {
        self.nanos
    }

    pub fn subsec_millis(&self) -> (r: u32)
        requires
            self.wf(),
        ensures
            r == self.nanos / 1_000_000,
            r < 1000,
    {
        self.nanos / 1_000_000
    }
}

/// A duration wrapped for hosts that want a self-describing value type
/// rather than a pair of free conversion functions.
#[derive(Clone, Copy, Debug, PartialEq, Eq, Structural)]
pub struct ExtDuration(pub Duration);

} // verus!
