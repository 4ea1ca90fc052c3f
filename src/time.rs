//! Instants and durations, both counted in whole milliseconds.
use vstd::prelude::*;

verus! {

/// A length of time in milliseconds.
#[derive(Debug, Clone, Copy, PartialEq, Eq, Structural)]
pub struct Milliseconds(pub i64);

/// An instant in UTC, as milliseconds since the Unix epoch.
#[derive(Debug, Clone, Copy, PartialEq, Eq, Structural)]
pub struct Timestamp(pub i64);

/// A half-open range `[start, end)` of instants.
#[derive(Debug, Clone, Copy, PartialEq, Eq, Structural)]
pub struct Timespan {
    pub start: Timestamp,
    pub end: Timestamp,
}

impl Timespan {
    /// The span from `start` to `end`; `end` may not come before `start`.
    pub fn new(start: Timestamp, end: Timestamp) -> (r: Timespan)
        requires
            start.0 <= end.0,
        ensures
            r.start == start,
            r.end == end,
    {
        Timespan { start, end }
    }
}

} // verus!
