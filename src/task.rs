//! Tasks as the scheduler sees them, and what it hands back.
use vstd::prelude::*;
use crate::time::{Milliseconds, Timespan, Timestamp};

verus! {

/// Identifies a task within one scheduling call.
#[derive(Debug, Clone, Copy, PartialEq, Eq, Structural)]
pub struct TaskId(pub i64);

/// A task ready to be placed: it runs for `duration` without a break,
/// somewhere inside `timespan`, and draws `effect` from every slot it covers.
#[derive(Debug, Clone, Copy, PartialEq, Eq, Structural)]
pub struct TaskForScheduler {
    pub id: TaskId,
    pub timespan: Timespan,
    pub duration: Milliseconds,
    pub effect: i64,
}

impl TaskForScheduler {
    /// A task whose positive duration fits in its window.
    pub fn new(id: TaskId, timespan: Timespan, duration: Milliseconds, effect: i64) -> (r:
        TaskForScheduler)
        requires
            0 < duration.0,
            duration.0 <= timespan.end.0 - timespan.start.0,
        ensures
            r == (TaskForScheduler { id, timespan, duration, effect }),
    {
        TaskForScheduler { id, timespan, duration, effect }
    }
}

/// A start time chosen for a task.
#[derive(Debug, Clone, Copy, PartialEq, Eq, Structural)]
pub struct UnpublishedEvent {
    pub task_id: TaskId,
    pub start_time: Timestamp,
}

/// Why a scheduling run gave no assignments.
#[derive(Debug, Clone, Copy, PartialEq, Eq, Structural)]
pub enum SchedulingError {
    /// After clipping to the profile, the window holds no whole timeslot.
    InvalidWindow,
    /// The duration, rounded up to whole timeslots, does not fit in the window.
    Unschedulable,
    /// The width of a timeslot is not positive.
    InvalidTimeDelta,
    /// A value left the range of the integer type that holds it.
    ArithmeticOverflow,
    /// An algorithm discriminator other than 0, 1 or 2.
    UnknownAlgorithm,
}

} // verus!
