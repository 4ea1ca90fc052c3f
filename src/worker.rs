//! When the scheduling worker runs the scheduler: changes are debounced, and
//! a manual command runs it at once.
use vstd::prelude::*;

verus! {

/// What the worker is told.
#[derive(Debug, Clone, Copy, PartialEq, Eq, Structural)]
pub enum BackgroundServiceMessage {
    /// Tasks or devices changed.
    Update,
    /// Run the scheduler now.
    RunScheduler,
}

/// What reaches the worker.
#[derive(Debug, Clone, Copy, PartialEq, Eq, Structural)]
pub enum WorkerEvent {
    Message(BackgroundServiceMessage),
    /// The debounce wait ended without a new message.
    DebounceElapsed,
    /// No further message can come.
    Closed,
}

/// What the worker does next.
#[derive(Debug, Clone, Copy, PartialEq, Eq, Structural)]
pub enum WorkerAction {
    /// Nothing; wait for the next event.
    Wait,
    /// Start the debounce wait, or start it over.
    StartDebounce,
    /// Run the scheduler.
    RunScheduler,
    /// Leave the loop.
    Stop,
}

/// The worker's state. In simulator mode changes never trigger a run; only
/// the manual command does.
#[derive(Debug, Clone, Copy, PartialEq, Eq, Structural)]
pub struct WorkerState {
    pub simulator: bool,
    /// A change came and no run has followed it yet.
    pub pending: bool,
    pub stopped: bool,
}

impl WorkerState {
    pub fn new(simulator: bool) -> (r: WorkerState)
        ensures
            r == (WorkerState { simulator, pending: false, stopped: false }),
    {
        WorkerState { simulator, pending: false, stopped: false }
    }

    /// The state after `event`, and the action to take.
    pub fn next(self, event: WorkerEvent) -> (r: (WorkerState, WorkerAction))
        ensures
            r.0.simulator == self.simulator,
            self.stopped || event == WorkerEvent::Closed ==> r == (
            WorkerState { stopped: true, pending: false, ..self },
            WorkerAction::Stop,
            ),
            !self.stopped && event == WorkerEvent::Message(BackgroundServiceMessage::RunScheduler)
                ==> r == (WorkerState { pending: false, ..self }, WorkerAction::RunScheduler),
            !self.stopped && event == WorkerEvent::Message(BackgroundServiceMessage::Update) ==> r
                == if self.simulator {
                (self, WorkerAction::Wait)
            } else {
                (WorkerState { pending: true, ..self }, WorkerAction::StartDebounce)
            },
            !self.stopped && event == WorkerEvent::DebounceElapsed ==> r == if self.pending {
                (WorkerState { pending: false, ..self }, WorkerAction::RunScheduler)
            } else {
                (self, WorkerAction::Wait)
            },
    {
        if self.stopped {
            return (WorkerState { stopped: true, pending: false, ..self }, WorkerAction::Stop);
        }
        match event {
            WorkerEvent::Closed => (
                WorkerState { stopped: true, pending: false, ..self },
                WorkerAction::Stop,
            ),
            WorkerEvent::Message(BackgroundServiceMessage::RunScheduler) => (
                WorkerState { pending: false, ..self },
                WorkerAction::RunScheduler,
            ),
            WorkerEvent::Message(BackgroundServiceMessage::Update) => {
                if self.simulator {
                    (self, WorkerAction::Wait)
                } else {
                    (WorkerState { pending: true, ..self }, WorkerAction::StartDebounce)
                }
            },
            WorkerEvent::DebounceElapsed => {
                if self.pending {
                    (WorkerState { pending: false, ..self }, WorkerAction::RunScheduler)
                } else {
                    (self, WorkerAction::Wait)
                }
            },
        }
    }
}

} // verus!
