//! The scheduling loop's state machine: two states, driven by a fixed
//! interval timer and a cooperative cancellation signal. The embedding
//! loop performs the returned action (running a tick over all sites, or
//! exiting); the decisions live here.

use vstd::prelude::*;

verus! {

/// The scheduler's lifecycle: `Running` from construction until the
/// cancellation signal, `Stopped` afterwards; no automatic restart.
#[derive(Debug, Clone, Copy, PartialEq, Eq, Structural)]
pub enum SchedulerState {
    Running,
    Stopped,
}

/// What woke the loop.
#[derive(Debug, Clone, Copy, PartialEq, Eq, Structural)]
pub enum SchedulerSignal {
    /// The fixed interval timer fired.
    IntervalElapsed,
    /// The external cancellation signal arrived.
    ShutdownRequested,
}

/// What the embedding loop must do next.
#[derive(Debug, Clone, Copy, PartialEq, Eq, Structural)]
pub enum SchedulerAction {
    /// Run one tick: check every site, with per-site failure isolation.
    CheckAllSites,
    /// Leave the loop; the in-flight tick is completed or abandoned.
    Exit,
    /// Nothing: a stopped scheduler never acts again.
    Idle,
}

impl SchedulerState {
    /// The state a scheduler is constructed in.
    pub fn initial() -> (r: SchedulerState)
        ensures
            r is Running,
    {
        SchedulerState::Running
    }

    /// One transition: a timer tick while running checks all sites; the
    /// cancellation signal stops the loop for good; a stopped scheduler
    /// ignores every signal.
    pub fn step(self, signal: SchedulerSignal) -> (r: (SchedulerState, SchedulerAction))
        ensures
            self is Stopped ==> r == (SchedulerState::Stopped, SchedulerAction::Idle),
            self is Running && signal is IntervalElapsed ==> r == (
                SchedulerState::Running,
                SchedulerAction::CheckAllSites,
            ),
            self is Running && signal is ShutdownRequested ==> r == (
                SchedulerState::Stopped,
                SchedulerAction::Exit,
            ),
    {
        match self {
            SchedulerState::Stopped => (SchedulerState::Stopped, SchedulerAction::Idle),
            SchedulerState::Running => match signal {
                SchedulerSignal::IntervalElapsed => (
                    SchedulerState::Running,
                    SchedulerAction::CheckAllSites,
                ),
                SchedulerSignal::ShutdownRequested => (
                    SchedulerState::Stopped,
                    SchedulerAction::Exit,
                ),
            },
        }
    }
}

} // verus!
