//! Start/stop lifecycle controller.
//!
//! The controller tracks whether the ingestion pipeline is active and
//! carries the cooperative stop signal that the reader loop observes.
//! `start` and `stop` are idempotent: each reports whether the system
//! already was in the requested state, and at most one pipeline is ever
//! signalled to spawn.

use vstd::prelude::*;

verus! {

/// Whether the ingestion pipeline is active.
#[derive(Clone, Copy, PartialEq, Eq, Structural, Debug)]
pub enum LifecycleState {
    /// No pipeline is running.
    Stopped,
    /// Exactly one pipeline is running (or winding down after a stop request).
    Running,
}

/// The lifecycle controller: the single serialization point that prevents
/// two concurrent pipelines.
#[derive(Clone, Copy, PartialEq, Eq, Structural, Debug)]
pub struct Lifecycle {
    /// Current state.
    pub state: LifecycleState,
    /// Cooperative stop flag, observed by the reader loop once per iteration.
    pub stop_requested: bool,
}

/// What `start` does: from `Stopped` it clears the stop flag, moves to
/// `Running` and reports that the system was not already running; from
/// `Running` it changes nothing and reports that it was.
pub open spec fn spec_start(l: Lifecycle) -> (Lifecycle, bool) {
    match l.state {
        LifecycleState::Stopped => (
            Lifecycle { state: LifecycleState::Running, stop_requested: false },
            false,
        ),
        LifecycleState::Running => (l, true),
    }
}

/// What `stop` does: from `Running` it raises the stop flag and reports
/// that the system was not already stopped; from `Stopped` it changes
/// nothing and reports that it was.
pub open spec fn spec_stop(l: Lifecycle) -> (Lifecycle, bool) {
    match l.state {
        LifecycleState::Running => (
            Lifecycle { state: LifecycleState::Running, stop_requested: true },
            false,
        ),
        LifecycleState::Stopped => (l, true),
    }
}

impl Lifecycle {
    /// A fresh controller: stopped, with no stop pending.
    pub fn new() -> (l: Lifecycle)
        ensures
            l == (Lifecycle { state: LifecycleState::Stopped, stop_requested: false }),
    {
        Lifecycle { state: LifecycleState::Stopped, stop_requested: false }
    }

    /// Request the pipeline to start.  Returns `true` when the system
    /// already was running; the caller spawns a pipeline exactly when the
    /// result is `false`.
    pub fn start(&mut self) -> (was_running: bool)
        ensures
            (*final(self), was_running) == spec_start(*old(self)),
    {
        match self.state {
            LifecycleState::Running => true,
            LifecycleState::Stopped => {
                self.state = LifecycleState::Running;
                self.stop_requested = false;
                false
            },
        }
    }

    /// Request the pipeline to stop.  Returns `true` when the system
    /// already was stopped.  The reader loop observes the raised flag at
    /// its next iteration and acknowledges it.
    pub fn stop(&mut self) -> (was_stopped: bool)
        ensures
            (*final(self), was_stopped) == spec_stop(*old(self)),
    {
        match self.state {
            LifecycleState::Stopped => true,
            LifecycleState::Running => {
                self.stop_requested = true;
                false
            },
        }
    }

    /// Whether the reader loop should wind down at its next iteration.
    pub fn should_stop(&self) -> (r: bool)
        ensures
            r == self.stop_requested,
    {
        self.stop_requested
    }

    /// The reader loop observed the stop flag: the pipeline is gone, the
    /// flag is consumed.
    pub fn acknowledge_stop(&mut self)
        ensures
            *final(self) == (Lifecycle { state: LifecycleState::Stopped, stop_requested: false }),
    {
        self.state = LifecycleState::Stopped;
        self.stop_requested = false;
    }

    /// Whether a pipeline is active.
    pub fn is_running(&self) -> (r: bool)
        ensures
            r == (self.state is Running),
    {
        match self.state {
            LifecycleState::Running => true,
            LifecycleState::Stopped => false,
        }
    }
}

/// Starting twice in a row spawns no second pipeline: whatever the initial
/// state, the second `start` reports the system as already running and
/// leaves the controller exactly as the first `start` left it.
pub proof fn lemma_start_idempotent(l: Lifecycle)
    ensures
        spec_start(spec_start(l).0).1 == true,
        spec_start(spec_start(l).0).0 == spec_start(l).0,
{
}

/// Stopping twice in a row is equally idempotent: the second `stop`
/// reports nothing new to do, and the controller state does not change
/// between the two calls.
pub proof fn lemma_stop_idempotent(l: Lifecycle)
    ensures
        spec_stop(spec_stop(l).0).0 == spec_stop(l).0,
{
}

} // verus!
