//! Decisions of the background worker that drives the timing engine: when
//! to connect, read, back off, save and stop. The worker itself performs
//! the actions and reports back what happened.
use vstd::prelude::*;

verus! {

/// Back-off before another connection attempt, in milliseconds.
pub const CONNECT_BACKOFF_MS: u64 = 5000;

/// Back-off after a failed read of a fix, in milliseconds.
pub const READ_BACKOFF_MS: u64 = 30;

/// Where the worker stands.
#[derive(Clone, Copy, Debug, PartialEq, Eq, Structural)]
pub enum WorkerState {
    /// Not yet connected to the GPS source.
    Connecting,
    /// Connected and reading fixes.
    Running,
    /// Terminated; nothing more happens.
    Stopped,
}

/// What the latest action led to.
#[derive(Clone, Copy, Debug, PartialEq, Eq, Structural)]
pub enum WorkerEvent {
    ConnectFailed,
    Connected,
    FixFailed,
    FixProcessed,
}

/// What the worker does next: save the course first when `save` holds,
/// then stop when `stop` holds, else sleep `sleep_ms` and carry on in
/// state `next` (connect again when `Connecting`, read a fix when
/// `Running`).
#[derive(Clone, Copy, Debug, PartialEq, Eq, Structural)]
pub struct Decision {
    pub next: WorkerState,
    pub sleep_ms: u64,
    pub save: bool,
    pub stop: bool,
}

/// The decision after `event` in state `state`, with the stop request
/// `close` and the one-shot save request `save_requested` as they stand.
pub open spec fn decision_spec(state: WorkerState, event: WorkerEvent, close: bool, save_requested: bool) -> Decision {
    if state == WorkerState::Stopped || close {
        Decision { next: WorkerState::Stopped, sleep_ms: 0, save: save_requested && state != WorkerState::Stopped, stop: true }
    } else {
        match event {
            WorkerEvent::ConnectFailed => Decision { next: WorkerState::Connecting, sleep_ms: CONNECT_BACKOFF_MS, save: false, stop: false },
            WorkerEvent::Connected => Decision { next: WorkerState::Running, sleep_ms: 0, save: false, stop: false },
            WorkerEvent::FixFailed => Decision { next: WorkerState::Running, sleep_ms: READ_BACKOFF_MS, save: false, stop: false },
            WorkerEvent::FixProcessed => Decision { next: WorkerState::Running, sleep_ms: 0, save: save_requested, stop: false },
        }
    }
}

/// Decides what the worker does after `event`. A stop request ends the
/// worker at the next decision, flushing a pending save; connection
/// failures retry after a long back-off, read failures after a short one;
/// a save request is honoured once a fix has been processed.
pub fn decide(state: WorkerState, event: WorkerEvent, close: bool, save_requested: bool) -> (r: Decision)
    ensures
        r == decision_spec(state, event, close, save_requested),
{
    if state == WorkerState::Stopped || close {
        let pending = save_requested && state != WorkerState::Stopped;
        return Decision { next: WorkerState::Stopped, sleep_ms: 0, save: pending, stop: true };
    }
    match event {
        WorkerEvent::ConnectFailed => Decision { next: WorkerState::Connecting, sleep_ms: CONNECT_BACKOFF_MS, save: false, stop: false },
        WorkerEvent::Connected => Decision { next: WorkerState::Running, sleep_ms: 0, save: false, stop: false },
        WorkerEvent::FixFailed => Decision { next: WorkerState::Running, sleep_ms: READ_BACKOFF_MS, save: false, stop: false },
        WorkerEvent::FixProcessed => Decision { next: WorkerState::Running, sleep_ms: 0, save: save_requested, stop: false },
    }
}

/// Takes the one-shot save request: returns whether it was set and
/// clears it.
pub fn take_request(flag: &mut bool) -> (r: bool)
    ensures
        r == *old(flag),
        !*final(flag),
{
    let r = *flag;
    *flag = false;
    r
}

/// Once stopped, the worker stays stopped whatever happens.
pub proof fn lemma_stop_is_final(event: WorkerEvent, close: bool, save_requested: bool)
    ensures
        decision_spec(WorkerState::Stopped, event, close, save_requested).stop,
        decision_spec(WorkerState::Stopped, event, close, save_requested).next == WorkerState::Stopped,
        !decision_spec(WorkerState::Stopped, event, close, save_requested).save,
{
}

} // verus!
