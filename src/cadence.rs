//! The recording loop's decisions: when to poll the room, when to run a fetch
//! cycle, how long to wait first, and when to stop.

use vstd::prelude::*;

verus! {

/// Seconds between room-status polls while the room is offline.
pub const OFFLINE_POLL_SECS: u64 = 10;

/// Seconds between fetch cycles while the room is live.
pub const CYCLE_SECS: u64 = 1;

#[derive(Clone, Copy, PartialEq, Eq, Debug, Structural)]
pub enum LoopPhase {
    /// Waiting for the room to go live.
    Polling,
    /// Running fetch cycles.
    Recording,
    /// Quit was asked for.
    Stopped,
}

/// What the last action came to.
#[derive(Clone, Copy, PartialEq, Eq, Debug, Structural)]
pub enum LoopEvent {
    /// The quit flag was found set before the action.
    Quit,
    /// A status poll took the room to be live or not.
    Status { live: bool },
    /// A fetch cycle ended, with or without an error.
    CycleDone { ok: bool },
}

#[derive(Clone, Copy, PartialEq, Eq, Debug, Structural)]
pub enum LoopAction {
    Exit,
    /// Poll the room status after waiting this many seconds.
    Poll { after_secs: u64 },
    /// Run a fetch cycle after waiting this many seconds.
    Cycle { after_secs: u64 },
}

/// The loop's next phase and action. Quit ends it from any phase. A live room
/// starts cycling at once and an offline one is polled again after the offline
/// wait; a cycle that succeeds is followed by another after the cycle wait, and
/// one that fails hands back to status polling at once.
pub fn next_step(phase: LoopPhase, event: LoopEvent) -> (r: (LoopPhase, LoopAction))
    ensures
        event == LoopEvent::Quit || phase == LoopPhase::Stopped ==> r == (
            LoopPhase::Stopped,
            LoopAction::Exit,
        ),
        event != LoopEvent::Quit && phase != LoopPhase::Stopped ==> r == match event {
            LoopEvent::Status { live: true } => (LoopPhase::Recording, LoopAction::Cycle { after_secs: 0 }),
            LoopEvent::Status { live: false } => (
                LoopPhase::Polling,
                LoopAction::Poll { after_secs: OFFLINE_POLL_SECS },
            ),
            LoopEvent::CycleDone { ok: true } => (
                LoopPhase::Recording,
                LoopAction::Cycle { after_secs: CYCLE_SECS },
            ),
            _ => (LoopPhase::Polling, LoopAction::Poll { after_secs: 0 }),
        },
{
    if phase == LoopPhase::Stopped {
        return (LoopPhase::Stopped, LoopAction::Exit);
    }
    match event {
        LoopEvent::Quit => (LoopPhase::Stopped, LoopAction::Exit),
        LoopEvent::Status { live } => {
            if live {
                (LoopPhase::Recording, LoopAction::Cycle { after_secs: 0 })
            } else {
                (LoopPhase::Polling, LoopAction::Poll { after_secs: OFFLINE_POLL_SECS })
            }
        },
        LoopEvent::CycleDone { ok } => {
            if ok {
                (LoopPhase::Recording, LoopAction::Cycle { after_secs: CYCLE_SECS })
            } else {
                (LoopPhase::Polling, LoopAction::Poll { after_secs: 0 })
            }
        },
    }
}

} // verus!
