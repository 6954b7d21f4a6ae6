//! Life of an FFmpeg re-streaming process: it is set up, runs, is reported
//! online once it ran for a while, and is restarted after a pause whenever
//! it stops or cannot be set up; the status it reports follows.

use vstd::prelude::*;

use crate::restreamer::state::Status;

verus! {

/// Seconds that a process runs before it is reported online.
pub const ONLINE_AFTER_SECS: u64 = 5;

/// Seconds of the pause before a stopped process is started again.
pub const RESTART_PAUSE_SECS: u64 = 2;

/// Phase of the life of a process.
#[derive(Clone, Copy, Debug, PartialEq, Eq, Structural)]
pub enum RunPhase {
    /// Its command is being set up.
    SettingUp,
    /// It runs, and is not reported online yet.
    Starting,
    /// It runs, reported online.
    Running,
    /// It stopped: it is started again after the pause.
    Pausing,
}

/// What happens to a process.
#[derive(Clone, Copy, Debug, PartialEq, Eq, Structural)]
pub enum RunEvent {
    /// Its command is set up and spawned.
    SetUp,
    /// Its command cannot be set up.
    SetupFailed,
    /// It has run for `ONLINE_AFTER_SECS`.
    RanLongEnough,
    /// It stopped.
    Stopped,
    /// The pause is over.
    PauseOver,
}

/// The phase after an event, and the status to report, if any: a process
/// set up starts; one that runs long enough is online; one that stops or
/// cannot be set up is offline and pauses; after the pause it is set up
/// anew, initializing. Events that cannot happen in a phase change nothing.
pub open spec fn run_next(p: RunPhase, e: RunEvent) -> (RunPhase, Option<Status>) {
    match (p, e) {
        (RunPhase::SettingUp, RunEvent::SetUp) => (RunPhase::Starting, None),
        (RunPhase::SettingUp, RunEvent::SetupFailed) => (RunPhase::Pausing, Some(Status::Offline)),
        (RunPhase::Starting, RunEvent::RanLongEnough) => (RunPhase::Running, Some(Status::Online)),
        (RunPhase::Starting, RunEvent::Stopped) => (RunPhase::Pausing, Some(Status::Offline)),
        (RunPhase::Running, RunEvent::Stopped) => (RunPhase::Pausing, Some(Status::Offline)),
        (RunPhase::Pausing, RunEvent::PauseOver) => (RunPhase::SettingUp, Some(Status::Initializing)),
        _ => (p, None),
    }
}

impl RunPhase {
    /// The first phase of a process, and the status it reports: it is set
    /// up, initializing.
    pub fn start() -> (res: (RunPhase, Status))
        ensures
            res == (RunPhase::SettingUp, Status::Initializing),
    {
        (RunPhase::SettingUp, Status::Initializing)
    }

    /// The phase after the given event, and the status to report, if any.
    pub fn next(self, e: RunEvent) -> (res: (RunPhase, Option<Status>))
        ensures
            res == run_next(self, e),
    {
        match (self, e) {
            (RunPhase::SettingUp, RunEvent::SetUp) => (RunPhase::Starting, None),
            (RunPhase::SettingUp, RunEvent::SetupFailed) => (RunPhase::Pausing, Some(Status::Offline)),
            (RunPhase::Starting, RunEvent::RanLongEnough) => (RunPhase::Running, Some(Status::Online)),
            (RunPhase::Starting, RunEvent::Stopped) => (RunPhase::Pausing, Some(Status::Offline)),
            (RunPhase::Running, RunEvent::Stopped) => (RunPhase::Pausing, Some(Status::Offline)),
            (RunPhase::Pausing, RunEvent::PauseOver) => (RunPhase::SettingUp, Some(Status::Initializing)),
            _ => (self, None),
        }
    }

    /// The status reported when the process is dropped: offline.
    pub fn aborted(self) -> (res: Status)
        ensures
            res == Status::Offline,
    {
        Status::Offline
    }
}

/// A process reported online is one that runs, and every stop reports it
/// offline.
pub proof fn lemma_online_only_while_running(p: RunPhase, e: RunEvent)
    ensures
        run_next(p, e).1 == Some(Status::Online) ==> run_next(p, e).0 == RunPhase::Running,
        e == RunEvent::Stopped && (p == RunPhase::Starting || p == RunPhase::Running) ==> run_next(p, e)
            == (RunPhase::Pausing, Some(Status::Offline)),
{
}

} // verus!
