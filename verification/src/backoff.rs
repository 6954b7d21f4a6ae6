//! Exponential backoff of a failing operation: the decisions taken between
//! its attempts.

use vstd::prelude::*;

verus! {

/// Shortest delay before a new attempt, in milliseconds.
pub const MIN_DURATION_MILLIS: u64 = 100;

/// Delay from which on it is not doubled any more, in milliseconds.
pub const MAX_DURATION_MILLIS: u64 = 60_000;

/// Phase of a [`Backoff`].
#[derive(Clone, Copy, Debug, PartialEq, Eq, Structural)]
pub enum Phase {
    /// The operation runs.
    Active,
    /// The operation has failed and waits for its delay to elapse.
    Delayed,
}

/// What happened to the operation.
#[derive(Clone, Copy, Debug, PartialEq, Eq, Structural)]
pub enum BackoffEvent {
    /// The operation has read the given number of bytes.
    Read(usize),
    /// The operation has failed, permanently or not.
    Failed { permanent: bool },
    /// The delay after a failure has elapsed.
    DelayElapsed,
}

/// What to do next.
#[derive(Clone, Copy, Debug, PartialEq, Eq, Structural)]
pub enum BackoffAction {
    /// Hand the number of bytes read to the reader.
    Yield(usize),
    /// Hand the permanent error to the reader.
    Fail,
    /// Wait for the given number of milliseconds.
    Delay(u64),
    /// Make the operation anew and run it.
    Restart,
    /// Nothing: the event does not belong to the phase.
    Ignore,
}

/// Backoff of an operation: its phase, and the delay to wait after its
/// next failure.
#[derive(Clone, Copy, Debug)]
pub struct Backoff {
    /// Phase of the operation.
    pub phase: Phase,
    /// Delay to wait after the next failure, in milliseconds.
    pub duration_millis: u64,
}

/// The delay after a restart: doubled while shorter than the maximum.
pub open spec fn increased(d: nat) -> nat {
    if d < MAX_DURATION_MILLIS {
        2 * d
    } else {
        d
    }
}

/// The delay after a success: back to the minimum, if longer.
pub open spec fn reset(d: nat) -> nat {
    if d > MIN_DURATION_MILLIS {
        MIN_DURATION_MILLIS as nat
    } else {
        d
    }
}

/// Whether the backoff `x` and the action `a` follow the event `e` in the
/// backoff `o`: a read is handed out and resets the delay, a permanent
/// failure is handed out, another failure waits for the delay, and the end
/// of a delay doubles it (while shorter than the maximum) and restarts the
/// operation. Events that do not belong to the phase change nothing.
pub open spec fn stepped(o: Backoff, e: BackoffEvent, x: Backoff, a: BackoffAction) -> bool {
    match (o.phase, e) {
        (Phase::Active, BackoffEvent::Read(n)) => {
            &&& a == BackoffAction::Yield(n)
            &&& x.phase == Phase::Active
            &&& x.duration_millis == reset(o.duration_millis as nat)
        },
        (Phase::Active, BackoffEvent::Failed { permanent }) => if permanent {
            a == BackoffAction::Fail && x == o
        } else {
            &&& a == BackoffAction::Delay(o.duration_millis)
            &&& x.phase == Phase::Delayed
            &&& x.duration_millis == o.duration_millis
        },
        (Phase::Delayed, BackoffEvent::DelayElapsed) => {
            &&& a == BackoffAction::Restart
            &&& x.phase == Phase::Active
            &&& x.duration_millis == increased(o.duration_millis as nat)
        },
        _ => a == BackoffAction::Ignore && x == o,
    }
}

/// Whether the delay is one that a backoff reaches: at least the minimum and
/// at most twice the maximum.
pub open spec fn duration_ok(d: nat) -> bool {
    MIN_DURATION_MILLIS <= d <= 2 * MAX_DURATION_MILLIS
}

impl Backoff {
    /// A new backoff of an operation that runs, with the shortest delay.
    pub fn new() -> (res: Backoff)
        ensures
            res.phase == Phase::Active,
            res.duration_millis == MIN_DURATION_MILLIS,
    {
        Backoff { phase: Phase::Active, duration_millis: MIN_DURATION_MILLIS }
    }

    /// Doubles the delay while it is shorter than the maximum.
    pub fn increase_duration(duration: &mut u64)
        ensures
            *final(duration) == increased(*old(duration) as nat),
    {
        if *duration < MAX_DURATION_MILLIS {
            *duration = *duration * 2;
        }
    }

    /// Resets the delay to the minimum, if longer.
    pub fn reset_duration(duration: &mut u64)
        ensures
            *final(duration) == reset(*old(duration) as nat),
    {
        if *duration > MIN_DURATION_MILLIS {
            *duration = MIN_DURATION_MILLIS;
        }
    }

    /// Takes the decision that follows the event.
    pub fn step(&mut self, event: BackoffEvent) -> (res: BackoffAction)
        ensures
            stepped(*old(self), event, *final(self), res),
    {
        match (self.phase, event) {
            (Phase::Active, BackoffEvent::Read(n)) => {
                Self::reset_duration(&mut self.duration_millis);
                BackoffAction::Yield(n)
            },
            (Phase::Active, BackoffEvent::Failed { permanent }) => {
                if permanent {
                    BackoffAction::Fail
                } else {
                    self.phase = Phase::Delayed;
                    BackoffAction::Delay(self.duration_millis)
                }
            },
            (Phase::Delayed, BackoffEvent::DelayElapsed) => {
                Self::increase_duration(&mut self.duration_millis);
                self.phase = Phase::Active;
                BackoffAction::Restart
            },
            _ => BackoffAction::Ignore,
        }
    }
}

/// Every step keeps the delay between the minimum and twice the maximum, so
/// that a backoff never waits less than the minimum nor more than twice the
/// maximum.
pub proof fn lemma_step_keeps_duration(o: Backoff, e: BackoffEvent, x: Backoff, a: BackoffAction)
    requires
        duration_ok(o.duration_millis as nat),
        stepped(o, e, x, a),
    ensures
        duration_ok(x.duration_millis as nat),
{
}

/// After a read, the next failure waits for the shortest delay.
pub proof fn lemma_read_resets(o: Backoff, n: usize, x: Backoff, a: BackoffAction)
    requires
        duration_ok(o.duration_millis as nat),
        o.phase == Phase::Active,
        stepped(o, BackoffEvent::Read(n), x, a),
    ensures
        x.duration_millis == MIN_DURATION_MILLIS,
{
}

} // verus!
