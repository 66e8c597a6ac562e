//! Retrying the theme sync when a keyboard appears: how many attempts, and the pause
//! between them.
use vstd::prelude::*;

verus! {

/// Attempts made for the keyboards already connected when watching starts.
pub const STARTUP_SYNC_ATTEMPTS: u32 = 1;

/// Attempts made after a keyboard is connected.
pub const CONNECT_SYNC_ATTEMPTS: u32 = 5;

/// Pause, in milliseconds, before every attempt but the first.
pub const RETRY_PAUSE_MS: u64 = 1000;

/// Wait, in milliseconds, after a keyboard appears, for all its interfaces to be
/// enumerated.
pub const SETTLE_PAUSE_MS: u64 = 1000;

/// Wait, in milliseconds, before polling again when no device event is pending.
pub const IDLE_POLL_MS: u64 = 500;

/// What to do next while syncing.
#[derive(Clone, Copy, Debug, PartialEq, Eq, Structural)]
pub enum SyncStep {
    /// Make attempt `number` (counted from 1), pausing first when `pause_first`.
    Attempt { number: u32, pause_first: bool },
    /// Stop: the last attempt succeeded, or none is left.
    Stop,
}

/// The step after attempt `done` of `attempts` (0: none made yet) ended, successfully
/// or not.
pub open spec fn next_sync_step_spec(done: u32, attempts: u32, succeeded: bool) -> SyncStep {
    if succeeded || done >= attempts {
        SyncStep::Stop
    } else {
        SyncStep::Attempt { number: (done + 1) as u32, pause_first: done >= 1 }
    }
}

/// Decides what follows attempt `done` of `attempts` (0: none made yet): stop after a
/// success or the last attempt, else make the next attempt, pausing before any but the
/// first.
pub fn next_sync_step(done: u32, attempts: u32, succeeded: bool) -> (r: SyncStep)
    ensures
        r == next_sync_step_spec(done, attempts, succeeded),
{
    if succeeded || done >= attempts {
        SyncStep::Stop
    } else {
        SyncStep::Attempt { number: done + 1, pause_first: done >= 1 }
    }
}

/// The attempts made when every attempt fails, starting after attempt `done`.
pub open spec fn failed_run(done: u32, attempts: u32) -> Seq<SyncStep>
    decreases attempts - done,
{
    match next_sync_step_spec(done, attempts, false) {
        SyncStep::Stop => Seq::empty(),
        SyncStep::Attempt { number, pause_first } => seq![
            SyncStep::Attempt { number, pause_first },
        ] + failed_run(number, attempts),
    }
}

/// When every attempt fails, exactly `attempts` attempts are made, numbered from 1 in
/// order, with a pause before each but the first.
pub proof fn lemma_failed_run_makes_every_attempt(attempts: u32)
    ensures
        failed_run(0, attempts).len() == attempts,
        forall|i: int|
            0 <= i < attempts ==> #[trigger] failed_run(0, attempts)[i] == (SyncStep::Attempt {
                number: (i + 1) as u32,
                pause_first: i >= 1,
            }),
{
    lemma_failed_run_from(0, attempts);
}

proof fn lemma_failed_run_from(done: u32, attempts: u32)
    requires
        done <= attempts,
    ensures
        failed_run(done, attempts).len() == attempts - done,
        forall|i: int|
            0 <= i < attempts - done ==> #[trigger] failed_run(done, attempts)[i] == (SyncStep::Attempt {
                number: (done + i + 1) as u32,
                pause_first: done + i >= 1,
            }),
    decreases attempts - done,
{
    if done < attempts {
        lemma_failed_run_from((done + 1) as u32, attempts);
        let head = SyncStep::Attempt { number: (done + 1) as u32, pause_first: done >= 1 };
        let rest = failed_run((done + 1) as u32, attempts);
        assert(failed_run(done, attempts) == seq![head] + rest);
        assert forall|i: int| 0 <= i < attempts - done implies #[trigger] failed_run(done, attempts)[i]
            == (SyncStep::Attempt { number: (done + i + 1) as u32, pause_first: done + i >= 1 }) by {
            if i > 0 {
                assert(failed_run(done, attempts)[i] == rest[i - 1]);
            }
        }
    }
}

} // verus!
