use voyager_disco::sync::{next_sync_step, SyncStep, CONNECT_SYNC_ATTEMPTS, STARTUP_SYNC_ATTEMPTS};

fn attempts_when_all_fail(attempts: u32) -> Vec<SyncStep> {
    let mut out = Vec::new();
    let mut step = next_sync_step(0, attempts, false);
    while let SyncStep::Attempt { number, .. } = step {
        out.push(step);
        step = next_sync_step(number, attempts, false);
    }
    out
}

#[test]
fn first_attempt_has_no_pause() {
    assert_eq!(next_sync_step(0, 5, false), SyncStep::Attempt { number: 1, pause_first: false });
}

#[test]
fn later_attempts_pause() {
    assert_eq!(next_sync_step(1, 5, false), SyncStep::Attempt { number: 2, pause_first: true });
}

#[test]
fn success_stops() {
    assert_eq!(next_sync_step(2, 5, true), SyncStep::Stop);
}

#[test]
fn attempts_run_out() {
    assert_eq!(next_sync_step(5, 5, false), SyncStep::Stop);
    assert_eq!(next_sync_step(0, 0, false), SyncStep::Stop);
}

#[test]
fn failing_syncs_make_every_attempt() {
    assert_eq!(attempts_when_all_fail(STARTUP_SYNC_ATTEMPTS).len(), 1);
    let steps = attempts_when_all_fail(CONNECT_SYNC_ATTEMPTS);
    assert_eq!(steps.len(), 5);
    assert_eq!(steps[4], SyncStep::Attempt { number: 5, pause_first: true });
}
