use repo_push::{
    Action, Args, BASE_DELAY_MS, CommitRef, ErrorOrigin, ErrorReason, Event, MAX_ATTEMPTS, Phase,
    PushEngine, PushError, failure_event, pending_commits,
};

fn c(k: u32) -> CommitRef {
    CommitRef::new(0, 0, k)
}

fn chain(n: u32) -> Vec<CommitRef> {
    (1..=n).map(c).collect()
}

fn args(window_size: usize, resume: bool, overwrite: bool) -> Args {
    Args::create(String::from("/repo"), overwrite, resume, window_size, String::from("./config.toml"))
        .unwrap()
}

/// Runs the engine with every push and save succeeding; returns the pushed
/// tips, the checkpoints written, and the exit code.
fn run_clean(engine: &mut PushEngine, first: Action) -> (Vec<CommitRef>, Vec<CommitRef>, i32) {
    let mut pushed = Vec::new();
    let mut saved = Vec::new();
    let mut action = first;
    loop {
        action = match action {
            Action::Push { tip, .. } => {
                pushed.push(tip);
                engine.step(Event::Pushed)
            }
            Action::SaveCheckpoint { commit } => {
                saved.push(commit);
                engine.step(Event::Saved)
            }
            Action::ClearCheckpoint | Action::Fail { .. } => break,
        };
    }
    (pushed, saved, engine.exit_code())
}

#[test]
fn fresh_remote_pushes_three_windows() {
    let missing = chain(5);
    let a = args(2, true, false);
    let (mut e, first) = PushEngine::start(&missing, c(5), None, &a, false);
    assert_eq!(first, Action::Push { tip: c(2), force: false, delay_ms: 0 });
    let (pushed, saved, code) = run_clean(&mut e, first);
    assert_eq!(pushed, vec![c(2), c(4), c(5)]);
    assert_eq!(saved, vec![c(2), c(4), c(5)]);
    assert_eq!(code, 0);
    assert_eq!(e.phase(), Phase::Done);
}

#[test]
fn resume_from_checkpoint_skips_confirmed_windows() {
    let missing = chain(5);
    let a = args(2, true, false);
    assert_eq!(pending_commits(&missing, Some(c(2)), true), vec![c(3), c(4), c(5)]);
    let (mut e, first) = PushEngine::start(&missing, c(5), Some(c(2)), &a, false);
    let (pushed, saved, code) = run_clean(&mut e, first);
    assert_eq!(pushed, vec![c(4), c(5)]);
    assert_eq!(saved, vec![c(4), c(5)]);
    assert_eq!(code, 0);
}

#[test]
fn resume_off_ignores_checkpoint() {
    let missing = chain(5);
    assert_eq!(pending_commits(&missing, Some(c(2)), false), missing);
    let a = args(2, false, false);
    let (mut e, first) = PushEngine::start(&missing, c(5), Some(c(2)), &a, false);
    let (pushed, _, _) = run_clean(&mut e, first);
    assert_eq!(pushed, vec![c(2), c(4), c(5)]);
}

#[test]
fn checkpoint_not_in_walk_starts_from_oldest() {
    let missing = chain(3);
    assert_eq!(pending_commits(&missing, Some(c(9)), true), missing);
}

#[test]
fn crash_mid_window_resumes_after_last_checkpoint() {
    let missing = chain(7);
    let a = args(3, true, false);
    let (mut e, first) = PushEngine::start(&missing, c(7), None, &a, false);
    assert_eq!(first, Action::Push { tip: c(3), force: false, delay_ms: 0 });
    assert_eq!(e.step(Event::Pushed), Action::SaveCheckpoint { commit: c(3) });
    assert_eq!(e.step(Event::Saved), Action::Push { tip: c(6), force: false, delay_ms: 0 });
    // the process dies here; the stored checkpoint is c(3)
    let (mut e2, first2) = PushEngine::start(&missing, c(7), Some(c(3)), &a, false);
    let (pushed, saved, code) = run_clean(&mut e2, first2);
    assert_eq!(pushed, vec![c(6), c(7)]);
    assert_eq!(saved, vec![c(6), c(7)]);
    assert_eq!(code, 0);
}

#[test]
fn nothing_to_push_succeeds_with_no_windows() {
    let a = args(4, true, false);
    let (e, first) = PushEngine::start(&Vec::new(), c(1), None, &a, false);
    assert_eq!(first, Action::ClearCheckpoint);
    assert_eq!(e.exit_code(), 0);
}

#[test]
fn diverged_without_overwrite_fails_before_any_push() {
    let a = args(2, true, false);
    let (e, first) = PushEngine::start(&chain(5), c(5), None, &a, true);
    assert_eq!(first, Action::Fail { error: PushError::HistoryDiverged });
    assert_eq!(e.phase(), Phase::Failed);
    assert_eq!(e.exit_code(), 1);
}

#[test]
fn diverged_with_overwrite_forces_every_push_to_local_tip() {
    let a = args(2, true, true);
    let (mut e, first) = PushEngine::start(&chain(3), c(3), None, &a, true);
    let mut forces = Vec::new();
    let mut tips = Vec::new();
    let mut action = first;
    loop {
        action = match action {
            Action::Push { tip, force, .. } => {
                forces.push(force);
                tips.push(tip);
                e.step(Event::Pushed)
            }
            Action::SaveCheckpoint { .. } => e.step(Event::Saved),
            _ => break,
        };
    }
    assert_eq!(forces, vec![true, true]);
    assert_eq!(tips.last(), Some(&c(3)));
    assert_eq!(e.exit_code(), 0);
}

#[test]
fn diverged_with_overwrite_and_nothing_missing_resets_remote() {
    let a = args(2, true, true);
    let (_, first) = PushEngine::start(&Vec::new(), c(8), None, &a, true);
    assert_eq!(first, Action::Push { tip: c(8), force: true, delay_ms: 0 });
}

#[test]
fn transient_failures_back_off_then_give_up() {
    let a = args(2, true, false);
    let (mut e, _) = PushEngine::start(&chain(4), c(4), None, &a, false);
    assert_eq!(MAX_ATTEMPTS, 4);
    assert_eq!(
        e.step(Event::TransientFailure),
        Action::Push { tip: c(2), force: false, delay_ms: BASE_DELAY_MS }
    );
    assert_eq!(
        e.step(Event::TransientFailure),
        Action::Push { tip: c(2), force: false, delay_ms: 2 * BASE_DELAY_MS }
    );
    assert_eq!(
        e.step(Event::TransientFailure),
        Action::Push { tip: c(2), force: false, delay_ms: 4 * BASE_DELAY_MS }
    );
    assert_eq!(
        e.step(Event::TransientFailure),
        Action::Fail { error: PushError::TransientExhausted { window: 0 } }
    );
    assert_eq!(e.exit_code(), 1);
}

#[test]
fn retry_counter_resets_for_next_window() {
    let a = args(2, true, false);
    let (mut e, _) = PushEngine::start(&chain(4), c(4), None, &a, false);
    assert_eq!(
        e.step(Event::TransientFailure),
        Action::Push { tip: c(2), force: false, delay_ms: 500 }
    );
    assert_eq!(e.step(Event::Pushed), Action::SaveCheckpoint { commit: c(2) });
    assert_eq!(e.step(Event::Saved), Action::Push { tip: c(4), force: false, delay_ms: 0 });
}

#[test]
fn permanent_failure_stops_at_once() {
    let a = args(2, true, false);
    let (mut e, _) = PushEngine::start(&chain(4), c(4), None, &a, false);
    assert_eq!(e.step(Event::Pushed), Action::SaveCheckpoint { commit: c(2) });
    assert_eq!(e.step(Event::Saved), Action::Push { tip: c(4), force: false, delay_ms: 0 });
    assert_eq!(
        e.step(Event::PermanentFailure),
        Action::Fail { error: PushError::Permanent { window: 1 } }
    );
    assert_eq!(e.phase(), Phase::Failed);
}

#[test]
fn checkpoint_store_failure_stops_the_run() {
    let a = args(2, true, false);
    let (mut e, _) = PushEngine::start(&chain(4), c(4), None, &a, false);
    assert_eq!(e.step(Event::Pushed), Action::SaveCheckpoint { commit: c(2) });
    assert!(e.is_accepted(Event::SaveFailed));
    assert!(!e.is_accepted(Event::Pushed));
    assert_eq!(
        e.step(Event::SaveFailed),
        Action::Fail { error: PushError::CheckpointStore { window: 0 } }
    );
    assert_eq!(e.exit_code(), 1);
}

#[test]
fn failures_classed_for_retry() {
    assert_eq!(failure_event(ErrorOrigin::Net, ErrorReason::Other), Event::TransientFailure);
    assert_eq!(failure_event(ErrorOrigin::Os, ErrorReason::Other), Event::TransientFailure);
    assert_eq!(failure_event(ErrorOrigin::Http, ErrorReason::Auth), Event::PermanentFailure);
    assert_eq!(failure_event(ErrorOrigin::Ssh, ErrorReason::Certificate), Event::PermanentFailure);
    assert_eq!(failure_event(ErrorOrigin::Net, ErrorReason::NotFastForward), Event::PermanentFailure);
    assert_eq!(failure_event(ErrorOrigin::Other, ErrorReason::Other), Event::PermanentFailure);
}
