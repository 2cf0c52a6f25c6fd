use snapshot_sync::error::SyncError;
use snapshot_sync::transaction::{next, start, Action, Phase};

#[test]
fn a_request_starts_by_opening_a_transaction() {
    assert_eq!(start(), (Phase::Opening, Action::Begin));
}

#[test]
fn steps_run_in_order_and_then_the_commit() {
    let mut actions = vec![];
    let (mut phase, mut action) = start();
    loop {
        actions.push(action);
        if let Action::Finish(_) = action {
            break;
        }
        let then = next(3, phase, Ok(()));
        phase = then.0;
        action = then.1;
    }
    assert_eq!(
        actions,
        vec![
            Action::Begin,
            Action::Step(0),
            Action::Step(1),
            Action::Step(2),
            Action::Commit,
            Action::Finish(Ok(())),
        ]
    );
    assert_eq!(phase, Phase::Finished(Ok(())));
}

#[test]
fn a_request_without_steps_commits_at_once() {
    assert_eq!(next(0, Phase::Opening, Ok(())), (Phase::Committing, Action::Commit));
}

#[test]
fn a_failed_begin_ends_the_request_without_rollback() {
    let e = Err(SyncError::Storage);
    assert_eq!(next(3, Phase::Opening, e), (Phase::Finished(e), Action::Finish(e)));
}

#[test]
fn a_failed_step_is_rolled_back_and_reported() {
    let refused = Err(SyncError::Validation);
    assert_eq!(
        next(3, Phase::Running(1), refused),
        (Phase::Aborting(SyncError::Validation), Action::Rollback)
    );
    assert_eq!(
        next(3, Phase::Aborting(SyncError::Validation), Ok(())),
        (Phase::Finished(refused), Action::Finish(refused))
    );
}

#[test]
fn a_failed_commit_is_rolled_back_and_reported() {
    let e = Err(SyncError::Storage);
    assert_eq!(
        next(3, Phase::Committing, e),
        (Phase::Aborting(SyncError::Storage), Action::Rollback)
    );
}

#[test]
fn a_failed_rollback_does_not_hide_the_first_failure() {
    let first = Err(SyncError::Validation);
    assert_eq!(
        next(3, Phase::Aborting(SyncError::Validation), Err(SyncError::Storage)),
        (Phase::Finished(first), Action::Finish(first))
    );
}

#[test]
fn a_finished_request_stays_finished() {
    let done = Phase::Finished(Ok(()));
    assert_eq!(next(3, done, Ok(())), (done, Action::Finish(Ok(()))));
    assert_eq!(next(3, done, Err(SyncError::Storage)), (done, Action::Finish(Ok(()))));
}

#[test]
fn the_last_step_is_followed_by_the_commit() {
    assert_eq!(next(3, Phase::Running(2), Ok(())), (Phase::Committing, Action::Commit));
    assert_eq!(next(3, Phase::Running(0), Ok(())), (Phase::Running(1), Action::Step(1)));
    assert_eq!(
        next(3, Phase::Running(usize::MAX), Ok(())),
        (Phase::Committing, Action::Commit)
    );
}
