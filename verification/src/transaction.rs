//! The order in which the steps of one request reach storage.
//!
//! A request opens a transaction, runs its steps one after another, and
//! commits. The first failure ends it: a transaction that was opened is
//! rolled back, and the request ends with that failure. Nothing here
//! touches storage; the caller performs each [`Action`] and hands back how
//! it went.

use vstd::prelude::*;
use crate::error::SyncError;

verus! {

/// Where a request stands, named by the action that is under way.
#[derive(Clone, Copy, Debug, PartialEq, Eq)]
pub enum Phase {
    /// The transaction is being opened.
    Opening,
    /// The step with this index is being run.
    Running(usize),
    /// The transaction is being committed.
    Committing,
    /// The transaction is being rolled back after this failure.
    Aborting(SyncError),
    /// The request has ended with this outcome.
    Finished(Result<(), SyncError>),
}

/// What the caller has to do next.
#[derive(Clone, Copy, Debug, PartialEq, Eq)]
pub enum Action {
    /// Open a transaction.
    Begin,
    /// Run the step with this index inside the transaction.
    Step(usize),
    /// Commit the transaction.
    Commit,
    /// Roll the transaction back.
    Rollback,
    /// Report this outcome; nothing is left to do.
    Finish(Result<(), SyncError>),
}

/// The phase and the action that follow when the action of `phase` went as
/// `reply` says, in a request of `steps` steps.
pub open spec fn next_spec(steps: usize, phase: Phase, reply: Result<(), SyncError>) -> (
    Phase,
    Action,
) {
    match phase {
        Phase::Opening => match reply {
            Ok(_) => if 0 < steps {
                (Phase::Running(0), Action::Step(0))
            } else {
                (Phase::Committing, Action::Commit)
            },
            Err(e) => (Phase::Finished(Err(e)), Action::Finish(Err(e))),
        },
        Phase::Running(i) => match reply {
            Ok(_) => if i + 1 < steps {
                (Phase::Running((i + 1) as usize), Action::Step((i + 1) as usize))
            } else {
                (Phase::Committing, Action::Commit)
            },
            Err(e) => (Phase::Aborting(e), Action::Rollback),
        },
        Phase::Committing => match reply {
            Ok(_) => (Phase::Finished(Ok(())), Action::Finish(Ok(()))),
            Err(e) => (Phase::Aborting(e), Action::Rollback),
        },
        Phase::Aborting(e) => (Phase::Finished(Err(e)), Action::Finish(Err(e))),
        Phase::Finished(r) => (Phase::Finished(r), Action::Finish(r)),
    }
}

/// The phase and the action with which every request starts.
pub fn start() -> (r: (Phase, Action))
    ensures
        r == (Phase::Opening, Action::Begin),
{
    (Phase::Opening, Action::Begin)
}

/// The phase and the action that follow when the action of `phase` went as
/// `reply` says, in a request of `steps` steps.
///
/// After a failure no further step is run and nothing is committed: the
/// next action is `Rollback` where a transaction is open, and then
/// `Finish` with the failure that ended the request.
pub fn next(steps: usize, phase: Phase, reply: Result<(), SyncError>) -> (r: (Phase, Action))
    ensures
        r == next_spec(steps, phase, reply),
{
    match phase {
        Phase::Opening => match reply {
            Ok(_) => if 0 < steps {
                (Phase::Running(0), Action::Step(0))
            } else {
                (Phase::Committing, Action::Commit)
            },
            Err(e) => (Phase::Finished(Err(e)), Action::Finish(Err(e))),
        },
        Phase::Running(i) => match reply {
            Ok(_) => if i < steps && i + 1 < steps {
                (Phase::Running(i + 1), Action::Step(i + 1))
            } else {
                (Phase::Committing, Action::Commit)
            },
            Err(e) => (Phase::Aborting(e), Action::Rollback),
        },
        Phase::Committing => match reply {
            Ok(_) => (Phase::Finished(Ok(())), Action::Finish(Ok(()))),
            Err(e) => (Phase::Aborting(e), Action::Rollback),
        },
        Phase::Aborting(e) => (Phase::Finished(Err(e)), Action::Finish(Err(e))),
        Phase::Finished(r) => (Phase::Finished(r), Action::Finish(r)),
    }
}

/// How many actions a request in `phase` can still ask for, at most.
pub open spec fn remaining(steps: usize, phase: Phase) -> nat {
    match phase {
        Phase::Opening => (steps + 4) as nat,
        Phase::Running(i) => if i < steps {
            (steps - i + 3) as nat
        } else {
            4
        },
        Phase::Committing => 3,
        Phase::Aborting(_) => 2,
        Phase::Finished(_) => 1,
    }
}

/// Every reply brings a request that has not ended closer to its end, and
/// a request that has ended stays ended.
pub proof fn lemma_next_progress(steps: usize, phase: Phase, reply: Result<(), SyncError>)
    ensures
        !(phase is Finished) ==> remaining(steps, next_spec(steps, phase, reply).0) < remaining(
            steps,
            phase,
        ),
        phase is Finished ==> next_spec(steps, phase, reply).0 == phase,
        next_spec(steps, phase, reply).0 matches Phase::Finished(r) ==> next_spec(
            steps,
            phase,
            reply,
        ).1 == Action::Finish(r),
{
}

/// A commit is asked for only after the last step went well, and a step
/// only after the one before it went well.
pub proof fn lemma_next_order(steps: usize, phase: Phase, reply: Result<(), SyncError>)
    ensures
        next_spec(steps, phase, reply).1 == Action::Commit ==> reply is Ok && (phase
            == Phase::Opening && steps == 0 || (phase matches Phase::Running(i) && i + 1
            >= steps)),
        next_spec(steps, phase, reply).1 matches Action::Step(n) ==> reply is Ok && n < steps
            && (phase == Phase::Opening && n == 0 || (phase matches Phase::Running(i) && n == i
            + 1)),
        reply is Err && (phase is Running || phase is Committing) ==> next_spec(
            steps,
            phase,
            reply,
        ).1 == Action::Rollback,
{
}

} // verus!
