//! The snapshot writer: a plan run inside one transaction, so that what is
//! stored afterwards is either the submitted snapshot or what was stored
//! before, whatever fails on the way.

use vstd::prelude::*;
use crate::error::SyncError;
use crate::model::{Snapshot, SnapshotView};
use crate::plan::{plan_spec, statement_views, write_plan, StatementView};
use crate::rows::TablesView;
use crate::store::{apply_spec, perform_spec, run_spec, MemoryStore, StoreView};
use crate::transaction::{lemma_next_progress, next, next_spec, remaining, start, Action, Phase};
use crate::validate::valid;

verus! {

/// The store after `action` and how the action went, where storage may
/// fail for reasons of its own: under a fault the action is reported as
/// failed and has no effect, except that a transaction which is being
/// rolled back is gone either way.
pub open spec fn attempt(
    store: StoreView,
    plan: Seq<StatementView>,
    action: Action,
    fault: Option<SyncError>,
) -> (StoreView, Result<(), SyncError>) {
    match fault {
        Some(e) => (
            if action is Rollback {
                StoreView { working: None, ..store }
            } else {
                store
            },
            Err(e),
        ),
        None => perform_spec(store, plan, action),
    }
}

/// The fault that meets the next action.
pub open spec fn first_fault(faults: Seq<Option<SyncError>>) -> Option<SyncError> {
    if faults.len() > 0 {
        faults[0]
    } else {
        None
    }
}

/// The faults that meet the actions after the next one.
pub open spec fn later_faults(faults: Seq<Option<SyncError>>) -> Seq<Option<SyncError>> {
    if faults.len() > 0 {
        faults.drop_first()
    } else {
        faults
    }
}

/// The store and the outcome at the end of a request that stands in
/// `phase` with `action` to do, when each action is performed on the store
/// and its reply decides the next one. `faults[n]` is the fault, if any,
/// that meets the n-th action from here.
pub open spec fn drive_spec(
    plan: Seq<StatementView>,
    store: StoreView,
    phase: Phase,
    action: Action,
    faults: Seq<Option<SyncError>>,
) -> (StoreView, Result<(), SyncError>)
    decreases remaining(plan.len() as usize, phase), (if action is Finish {
            0nat
        } else {
            1nat
        }),
{
    match action {
        Action::Finish(r) => (store, r),
        _ => {
            let tried = attempt(store, plan, action, first_fault(faults));
            let then = next_spec(plan.len() as usize, phase, tried.1);
            drive_spec(plan, tried.0, then.0, then.1, later_faults(faults))
        },
    }
}

/// The store and the outcome after a request to replace what is stored by
/// the snapshot `s`: a snapshot that is not valid is turned away before
/// anything reaches storage, and a valid one has its plan run inside one
/// transaction.
pub open spec fn write_spec(store: StoreView, s: SnapshotView) -> (
    StoreView,
    Result<(), SyncError>,
) {
    if valid(s) {
        drive_spec(plan_spec(s), store, Phase::Opening, Action::Begin, Seq::empty())
    } else {
        (store, Err(SyncError::Validation))
    }
}

/// Whether no fault meets any action.
pub open spec fn quiet(faults: Seq<Option<SyncError>>) -> bool {
    forall|n: int| 0 <= n < faults.len() ==> (#[trigger] faults[n]) is None
}

/// Whether a request that found `before` stored has ended well: no
/// transaction is left open, and what is stored is what the whole plan
/// makes of `before` after success, and `before` itself after a failure.
pub open spec fn settled(
    plan: Seq<StatementView>,
    before: TablesView,
    store: StoreView,
    outcome: Result<(), SyncError>,
) -> bool {
    &&& store.working is None
    &&& outcome is Ok ==> run_spec(before, plan) == Some(store.committed)
    &&& outcome is Err ==> store.committed == before
}

/// Whether a request that found `before` stored stands as its phase says:
/// the stored tables are untouched, and the tables of the transaction are
/// what the steps run so far make of `before`.
pub open spec fn on_course(
    plan: Seq<StatementView>,
    before: TablesView,
    store: StoreView,
    phase: Phase,
    action: Action,
) -> bool {
    match phase {
        Phase::Opening => action == Action::Begin && store == (StoreView {
            committed: before,
            working: None,
        }),
        Phase::Running(i) => {
            &&& action == Action::Step(i)
            &&& i < plan.len()
            &&& store.committed == before
            &&& store.working is Some
            &&& store.working == run_spec(before, plan.take(i as int))
        },
        Phase::Committing => {
            &&& action == Action::Commit
            &&& store.committed == before
            &&& store.working is Some
            &&& store.working == run_spec(before, plan)
        },
        Phase::Aborting(e) => action == Action::Rollback && store.committed == before,
        Phase::Finished(r) => action == Action::Finish(r) && settled(plan, before, store, r),
    }
}

/// Whether a failure, if the request has met one, is a refusal of the plan
/// by the schema.
pub open spec fn refused_only(plan: Seq<StatementView>, before: TablesView, phase: Phase) -> bool {
    match phase {
        Phase::Aborting(e) => e == SyncError::Validation && run_spec(before, plan) is None,
        Phase::Finished(Err(e)) => e == SyncError::Validation && run_spec(before, plan) is None,
        _ => true,
    }
}

/// A plan of which a part is refused is refused as a whole.
pub proof fn lemma_refused_part(t: TablesView, plan: Seq<StatementView>, n: int)
    requires
        0 <= n <= plan.len(),
        run_spec(t, plan.take(n)) is None,
    ensures
        run_spec(t, plan) is None,
    decreases plan.len() - n,
{
    if n < plan.len() {
        assert(plan.take(n + 1).drop_last() =~= plan.take(n));
        lemma_refused_part(t, plan, n + 1);
    } else {
        assert(plan.take(n) =~= plan);
    }
}

/// A request that is on course stays on course until it ends, whatever
/// faults it meets; and without faults it fails only where the schema
/// refuses the plan.
proof fn lemma_drive_settles(
    plan: Seq<StatementView>,
    before: TablesView,
    store: StoreView,
    phase: Phase,
    action: Action,
    faults: Seq<Option<SyncError>>,
    calm: bool,
)
    requires
        plan.len() <= usize::MAX,
        on_course(plan, before, store, phase, action),
        calm ==> quiet(faults) && refused_only(plan, before, phase),
    ensures
        settled(
            plan,
            before,
            drive_spec(plan, store, phase, action, faults).0,
            drive_spec(plan, store, phase, action, faults).1,
        ),
        calm ==> match drive_spec(plan, store, phase, action, faults).1 {
            Ok(_) => true,
            Err(e) => e == SyncError::Validation && run_spec(before, plan) is None,
        },
    decreases remaining(plan.len() as usize, phase), (if action is Finish {
            0nat
        } else {
            1nat
        }),
{
    match action {
        Action::Finish(r) => {},
        _ => {
            let fault = first_fault(faults);
            let rest = later_faults(faults);
            let tried = attempt(store, plan, action, fault);
            let then = next_spec(plan.len() as usize, phase, tried.1);
            lemma_next_progress(plan.len() as usize, phase, tried.1);
            if calm {
                assert(fault is None) by {
                    if faults.len() > 0 {
                        assert(faults[0] is None);
                    }
                }
                assert(quiet(rest)) by {
                    assert forall|n: int| 0 <= n < rest.len() implies (
                    #[trigger] rest[n]) is None by {
                        assert(rest[n] == faults[n + 1]);
                    }
                }
            }
            match phase {
                Phase::Opening => {
                    assert(plan.take(0) =~= Seq::<StatementView>::empty());
                    if plan.len() == 0 {
                        assert(run_spec(before, plan) == Some(before));
                    }
                },
                Phase::Running(i) => {
                    let w = store.working->0;
                    assert(plan.take(i + 1).drop_last() =~= plan.take(i as int));
                    assert(plan.take(i + 1).last() == plan[i as int]);
                    assert(run_spec(before, plan.take(i + 1)) == apply_spec(w, plan[i as int]));
                    if i + 1 == plan.len() {
                        assert(plan.take(i + 1) =~= plan);
                    }
                    if apply_spec(w, plan[i as int]) is None {
                        lemma_refused_part(before, plan, i + 1);
                    }
                },
                _ => {},
            }
            lemma_drive_settles(plan, before, tried.0, then.0, then.1, rest, calm);
        },
    }
}

/// Atomicity: a request that finds no transaction open leaves none open,
/// and leaves stored either what its whole plan makes of what was stored
/// before, where it ends in success, or exactly what was stored before,
/// where it ends in failure. This holds whatever faults storage meets on
/// the way and whichever statement is refused.
pub proof fn lemma_transaction_atomic(
    plan: Seq<StatementView>,
    store: StoreView,
    faults: Seq<Option<SyncError>>,
)
    requires
        plan.len() <= usize::MAX,
        store.working is None,
    ensures
        settled(
            plan,
            store.committed,
            drive_spec(plan, store, Phase::Opening, Action::Begin, faults).0,
            drive_spec(plan, store, Phase::Opening, Action::Begin, faults).1,
        ),
{
    lemma_drive_settles(
        plan,
        store.committed,
        store,
        Phase::Opening,
        Action::Begin,
        faults,
        false,
    );
}

/// Without faults a request succeeds exactly where the schema accepts
/// every statement of its plan, and otherwise fails with
/// `SyncError::Validation`.
pub proof fn lemma_transaction_outcome(plan: Seq<StatementView>, store: StoreView)
    requires
        plan.len() <= usize::MAX,
        store.working is None,
    ensures
        drive_spec(plan, store, Phase::Opening, Action::Begin, Seq::empty()) == match run_spec(
            store.committed,
            plan,
        ) {
            Some(t) => (StoreView { committed: t, working: None }, Ok::<(), SyncError>(())),
            None => (store, Err::<(), SyncError>(SyncError::Validation)),
        },
{
    let quiet_run = Seq::<Option<SyncError>>::empty();
    lemma_drive_settles(
        plan,
        store.committed,
        store,
        Phase::Opening,
        Action::Begin,
        quiet_run,
        true,
    );
    let end = drive_spec(plan, store, Phase::Opening, Action::Begin, quiet_run);
    match end.1 {
        Ok(unit) => {
            assert(unit == ());
            assert(end.0 == (StoreView { committed: end.0.committed, working: None }));
        },
        Err(e) => {
            assert(end.0 == store);
        },
    }
}

impl MemoryStore {
    /// Replaces what is stored by `snapshot`, inside one transaction.
    pub fn write(&mut self, snapshot: &Snapshot) -> (r: Result<(), SyncError>)
        ensures
            (final(self)@, r) == write_spec(old(self)@, snapshot@),
    {
        let plan = match write_plan(snapshot) {
            Ok(plan) => plan,
            Err(e) => {
                return Err(e);
            },
        };
        let ghost stmts = statement_views(plan@);
        let ghost nothing = Seq::<Option<SyncError>>::empty();
        let (mut phase, mut action) = start();
        loop
            invariant
                stmts == statement_views(plan@),
                stmts == plan_spec(snapshot@),
                valid(snapshot@),
                nothing == Seq::<Option<SyncError>>::empty(),
                drive_spec(stmts, self@, phase, action, nothing) == write_spec(
                    old(self)@,
                    snapshot@,
                ),
            decreases
                    2 * remaining(plan.len(), phase) + (if action is Finish {
                        0nat
                    } else {
                        1nat
                    }),
        {
            match action {
                Action::Finish(r) => {
                    return r;
                },
                _ => {},
            }
            proof {
                lemma_next_progress(
                    plan.len(),
                    phase,
                    attempt(self@, stmts, action, first_fault(nothing)).1,
                );
            }
            let reply = self.perform(&plan, action);
            let then = next(plan.len(), phase, reply);
            phase = then.0;
            action = then.1;
        }
    }
}

} // verus!
