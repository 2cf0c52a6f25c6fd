//! What holds of the writer and the reader together, whatever the snapshot
//! and whatever was stored before.

use vstd::prelude::*;
use crate::error::SyncError;
use crate::flatten::flatten_spec;
use crate::model::SnapshotView;
use crate::plan::{
    argument_inserts, deletes, place_inserts, plan_of, plan_spec, service_inserts, StatementView,
};
use crate::reconstruct::{has_place, has_service, well_parented};
use crate::rows::{ArgumentRowView, PlaceRowView, ServiceRowView, TablesView};
use crate::store::{has_argument, run_spec, StoreView};
use crate::nesting::{lemma_flatten_well_parented, lemma_reconstruct_flatten};
use crate::reader::read_spec;
use crate::transaction::{next_spec, Action, Phase};
use crate::validate::{argument_ids, place_ids, service_ids, valid};
use crate::writer::{
    attempt, drive_spec, first_fault, later_faults, lemma_transaction_outcome, write_spec,
};

verus! {

/// Whether no identifier occurs twice in its table.
pub open spec fn keys_distinct(t: TablesView) -> bool {
    place_ids(t).no_duplicates() && service_ids(t).no_duplicates() && argument_ids(
        t,
    ).no_duplicates()
}

/// Running two lists of statements one after the other is running the
/// second on what the first leaves.
pub proof fn lemma_run_concat(t: TablesView, a: Seq<StatementView>, b: Seq<StatementView>)
    ensures
        run_spec(t, a + b) == match run_spec(t, a) {
            Some(u) => run_spec(u, b),
            None => None,
        },
    decreases b.len(),
{
    if b.len() == 0 {
        assert(a + b =~= a);
    } else {
        assert((a + b).drop_last() =~= a + b.drop_last());
        assert((a + b).last() == b.last());
        lemma_run_concat(t, a, b.drop_last());
    }
}

/// The three deletions empty the tables, whatever they hold.
pub proof fn lemma_deletes_erase(t: TablesView)
    ensures
        run_spec(t, deletes()) == Some(TablesView::empty()),
{
    let d = deletes();
    let d2 = d.drop_last();
    let d1 = d2.drop_last();
    let d0 = d1.drop_last();
    assert(d0.len() == 0);
    assert(run_spec(t, d0) == Some(t));
    let t1 = TablesView { arguments: Seq::empty(), ..t };
    assert(d1.last() == StatementView::DeleteArguments);
    assert(run_spec(t, d1) == Some(t1));
    let t2 = TablesView { services: Seq::empty(), ..t1 };
    assert(d2.last() == StatementView::DeleteServices);
    assert(run_spec(t, d2) == Some(t2));
    assert(d.last() == StatementView::DeletePlaces);
    let t3 = TablesView { places: Seq::empty(), ..t2 };
    assert(t3 == TablesView::empty());
}

/// Places with identifiers that the table does not hold yet, and that
/// differ from each other, are all inserted.
pub proof fn lemma_insert_places(u: TablesView, rows: Seq<PlaceRowView>)
    requires
        place_ids(TablesView { places: u.places + rows, ..u }).no_duplicates(),
    ensures
        run_spec(u, place_inserts(rows)) == Some(TablesView { places: u.places + rows, ..u }),
    decreases rows.len(),
{
    let all = TablesView { places: u.places + rows, ..u };
    if rows.len() == 0 {
        assert(u.places + rows =~= u.places);
    } else {
        let front = rows.drop_last();
        let mid = TablesView { places: u.places + front, ..u };
        assert(place_ids(mid).no_duplicates()) by {
            assert forall|i: int, j: int|
                0 <= i < place_ids(mid).len() && 0 <= j < place_ids(mid).len() && i
                    != j implies place_ids(mid)[i] != place_ids(mid)[j] by {
                assert(place_ids(all)[i] == place_ids(mid)[i]);
                assert(place_ids(all)[j] == place_ids(mid)[j]);
            }
        }
        lemma_insert_places(u, front);
        assert(place_inserts(rows).drop_last() =~= place_inserts(front));
        assert(place_inserts(rows).last() == StatementView::InsertPlace(rows.last()));
        assert(!has_place(mid.places, rows.last().id)) by {
            if has_place(mid.places, rows.last().id) {
                let i = choose|i: int|
                    0 <= i < mid.places.len() && (#[trigger] mid.places[i]).id == rows.last().id;
                let j = all.places.len() - 1;
                assert(place_ids(all)[i] == mid.places[i].id);
                assert(place_ids(all)[j] == rows.last().id);
            }
        }
        assert(mid.places.push(rows.last()) =~= u.places + rows);
    }
}

/// Services with identifiers that the table does not hold yet, that
/// differ from each other, and that name stored places, are all inserted.
pub proof fn lemma_insert_services(u: TablesView, rows: Seq<ServiceRowView>)
    requires
        service_ids(TablesView { services: u.services + rows, ..u }).no_duplicates(),
        forall|i: int| 0 <= i < rows.len() ==> has_place(u.places, (#[trigger] rows[i]).place_id),
    ensures
        run_spec(u, service_inserts(rows)) == Some(
            TablesView { services: u.services + rows, ..u },
        ),
    decreases rows.len(),
{
    let all = TablesView { services: u.services + rows, ..u };
    if rows.len() == 0 {
        assert(u.services + rows =~= u.services);
    } else {
        let front = rows.drop_last();
        let mid = TablesView { services: u.services + front, ..u };
        assert(service_ids(mid).no_duplicates()) by {
            assert forall|i: int, j: int|
                0 <= i < service_ids(mid).len() && 0 <= j < service_ids(mid).len() && i
                    != j implies service_ids(mid)[i] != service_ids(mid)[j] by {
                assert(service_ids(all)[i] == service_ids(mid)[i]);
                assert(service_ids(all)[j] == service_ids(mid)[j]);
            }
        }
        assert forall|i: int| 0 <= i < front.len() implies has_place(
            u.places,
            (#[trigger] front[i]).place_id,
        ) by {
            assert(front[i] == rows[i]);
        }
        lemma_insert_services(u, front);
        assert(service_inserts(rows).drop_last() =~= service_inserts(front));
        assert(service_inserts(rows).last() == StatementView::InsertService(rows.last()));
        assert(!has_service(mid.services, rows.last().id)) by {
            if has_service(mid.services, rows.last().id) {
                let i = choose|i: int|
                    0 <= i < mid.services.len() && (#[trigger] mid.services[i]).id
                        == rows.last().id;
                let j = all.services.len() - 1;
                assert(service_ids(all)[i] == mid.services[i].id);
                assert(service_ids(all)[j] == rows.last().id);
            }
        }
        assert(has_place(mid.places, rows.last().place_id)) by {
            assert(rows.last() == rows[rows.len() - 1]);
        }
        assert(mid.services.push(rows.last()) =~= u.services + rows);
    }
}

/// Arguments with identifiers that the table does not hold yet, that
/// differ from each other, and that name stored services, are all
/// inserted.
pub proof fn lemma_insert_arguments(u: TablesView, rows: Seq<ArgumentRowView>)
    requires
        argument_ids(TablesView { arguments: u.arguments + rows, ..u }).no_duplicates(),
        forall|i: int|
            0 <= i < rows.len() ==> has_service(u.services, (#[trigger] rows[i]).service_id),
    ensures
        run_spec(u, argument_inserts(rows)) == Some(
            TablesView { arguments: u.arguments + rows, ..u },
        ),
    decreases rows.len(),
{
    let all = TablesView { arguments: u.arguments + rows, ..u };
    if rows.len() == 0 {
        assert(u.arguments + rows =~= u.arguments);
    } else {
        let front = rows.drop_last();
        let mid = TablesView { arguments: u.arguments + front, ..u };
        assert(argument_ids(mid).no_duplicates()) by {
            assert forall|i: int, j: int|
                0 <= i < argument_ids(mid).len() && 0 <= j < argument_ids(mid).len() && i
                    != j implies argument_ids(mid)[i] != argument_ids(mid)[j] by {
                assert(argument_ids(all)[i] == argument_ids(mid)[i]);
                assert(argument_ids(all)[j] == argument_ids(mid)[j]);
            }
        }
        assert forall|i: int| 0 <= i < front.len() implies has_service(
            u.services,
            (#[trigger] front[i]).service_id,
        ) by {
            assert(front[i] == rows[i]);
        }
        lemma_insert_arguments(u, front);
        assert(argument_inserts(rows).drop_last() =~= argument_inserts(front));
        assert(argument_inserts(rows).last() == StatementView::InsertArgument(rows.last()));
        assert(!has_argument(mid.arguments, rows.last().id)) by {
            if has_argument(mid.arguments, rows.last().id) {
                let i = choose|i: int|
                    0 <= i < mid.arguments.len() && (#[trigger] mid.arguments[i]).id
                        == rows.last().id;
                let j = all.arguments.len() - 1;
                assert(argument_ids(all)[i] == mid.arguments[i].id);
                assert(argument_ids(all)[j] == rows.last().id);
            }
        }
        assert(has_service(mid.services, rows.last().service_id)) by {
            assert(rows.last() == rows[rows.len() - 1]);
        }
        assert(mid.arguments.push(rows.last()) =~= u.arguments + rows);
    }
}

/// A plan for tables whose identifiers are distinct and whose rows all
/// name a parent among them runs through, and leaves exactly those tables,
/// whatever was stored before.
pub proof fn lemma_plan_replaces(before: TablesView, t: TablesView)
    requires
        keys_distinct(t),
        well_parented(t),
    ensures
        run_spec(before, plan_of(t)) == Some(t),
{
    let e0 = TablesView::empty();
    let e1 = TablesView { places: t.places, ..e0 };
    let e2 = TablesView { services: t.services, ..e1 };
    lemma_deletes_erase(before);
    assert(e0.places + t.places =~= t.places);
    assert(e1.services + t.services =~= t.services);
    assert(e2.arguments + t.arguments =~= t.arguments);
    assert(place_ids(TablesView { places: e0.places + t.places, ..e0 }) =~= place_ids(t));
    lemma_insert_places(e0, t.places);
    assert(service_ids(TablesView { services: e1.services + t.services, ..e1 }) =~= service_ids(
        t,
    ));
    lemma_insert_services(e1, t.services);
    assert(argument_ids(TablesView { arguments: e2.arguments + t.arguments, ..e2 })
        =~= argument_ids(t));
    lemma_insert_arguments(e2, t.arguments);
    let p1 = deletes() + place_inserts(t.places);
    let p2 = p1 + service_inserts(t.services);
    lemma_run_concat(before, deletes(), place_inserts(t.places));
    lemma_run_concat(before, p1, service_inserts(t.services));
    lemma_run_concat(before, p2, argument_inserts(t.arguments));
    assert(TablesView { arguments: t.arguments, ..e2 } == t);
}

/// What a write leaves and returns: a valid snapshot replaces whatever
/// was stored by exactly its own rows, and a snapshot that is not valid
/// changes nothing and fails with `SyncError::Validation`.
pub proof fn lemma_write_outcome(store: StoreView, s: SnapshotView)
    requires
        store.working is None,
        plan_spec(s).len() <= usize::MAX,
    ensures
        write_spec(store, s) == if valid(s) {
            (StoreView { committed: flatten_spec(s), working: None }, Ok::<(), SyncError>(()))
        } else {
            (store, Err::<(), SyncError>(SyncError::Validation))
        },
{
    if valid(s) {
        lemma_flatten_well_parented(s);
        lemma_plan_replaces(store.committed, flatten_spec(s));
        lemma_transaction_outcome(plan_spec(s), store);
    }
}

/// Round trip: what is read after a valid snapshot was written is that
/// snapshot: the same places, each with the same services, each with the
/// same arguments.
pub proof fn lemma_round_trip(store: StoreView, s: SnapshotView)
    requires
        store.working is None,
        plan_spec(s).len() <= usize::MAX,
        valid(s),
    ensures
        write_spec(store, s).1 is Ok,
        read_spec(write_spec(store, s).0) == Ok::<SnapshotView, SyncError>(s),
{
    lemma_write_outcome(store, s);
    lemma_flatten_well_parented(s);
    lemma_reconstruct_flatten(s);
}

/// Full replace, not merge: after a second snapshot was written, what is
/// stored and what is read is the second snapshot alone, whatever the
/// first one held.
pub proof fn lemma_full_replace(store: StoreView, first: SnapshotView, second: SnapshotView)
    requires
        store.working is None,
        plan_spec(first).len() <= usize::MAX,
        plan_spec(second).len() <= usize::MAX,
        valid(second),
    ensures
        write_spec(write_spec(store, first).0, second).0.committed == flatten_spec(second),
        read_spec(write_spec(write_spec(store, first).0, second).0) == Ok::<
            SnapshotView,
            SyncError,
        >(second),
{
    lemma_write_outcome(store, first);
    lemma_round_trip(write_spec(store, first).0, second);
    lemma_write_outcome(write_spec(store, first).0, second);
}

/// The snapshot without places erases all data: after it was written no
/// row is stored, and what is read is the snapshot without places.
pub proof fn lemma_empty_erases(store: StoreView)
    requires
        store.working is None,
    ensures
        write_spec(store, SnapshotView::empty()).1 is Ok,
        write_spec(store, SnapshotView::empty()).0.committed == TablesView::empty(),
        read_spec(write_spec(store, SnapshotView::empty()).0) == Ok::<SnapshotView, SyncError>(
            SnapshotView::empty(),
        ),
{
    let s = SnapshotView::empty();
    let t = flatten_spec(s);
    assert(t.places =~= Seq::empty());
    assert(t == TablesView::empty());
    assert(place_ids(t) =~= Seq::empty());
    assert(service_ids(t) =~= Seq::empty());
    assert(argument_ids(t) =~= Seq::empty());
    assert(valid(s));
    assert(plan_spec(s) =~= deletes());
    lemma_round_trip(store, s);
    lemma_write_outcome(store, s);
}

/// A write that fails changes nothing: the store is as it was, and so is
/// what is read from it. This holds for a store in any state.
pub proof fn lemma_failed_write_changes_nothing(store: StoreView, s: SnapshotView)
    requires
        plan_spec(s).len() <= usize::MAX,
        write_spec(store, s).1 is Err,
    ensures
        write_spec(store, s).0 == store,
        read_spec(write_spec(store, s).0) == read_spec(store),
{
    if valid(s) {
        if store.working is None {
            lemma_write_outcome(store, s);
        } else {
            let plan = plan_spec(s);
            let faults = Seq::<Option<SyncError>>::empty();
            let failed = Err::<(), SyncError>(SyncError::Storage);
            assert(attempt(store, plan, Action::Begin, first_fault(faults)) == (store, failed));
            assert(next_spec(plan.len() as usize, Phase::Opening, failed) == (
                Phase::Finished(failed),
                Action::Finish(failed),
            ));
            assert(drive_spec(
                plan,
                store,
                Phase::Finished(failed),
                Action::Finish(failed),
                later_faults(faults),
            ) == (store, failed));
        }
    }
}

/// Idempotence: writing the same snapshot a second time leaves and returns
/// what writing it once did.
pub proof fn lemma_write_idempotent(store: StoreView, s: SnapshotView)
    requires
        store.working is None,
        plan_spec(s).len() <= usize::MAX,
    ensures
        write_spec(write_spec(store, s).0, s) == write_spec(store, s),
{
    lemma_write_outcome(store, s);
    lemma_write_outcome(write_spec(store, s).0, s);
}

/// Two valid snapshots written one after the other, in either order,
/// leave stored exactly one of the two: the one written last, and no row
/// of the other.
pub proof fn lemma_serial_writes_keep_one(store: StoreView, a: SnapshotView, b: SnapshotView)
    requires
        store.working is None,
        plan_spec(a).len() <= usize::MAX,
        plan_spec(b).len() <= usize::MAX,
        valid(a),
        valid(b),
    ensures
        write_spec(write_spec(store, a).0, b).0.committed == flatten_spec(b),
        write_spec(write_spec(store, b).0, a).0.committed == flatten_spec(a),
{
    lemma_full_replace(store, a, b);
    lemma_full_replace(store, b, a);
}

} // verus!
