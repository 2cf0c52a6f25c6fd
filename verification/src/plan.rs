//! The statements that replace the stored dataset by a snapshot.
//!
//! A plan first empties the three tables, children before parents, and then
//! inserts the rows of the snapshot, parents before children, so that no
//! statement of it leaves a row without its parent.

use vstd::prelude::*;
use crate::error::SyncError;
use crate::flatten::{flatten, flatten_spec};
use crate::model::{Snapshot, SnapshotView};
use crate::rows::{
    ArgumentRow, ArgumentRowView, PlaceRow, PlaceRowView, ServiceRow, ServiceRowView, Tables,
    TablesView,
};
use crate::validate::{keys_are_valid, valid};

verus! {

/// One change of the stored tables.
#[derive(Clone, Debug, PartialEq, Eq)]
pub enum Statement {
    /// Removes every row of the table of arguments.
    DeleteArguments,
    /// Removes every row of the table of services.
    DeleteServices,
    /// Removes every row of the table of places.
    DeletePlaces,
    /// Adds a row to the table of places.
    InsertPlace(PlaceRow),
    /// Adds a row to the table of services.
    InsertService(ServiceRow),
    /// Adds a row to the table of arguments.
    InsertArgument(ArgumentRow),
}

/// What a [`Statement`] stands for.
pub enum StatementView {
    DeleteArguments,
    DeleteServices,
    DeletePlaces,
    InsertPlace(PlaceRowView),
    InsertService(ServiceRowView),
    InsertArgument(ArgumentRowView),
}

impl View for Statement {
    type V = StatementView;

    open spec fn view(&self) -> StatementView {
        match self {
            Statement::DeleteArguments => StatementView::DeleteArguments,
            Statement::DeleteServices => StatementView::DeleteServices,
            Statement::DeletePlaces => StatementView::DeletePlaces,
            Statement::InsertPlace(r) => StatementView::InsertPlace(r@),
            Statement::InsertService(r) => StatementView::InsertService(r@),
            Statement::InsertArgument(r) => StatementView::InsertArgument(r@),
        }
    }
}

/// The views of a vector of statements, in order.
pub open spec fn statement_views(v: Seq<Statement>) -> Seq<StatementView> {
    Seq::new(v.len(), |i: int| v[i]@)
}

/// The statements that empty the three tables, children first.
pub open spec fn deletes() -> Seq<StatementView> {
    seq![
        StatementView::DeleteArguments,
        StatementView::DeleteServices,
        StatementView::DeletePlaces,
    ]
}

/// One insertion for each place row, in order.
pub open spec fn place_inserts(rows: Seq<PlaceRowView>) -> Seq<StatementView> {
    Seq::new(rows.len(), |i: int| StatementView::InsertPlace(rows[i]))
}

/// One insertion for each service row, in order.
pub open spec fn service_inserts(rows: Seq<ServiceRowView>) -> Seq<StatementView> {
    Seq::new(rows.len(), |i: int| StatementView::InsertService(rows[i]))
}

/// One insertion for each argument row, in order.
pub open spec fn argument_inserts(rows: Seq<ArgumentRowView>) -> Seq<StatementView> {
    Seq::new(rows.len(), |i: int| StatementView::InsertArgument(rows[i]))
}

/// The statements that replace whatever is stored by the rows of `t`: the
/// three deletions, then the places, then the services, then the arguments.
pub open spec fn plan_of(t: TablesView) -> Seq<StatementView> {
    deletes() + place_inserts(t.places) + service_inserts(t.services) + argument_inserts(
        t.arguments,
    )
}

/// The statements that replace whatever is stored by the snapshot `s`.
pub open spec fn plan_spec(s: SnapshotView) -> Seq<StatementView> {
    plan_of(flatten_spec(s))
}

/// The statements that replace whatever is stored by the rows of `tables`.
pub fn replacement_plan(tables: &Tables) -> (plan: Vec<Statement>)
    ensures
        statement_views(plan@) == plan_of(tables@),
{
    let ghost t = tables@;
    let mut plan: Vec<Statement> = Vec::new();
    plan.push(Statement::DeleteArguments);
    plan.push(Statement::DeleteServices);
    plan.push(Statement::DeletePlaces);
    assert(statement_views(plan@) =~= deletes() + place_inserts(t.places).take(0));
    let mut i: usize = 0;
    while i < tables.places.len()
        invariant
            i <= tables.places.len(),
            t == tables@,
            statement_views(plan@) == deletes() + place_inserts(t.places).take(i as int),
        decreases tables.places.len() - i,
    {
        let ghost before = plan@;
        let row = &tables.places[i];
        plan.push(Statement::InsertPlace(PlaceRow { id: row.id.clone(), name: row.name.clone() }));
        i = i + 1;
        assert(statement_views(plan@) =~= deletes() + place_inserts(t.places).take(i as int)) by {
            assert(statement_views(plan@) =~= statement_views(before).push(plan@.last()@));
        }
    }
    assert(place_inserts(t.places).take(i as int) =~= place_inserts(t.places));
    let ghost head = deletes() + place_inserts(t.places);
    assert(statement_views(plan@) =~= head + service_inserts(t.services).take(0));
    let mut j: usize = 0;
    while j < tables.services.len()
        invariant
            j <= tables.services.len(),
            t == tables@,
            statement_views(plan@) == head + service_inserts(t.services).take(j as int),
        decreases tables.services.len() - j,
    {
        let ghost before = plan@;
        let row = &tables.services[j];
        plan.push(
            Statement::InsertService(
                ServiceRow {
                    id: row.id.clone(),
                    name: row.name.clone(),
                    place_id: row.place_id.clone(),
                },
            ),
        );
        j = j + 1;
        assert(statement_views(plan@) =~= head + service_inserts(t.services).take(j as int)) by {
            assert(statement_views(plan@) =~= statement_views(before).push(plan@.last()@));
        }
    }
    assert(service_inserts(t.services).take(j as int) =~= service_inserts(t.services));
    let ghost body = head + service_inserts(t.services);
    assert(statement_views(plan@) =~= body + argument_inserts(t.arguments).take(0));
    let mut k: usize = 0;
    while k < tables.arguments.len()
        invariant
            k <= tables.arguments.len(),
            t == tables@,
            statement_views(plan@) == body + argument_inserts(t.arguments).take(k as int),
        decreases tables.arguments.len() - k,
    {
        let ghost before = plan@;
        let row = &tables.arguments[k];
        plan.push(
            Statement::InsertArgument(
                ArgumentRow {
                    id: row.id.clone(),
                    name: row.name.clone(),
                    kind: row.kind.clone(),
                    service_id: row.service_id.clone(),
                },
            ),
        );
        k = k + 1;
        assert(statement_views(plan@) =~= body + argument_inserts(t.arguments).take(k as int)) by {
            assert(statement_views(plan@) =~= statement_views(before).push(plan@.last()@));
        }
    }
    assert(argument_inserts(t.arguments).take(k as int) =~= argument_inserts(t.arguments));
    plan
}

/// The statements that replace whatever is stored by `snapshot`.
///
/// Fails with [`SyncError::Validation`] exactly when the snapshot is not
/// [`valid`], so that a malformed snapshot never reaches storage.
pub fn write_plan(snapshot: &Snapshot) -> (r: Result<Vec<Statement>, SyncError>)
    ensures
        match r {
            Ok(plan) => valid(snapshot@) && statement_views(plan@) == plan_spec(snapshot@),
            Err(e) => e == SyncError::Validation && !valid(snapshot@),
        },
{
    let tables = flatten(snapshot);
    if keys_are_valid(&tables) {
        Ok(replacement_plan(&tables))
    } else {
        Err(SyncError::Validation)
    }
}

} // verus!
