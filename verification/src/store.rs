//! A store held in memory that keeps the three tables under the rules of
//! their schema: an identifier is the key of its table, a child row names a
//! stored parent, and a transaction takes effect as a whole or not at all.
//!
//! It states what the statements of a plan do to stored data.

use vstd::prelude::*;
use crate::error::SyncError;
use crate::plan::{statement_views, Statement, StatementView};
use crate::reconstruct::{has_place, has_service, place_is_stored, service_is_stored};
use crate::rows::{
    argument_row_views, lemma_argument_row_views_push, lemma_place_row_views_push,
    lemma_service_row_views_push, place_row_views, service_row_views, ArgumentRow,
    ArgumentRowView, PlaceRow, ServiceRow, Tables, TablesView,
};
use crate::transaction::Action;

verus! {

/// Whether an argument with the identifier `id` is among the rows.
pub open spec fn has_argument(rows: Seq<ArgumentRowView>, id: Seq<char>) -> bool {
    exists|i: int| 0 <= i < rows.len() && (#[trigger] rows[i]).id == id
}

/// Whether some argument row names a stored service.
pub open spec fn services_in_use(t: TablesView) -> bool {
    exists|i: int|
        0 <= i < t.arguments.len() && has_service(
            t.services,
            (#[trigger] t.arguments[i]).service_id,
        )
}

/// Whether some service row names a stored place.
pub open spec fn places_in_use(t: TablesView) -> bool {
    exists|i: int|
        0 <= i < t.services.len() && has_place(t.places, (#[trigger] t.services[i]).place_id)
}

/// The tables after `stmt`, or `None` where the schema refuses it: a
/// deletion that would leave a child without its parent, an insertion of
/// an identifier that its table already holds, or of a child whose parent
/// is not stored.
pub open spec fn apply_spec(t: TablesView, stmt: StatementView) -> Option<TablesView> {
    match stmt {
        StatementView::DeleteArguments => Some(TablesView { arguments: Seq::empty(), ..t }),
        StatementView::DeleteServices => if services_in_use(t) {
            None
        } else {
            Some(TablesView { services: Seq::empty(), ..t })
        },
        StatementView::DeletePlaces => if places_in_use(t) {
            None
        } else {
            Some(TablesView { places: Seq::empty(), ..t })
        },
        StatementView::InsertPlace(r) => if has_place(t.places, r.id) {
            None
        } else {
            Some(TablesView { places: t.places.push(r), ..t })
        },
        StatementView::InsertService(r) => if has_service(t.services, r.id) || !has_place(
            t.places,
            r.place_id,
        ) {
            None
        } else {
            Some(TablesView { services: t.services.push(r), ..t })
        },
        StatementView::InsertArgument(r) => if has_argument(t.arguments, r.id) || !has_service(
            t.services,
            r.service_id,
        ) {
            None
        } else {
            Some(TablesView { arguments: t.arguments.push(r), ..t })
        },
    }
}

/// The tables after the statements, one after another, or `None` where
/// one of them is refused.
pub open spec fn run_spec(t: TablesView, stmts: Seq<StatementView>) -> Option<TablesView>
    decreases stmts.len(),
{
    if stmts.len() == 0 {
        Some(t)
    } else {
        match run_spec(t, stmts.drop_last()) {
            Some(u) => apply_spec(u, stmts.last()),
            None => None,
        }
    }
}

/// What a [`MemoryStore`] stands for: the tables that readers see, and the
/// tables of the open transaction where there is one.
pub struct StoreView {
    pub committed: TablesView,
    pub working: Option<TablesView>,
}

/// The store after `action` and how the action went. `Step(i)` runs the
/// statement `plan[i]` on the tables of the open transaction.
pub open spec fn perform_spec(store: StoreView, plan: Seq<StatementView>, action: Action) -> (
    StoreView,
    Result<(), SyncError>,
) {
    match action {
        Action::Begin => match store.working {
            None => (StoreView { working: Some(store.committed), ..store }, Ok(())),
            Some(_) => (store, Err(SyncError::Storage)),
        },
        Action::Step(i) => match store.working {
            Some(w) => if i < plan.len() {
                match apply_spec(w, plan[i as int]) {
                    Some(u) => (StoreView { working: Some(u), ..store }, Ok(())),
                    None => (store, Err(SyncError::Validation)),
                }
            } else {
                (store, Err(SyncError::Storage))
            },
            None => (store, Err(SyncError::Storage)),
        },
        Action::Commit => match store.working {
            Some(w) => (StoreView { committed: w, working: None }, Ok(())),
            None => (store, Err(SyncError::Storage)),
        },
        Action::Rollback => (StoreView { working: None, ..store }, Ok(())),
        Action::Finish(_) => (store, Ok(())),
    }
}

/// The three tables in memory, with at most one open transaction.
#[derive(Clone, Debug, PartialEq, Eq)]
pub struct MemoryStore {
    /// The tables that readers see.
    pub committed: Tables,
    /// The tables of the open transaction.
    pub working: Option<Tables>,
}

impl View for MemoryStore {
    type V = StoreView;

    open spec fn view(&self) -> StoreView {
        StoreView {
            committed: self.committed@,
            working: match self.working {
                Some(w) => Some(w@),
                None => None,
            },
        }
    }
}

/// A copy of the rows.
fn copy_places(rows: &Vec<PlaceRow>) -> (out: Vec<PlaceRow>)
    ensures
        place_row_views(out@) == place_row_views(rows@),
{
    let mut out: Vec<PlaceRow> = Vec::new();
    let mut i: usize = 0;
    assert(place_row_views(out@) =~= place_row_views(rows@).take(0));
    while i < rows.len()
        invariant
            i <= rows.len(),
            place_row_views(out@) == place_row_views(rows@).take(i as int),
        decreases rows.len() - i,
    {
        let row = PlaceRow { id: rows[i].id.clone(), name: rows[i].name.clone() };
        proof {
            lemma_place_row_views_push(out@, row);
        }
        out.push(row);
        i = i + 1;
        assert(place_row_views(out@) =~= place_row_views(rows@).take(i as int));
    }
    assert(place_row_views(rows@).take(i as int) =~= place_row_views(rows@));
    out
}

/// A copy of the rows.
fn copy_services(rows: &Vec<ServiceRow>) -> (out: Vec<ServiceRow>)
    ensures
        service_row_views(out@) == service_row_views(rows@),
{
    let mut out: Vec<ServiceRow> = Vec::new();
    let mut i: usize = 0;
    assert(service_row_views(out@) =~= service_row_views(rows@).take(0));
    while i < rows.len()
        invariant
            i <= rows.len(),
            service_row_views(out@) == service_row_views(rows@).take(i as int),
        decreases rows.len() - i,
    {
        let row = ServiceRow {
            id: rows[i].id.clone(),
            name: rows[i].name.clone(),
            place_id: rows[i].place_id.clone(),
        };
        proof {
            lemma_service_row_views_push(out@, row);
        }
        out.push(row);
        i = i + 1;
        assert(service_row_views(out@) =~= service_row_views(rows@).take(i as int));
    }
    assert(service_row_views(rows@).take(i as int) =~= service_row_views(rows@));
    out
}

/// A copy of the rows.
fn copy_arguments(rows: &Vec<ArgumentRow>) -> (out: Vec<ArgumentRow>)
    ensures
        argument_row_views(out@) == argument_row_views(rows@),
{
    let mut out: Vec<ArgumentRow> = Vec::new();
    let mut i: usize = 0;
    assert(argument_row_views(out@) =~= argument_row_views(rows@).take(0));
    while i < rows.len()
        invariant
            i <= rows.len(),
            argument_row_views(out@) == argument_row_views(rows@).take(i as int),
        decreases rows.len() - i,
    {
        let row = ArgumentRow {
            id: rows[i].id.clone(),
            name: rows[i].name.clone(),
            kind: rows[i].kind.clone(),
            service_id: rows[i].service_id.clone(),
        };
        proof {
            lemma_argument_row_views_push(out@, row);
        }
        out.push(row);
        i = i + 1;
        assert(argument_row_views(out@) =~= argument_row_views(rows@).take(i as int));
    }
    assert(argument_row_views(rows@).take(i as int) =~= argument_row_views(rows@));
    out
}

/// A copy of the tables.
pub fn copy_tables(tables: &Tables) -> (out: Tables)
    ensures
        out@ == tables@,
{
    Tables {
        places: copy_places(&tables.places),
        services: copy_services(&tables.services),
        arguments: copy_arguments(&tables.arguments),
    }
}

/// Whether an argument with the identifier `id` is among the rows.
fn argument_is_stored(rows: &Vec<ArgumentRow>, id: &String) -> (found: bool)
    ensures
        found == has_argument(argument_row_views(rows@), id@),
{
    let mut i: usize = 0;
    while i < rows.len()
        invariant
            i <= rows.len(),
            forall|n: int| 0 <= n < i ==> (#[trigger] argument_row_views(rows@)[n]).id != id@,
        decreases rows.len() - i,
    {
        if rows[i].id == *id {
            assert(argument_row_views(rows@)[i as int].id == id@);
            return true;
        }
        i = i + 1;
    }
    false
}

/// Whether some argument row names a stored service.
fn any_service_in_use(tables: &Tables) -> (used: bool)
    ensures
        used == services_in_use(tables@),
{
    let mut k: usize = 0;
    while k < tables.arguments.len()
        invariant
            k <= tables.arguments.len(),
            forall|n: int|
                0 <= n < k ==> !has_service(
                    tables@.services,
                    (#[trigger] tables@.arguments[n]).service_id,
                ),
        decreases tables.arguments.len() - k,
    {
        if service_is_stored(&tables.services, &tables.arguments[k].service_id) {
            assert(has_service(tables@.services, tables@.arguments[k as int].service_id));
            return true;
        }
        k = k + 1;
    }
    false
}

/// Whether some service row names a stored place.
fn any_place_in_use(tables: &Tables) -> (used: bool)
    ensures
        used == places_in_use(tables@),
{
    let mut j: usize = 0;
    while j < tables.services.len()
        invariant
            j <= tables.services.len(),
            forall|n: int|
                0 <= n < j ==> !has_place(
                    tables@.places,
                    (#[trigger] tables@.services[n]).place_id,
                ),
        decreases tables.services.len() - j,
    {
        if place_is_stored(&tables.places, &tables.services[j].place_id) {
            assert(has_place(tables@.places, tables@.services[j as int].place_id));
            return true;
        }
        j = j + 1;
    }
    false
}

/// Runs `stmt` on `tables`. Returns whether the schema accepted it; a
/// statement that is refused changes nothing.
pub fn apply(tables: &mut Tables, stmt: &Statement) -> (ok: bool)
    ensures
        match apply_spec(old(tables)@, stmt@) {
            Some(t) => ok && final(tables)@ == t,
            None => !ok && final(tables)@ == old(tables)@,
        },
{
    match stmt {
        Statement::DeleteArguments => {
            tables.arguments = Vec::new();
            assert(tables@.arguments =~= Seq::empty());
            true
        },
        Statement::DeleteServices => {
            if any_service_in_use(tables) {
                false
            } else {
                tables.services = Vec::new();
                assert(tables@.services =~= Seq::empty());
                true
            }
        },
        Statement::DeletePlaces => {
            if any_place_in_use(tables) {
                false
            } else {
                tables.places = Vec::new();
                assert(tables@.places =~= Seq::empty());
                true
            }
        },
        Statement::InsertPlace(r) => {
            if place_is_stored(&tables.places, &r.id) {
                false
            } else {
                let row = PlaceRow { id: r.id.clone(), name: r.name.clone() };
                proof {
                    lemma_place_row_views_push(tables.places@, row);
                }
                tables.places.push(row);
                true
            }
        },
        Statement::InsertService(r) => {
            if service_is_stored(&tables.services, &r.id) || !place_is_stored(
                &tables.places,
                &r.place_id,
            ) {
                false
            } else {
                let row = ServiceRow {
                    id: r.id.clone(),
                    name: r.name.clone(),
                    place_id: r.place_id.clone(),
                };
                proof {
                    lemma_service_row_views_push(tables.services@, row);
                }
                tables.services.push(row);
                true
            }
        },
        Statement::InsertArgument(r) => {
            if argument_is_stored(&tables.arguments, &r.id) || !service_is_stored(
                &tables.services,
                &r.service_id,
            ) {
                false
            } else {
                let row = ArgumentRow {
                    id: r.id.clone(),
                    name: r.name.clone(),
                    kind: r.kind.clone(),
                    service_id: r.service_id.clone(),
                };
                proof {
                    lemma_argument_row_views_push(tables.arguments@, row);
                }
                tables.arguments.push(row);
                true
            }
        },
    }
}

impl MemoryStore {
    /// A store without a row and without an open transaction.
    pub fn new() -> (store: MemoryStore)
        ensures
            store@ == (StoreView { committed: TablesView::empty(), working: None }),
    {
        MemoryStore { committed: Tables::new(), working: None }
    }

    /// Performs `action`, where `Step(i)` runs `plan[i]`, and says how it
    /// went. Outside a transaction nothing but `Begin` is accepted, and
    /// nothing that is refused has an effect.
    pub fn perform(&mut self, plan: &Vec<Statement>, action: Action) -> (reply: Result<
        (),
        SyncError,
    >)
        ensures
            (final(self)@, reply) == perform_spec(old(self)@, statement_views(plan@), action),
    {
        match action {
            Action::Begin => {
                if self.working.is_some() {
                    Err(SyncError::Storage)
                } else {
                    self.working = Some(copy_tables(&self.committed));
                    Ok(())
                }
            },
            Action::Step(i) => {
                if i >= plan.len() {
                    return Err(SyncError::Storage);
                }
                match self.working.take() {
                    Some(mut w) => {
                        let ok = apply(&mut w, &plan[i]);
                        self.working = Some(w);
                        if ok {
                            Ok(())
                        } else {
                            Err(SyncError::Validation)
                        }
                    },
                    None => Err(SyncError::Storage),
                }
            },
            Action::Commit => {
                match self.working.take() {
                    Some(w) => {
                        self.committed = w;
                        Ok(())
                    },
                    None => Err(SyncError::Storage),
                }
            },
            Action::Rollback => {
                self.working = None;
                Ok(())
            },
            Action::Finish(_) => Ok(()),
        }
    }
}

} // verus!
