//! From the rows of the three tables back to a snapshot.
//!
//! A service is attached to the place that its row names, an argument to
//! the service that its row names; within a parent the children keep the
//! order of their rows. A row that names a parent that is not stored makes
//! the whole reconstruction fail.

use vstd::prelude::*;
use crate::error::SyncError;
use crate::model::{
    argument_views, lemma_argument_views_push, lemma_place_views_push,
    lemma_service_views_push, place_views, service_views, Argument, ArgumentView, Place,
    PlaceView, Service, ServiceView, Snapshot, SnapshotView,
};
use crate::rows::{
    argument_row_views, place_row_views, service_row_views, ArgumentRow, ArgumentRowView,
    PlaceRow, PlaceRowView, ServiceRow, ServiceRowView, Tables, TablesView,
};

verus! {

/// Whether an argument row names the service `service_id` as its parent.
pub open spec fn in_service(service_id: Seq<char>) -> spec_fn(ArgumentRowView) -> bool {
    |r: ArgumentRowView| r.service_id == service_id
}

/// Whether a service row names the place `place_id` as its parent.
pub open spec fn in_place(place_id: Seq<char>) -> spec_fn(ServiceRowView) -> bool {
    |r: ServiceRowView| r.place_id == place_id
}

/// The argument that a row describes.
pub open spec fn argument_of(r: ArgumentRowView) -> ArgumentView {
    ArgumentView { id: r.id, name: r.name, kind: r.kind }
}

/// The arguments of the service `service_id`: those whose rows name it, in
/// the order of the rows.
pub open spec fn arguments_of(rows: Seq<ArgumentRowView>, service_id: Seq<char>) -> Seq<
    ArgumentView,
> {
    let kept = rows.filter(in_service(service_id));
    Seq::new(kept.len(), |i: int| argument_of(kept[i]))
}

/// The service that a row describes, with the arguments that name it.
pub open spec fn service_of(r: ServiceRowView, arguments: Seq<ArgumentRowView>) -> ServiceView {
    ServiceView { id: r.id, name: r.name, arguments: arguments_of(arguments, r.id) }
}

/// The services of the place `place_id`: those whose rows name it, in the
/// order of the rows, each with its arguments.
pub open spec fn services_of(
    rows: Seq<ServiceRowView>,
    arguments: Seq<ArgumentRowView>,
    place_id: Seq<char>,
) -> Seq<ServiceView> {
    let kept = rows.filter(in_place(place_id));
    Seq::new(kept.len(), |i: int| service_of(kept[i], arguments))
}

/// The place that a row describes, with the services that name it.
pub open spec fn place_of(
    r: PlaceRowView,
    services: Seq<ServiceRowView>,
    arguments: Seq<ArgumentRowView>,
) -> PlaceView {
    PlaceView { id: r.id, name: r.name, services: services_of(services, arguments, r.id) }
}

/// The places that the rows of the table of places describe, in order, each
/// with the services that name it.
pub open spec fn places_of(
    rows: Seq<PlaceRowView>,
    services: Seq<ServiceRowView>,
    arguments: Seq<ArgumentRowView>,
) -> Seq<PlaceView> {
    Seq::new(rows.len(), |i: int| place_of(rows[i], services, arguments))
}

/// The snapshot that the tables describe: one place for each row of the
/// table of places, in the order of the rows.
pub open spec fn reconstruct_spec(t: TablesView) -> SnapshotView {
    SnapshotView { places: places_of(t.places, t.services, t.arguments) }
}

/// Whether a place with the identifier `id` is among the rows.
pub open spec fn has_place(rows: Seq<PlaceRowView>, id: Seq<char>) -> bool {
    exists|i: int| 0 <= i < rows.len() && (#[trigger] rows[i]).id == id
}

/// Whether a service with the identifier `id` is among the rows.
pub open spec fn has_service(rows: Seq<ServiceRowView>, id: Seq<char>) -> bool {
    exists|i: int| 0 <= i < rows.len() && (#[trigger] rows[i]).id == id
}

/// Whether every service row names a stored place.
pub open spec fn services_parented(t: TablesView) -> bool {
    forall|i: int|
        0 <= i < t.services.len() ==> has_place(t.places, (#[trigger] t.services[i]).place_id)
}

/// Whether every argument row names a stored service.
pub open spec fn arguments_parented(t: TablesView) -> bool {
    forall|i: int|
        0 <= i < t.arguments.len() ==> has_service(
            t.services,
            (#[trigger] t.arguments[i]).service_id,
        )
}

/// Whether no row names a parent that is not stored.
pub open spec fn well_parented(t: TablesView) -> bool {
    services_parented(t) && arguments_parented(t)
}

/// One more argument row adds its argument to the service that it names
/// and to no other.
pub proof fn lemma_arguments_of_push(
    rows: Seq<ArgumentRowView>,
    row: ArgumentRowView,
    service_id: Seq<char>,
)
    ensures
        arguments_of(rows.push(row), service_id) == if row.service_id == service_id {
            arguments_of(rows, service_id).push(argument_of(row))
        } else {
            arguments_of(rows, service_id)
        },
{
    rows.lemma_filter_push(row, in_service(service_id));
    if row.service_id == service_id {
        assert(arguments_of(rows.push(row), service_id) =~= arguments_of(rows, service_id).push(
            argument_of(row),
        ));
    }
}

/// One more service row adds its service to the place that it names and to
/// no other.
pub proof fn lemma_services_of_push(
    rows: Seq<ServiceRowView>,
    row: ServiceRowView,
    arguments: Seq<ArgumentRowView>,
    place_id: Seq<char>,
)
    ensures
        services_of(rows.push(row), arguments, place_id) == if row.place_id == place_id {
            services_of(rows, arguments, place_id).push(service_of(row, arguments))
        } else {
            services_of(rows, arguments, place_id)
        },
{
    rows.lemma_filter_push(row, in_place(place_id));
    if row.place_id == place_id {
        assert(services_of(rows.push(row), arguments, place_id) =~= services_of(
            rows,
            arguments,
            place_id,
        ).push(service_of(row, arguments)));
    }
}

/// Without rows there are no children.
pub proof fn lemma_children_of_nothing(
    arguments: Seq<ArgumentRowView>,
    service_id: Seq<char>,
    place_id: Seq<char>,
)
    ensures
        arguments_of(Seq::empty(), service_id) == Seq::<ArgumentView>::empty(),
        services_of(Seq::empty(), arguments, place_id) == Seq::<ServiceView>::empty(),
{
    reveal(Seq::filter);
    assert(Seq::<ArgumentRowView>::empty().filter(in_service(service_id)).len() == 0);
    assert(Seq::<ServiceRowView>::empty().filter(in_place(place_id)).len() == 0);
    assert(arguments_of(Seq::empty(), service_id) =~= Seq::<ArgumentView>::empty());
    assert(services_of(Seq::empty(), arguments, place_id) =~= Seq::<ServiceView>::empty());
}

/// The arguments whose rows name the service `service_id`.
fn collect_arguments(rows: &Vec<ArgumentRow>, service_id: &String) -> (out: Vec<Argument>)
    ensures
        argument_views(out@) == arguments_of(argument_row_views(rows@), service_id@),
{
    let ghost all = argument_row_views(rows@);
    let mut out: Vec<Argument> = Vec::new();
    let mut k: usize = 0;
    proof {
        lemma_children_of_nothing(all, service_id@, service_id@);
        assert(all.take(0) =~= Seq::empty());
        assert(argument_views(out@) =~= Seq::empty());
    }
    while k < rows.len()
        invariant
            k <= rows.len(),
            all == argument_row_views(rows@),
            argument_views(out@) == arguments_of(all.take(k as int), service_id@),
        decreases rows.len() - k,
    {
        let row = &rows[k];
        proof {
            assert(all.take(k + 1) =~= all.take(k as int).push(row@));
            lemma_arguments_of_push(all.take(k as int), row@, service_id@);
        }
        if row.service_id == *service_id {
            let argument = Argument {
                id: row.id.clone(),
                name: row.name.clone(),
                kind: row.kind.clone(),
            };
            proof {
                lemma_argument_views_push(out@, argument);
            }
            out.push(argument);
        }
        k = k + 1;
    }
    assert(all.take(k as int) =~= all);
    out
}

/// The services whose rows name the place `place_id`, each with its
/// arguments.
fn collect_services(tables: &Tables, place_id: &String) -> (out: Vec<Service>)
    ensures
        service_views(out@) == services_of(tables@.services, tables@.arguments, place_id@),
{
    let ghost all = tables@.services;
    let mut out: Vec<Service> = Vec::new();
    let mut j: usize = 0;
    proof {
        lemma_children_of_nothing(tables@.arguments, place_id@, place_id@);
        assert(all.take(0) =~= Seq::empty());
        assert(service_views(out@) =~= Seq::empty());
    }
    while j < tables.services.len()
        invariant
            j <= tables.services.len(),
            all == tables@.services,
            service_views(out@) == services_of(all.take(j as int), tables@.arguments, place_id@),
        decreases tables.services.len() - j,
    {
        let row = &tables.services[j];
        proof {
            assert(all.take(j + 1) =~= all.take(j as int).push(row@));
            lemma_services_of_push(all.take(j as int), row@, tables@.arguments, place_id@);
        }
        if row.place_id == *place_id {
            let arguments = collect_arguments(&tables.arguments, &row.id);
            let service = Service { id: row.id.clone(), name: row.name.clone(), arguments };
            proof {
                lemma_service_views_push(out@, service);
            }
            out.push(service);
        }
        j = j + 1;
    }
    assert(all.take(j as int) =~= all);
    out
}

/// Whether a place with the identifier `id` is among the rows.
pub(crate) fn place_is_stored(rows: &Vec<PlaceRow>, id: &String) -> (found: bool)
    ensures
        found == has_place(place_row_views(rows@), id@),
{
    let mut i: usize = 0;
    while i < rows.len()
        invariant
            i <= rows.len(),
            forall|n: int| 0 <= n < i ==> (#[trigger] place_row_views(rows@)[n]).id != id@,
        decreases rows.len() - i,
    {
        if rows[i].id == *id {
            assert(place_row_views(rows@)[i as int].id == id@);
            return true;
        }
        i = i + 1;
    }
    false
}

/// Whether a service with the identifier `id` is among the rows.
pub(crate) fn service_is_stored(rows: &Vec<ServiceRow>, id: &String) -> (found: bool)
    ensures
        found == has_service(service_row_views(rows@), id@),
{
    let mut i: usize = 0;
    while i < rows.len()
        invariant
            i <= rows.len(),
            forall|n: int| 0 <= n < i ==> (#[trigger] service_row_views(rows@)[n]).id != id@,
        decreases rows.len() - i,
    {
        if rows[i].id == *id {
            assert(service_row_views(rows@)[i as int].id == id@);
            return true;
        }
        i = i + 1;
    }
    false
}

/// Whether no row of `tables` names a parent that is not stored.
pub fn is_well_parented(tables: &Tables) -> (ok: bool)
    ensures
        ok == well_parented(tables@),
{
    let mut j: usize = 0;
    while j < tables.services.len()
        invariant
            j <= tables.services.len(),
            forall|n: int|
                0 <= n < j ==> has_place(
                    tables@.places,
                    (#[trigger] tables@.services[n]).place_id,
                ),
        decreases tables.services.len() - j,
    {
        if !place_is_stored(&tables.places, &tables.services[j].place_id) {
            assert(!has_place(tables@.places, tables@.services[j as int].place_id));
            return false;
        }
        j = j + 1;
    }
    let mut k: usize = 0;
    while k < tables.arguments.len()
        invariant
            k <= tables.arguments.len(),
            services_parented(tables@),
            forall|n: int|
                0 <= n < k ==> has_service(
                    tables@.services,
                    (#[trigger] tables@.arguments[n]).service_id,
                ),
        decreases tables.arguments.len() - k,
    {
        if !service_is_stored(&tables.services, &tables.arguments[k].service_id) {
            assert(!has_service(tables@.services, tables@.arguments[k as int].service_id));
            return false;
        }
        k = k + 1;
    }
    true
}

/// The snapshot that `tables` describe.
///
/// Fails with [`SyncError::Consistency`] exactly when some row names a
/// parent that is not stored; no row is ever left out in silence.
pub fn reconstruct(tables: &Tables) -> (r: Result<Snapshot, SyncError>)
    ensures
        match r {
            Ok(s) => well_parented(tables@) && s@ == reconstruct_spec(tables@),
            Err(e) => e == SyncError::Consistency && !well_parented(tables@),
        },
{
    if !is_well_parented(tables) {
        return Err(SyncError::Consistency);
    }
    let ghost t = tables@;
    let mut places: Vec<Place> = Vec::new();
    let mut i: usize = 0;
    assert(place_views(places@) =~= places_of(t.places, t.services, t.arguments).take(0));
    while i < tables.places.len()
        invariant
            i <= tables.places.len(),
            t == tables@,
            place_views(places@) == places_of(t.places, t.services, t.arguments).take(i as int),
        decreases tables.places.len() - i,
    {
        let row = &tables.places[i];
        let services = collect_services(tables, &row.id);
        let place = Place { id: row.id.clone(), name: row.name.clone(), services };
        proof {
            assert(place@ == places_of(t.places, t.services, t.arguments)[i as int]);
            lemma_place_views_push(places@, place);
        }
        places.push(place);
        i = i + 1;
        assert(place_views(places@) =~= places_of(t.places, t.services, t.arguments).take(
            i as int,
        ));
    }
    assert(places_of(t.places, t.services, t.arguments).take(i as int) =~= places_of(
        t.places,
        t.services,
        t.arguments,
    ));
    Ok(Snapshot { places })
}

} // verus!
