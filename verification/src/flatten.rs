//! From a snapshot to the rows that describe it.
//!
//! Every row carries the identifier of its parent, and within each table
//! the rows of a parent come before those of the parents that follow it.

use vstd::prelude::*;
use crate::model::{ArgumentView, Place, PlaceView, Service, ServiceView, Snapshot, SnapshotView};
use crate::rows::{
    argument_row_views, lemma_argument_row_views_push, lemma_place_row_views_push,
    lemma_service_row_views_push, place_row_views, service_row_views, ArgumentRow,
    ArgumentRowView, PlaceRow, PlaceRowView, ServiceRow, ServiceRowView, Tables, TablesView,
};

verus! {

/// The row that describes the place `p`.
pub open spec fn place_row_of(p: PlaceView) -> PlaceRowView {
    PlaceRowView { id: p.id, name: p.name }
}

/// The row that describes the service `s` of the place named `place_id`.
pub open spec fn service_row_of(s: ServiceView, place_id: Seq<char>) -> ServiceRowView {
    ServiceRowView { id: s.id, name: s.name, place_id }
}

/// The row that describes the argument `a` of the service named `service_id`.
pub open spec fn argument_row_of(a: ArgumentView, service_id: Seq<char>) -> ArgumentRowView {
    ArgumentRowView { id: a.id, name: a.name, kind: a.kind, service_id }
}

/// The rows of the places, in order.
pub open spec fn place_rows(places: Seq<PlaceView>) -> Seq<PlaceRowView> {
    Seq::new(places.len(), |i: int| place_row_of(places[i]))
}

/// The rows of the services of one place, in order.
pub open spec fn service_rows_of(p: PlaceView) -> Seq<ServiceRowView> {
    Seq::new(p.services.len(), |i: int| service_row_of(p.services[i], p.id))
}

/// The rows of the arguments of one service, in order.
pub open spec fn argument_rows_of(s: ServiceView) -> Seq<ArgumentRowView> {
    Seq::new(s.arguments.len(), |i: int| argument_row_of(s.arguments[i], s.id))
}

/// The rows of the services of all the places, place after place.
pub open spec fn service_rows(places: Seq<PlaceView>) -> Seq<ServiceRowView>
    decreases places.len(),
{
    if places.len() == 0 {
        Seq::empty()
    } else {
        service_rows(places.drop_last()) + service_rows_of(places.last())
    }
}

/// The rows of the arguments of the given services, service after service.
pub open spec fn argument_rows_under(services: Seq<ServiceView>) -> Seq<ArgumentRowView>
    decreases services.len(),
{
    if services.len() == 0 {
        Seq::empty()
    } else {
        argument_rows_under(services.drop_last()) + argument_rows_of(services.last())
    }
}

/// The rows of the arguments of all the places, place after place.
pub open spec fn argument_rows(places: Seq<PlaceView>) -> Seq<ArgumentRowView>
    decreases places.len(),
{
    if places.len() == 0 {
        Seq::empty()
    } else {
        argument_rows(places.drop_last()) + argument_rows_under(places.last().services)
    }
}

/// The three tables that describe the snapshot `s`.
pub open spec fn flatten_spec(s: SnapshotView) -> TablesView {
    TablesView {
        places: place_rows(s.places),
        services: service_rows(s.places),
        arguments: argument_rows(s.places),
    }
}

/// Appends the rows of the arguments of `service` to `out`.
fn push_argument_rows(service: &Service, out: &mut Vec<ArgumentRow>)
    ensures
        argument_row_views(final(out)@) == argument_row_views(old(out)@) + argument_rows_of(
            service@,
        ),
{
    let ghost before = argument_row_views(out@);
    let mut k: usize = 0;
    while k < service.arguments.len()
        invariant
            k <= service.arguments.len(),
            argument_row_views(out@) == before + argument_rows_of(service@).take(k as int),
        decreases service.arguments.len() - k,
    {
        let argument = &service.arguments[k];
        let row = ArgumentRow {
            id: argument.id.clone(),
            name: argument.name.clone(),
            kind: argument.kind.clone(),
            service_id: service.id.clone(),
        };
        assert(row@ == argument_rows_of(service@)[k as int]);
        proof {
            lemma_argument_row_views_push(out@, row);
        }
        out.push(row);
        k = k + 1;
        assert(argument_row_views(out@) =~= before + argument_rows_of(service@).take(k as int));
    }
    assert(argument_rows_of(service@).take(k as int) =~= argument_rows_of(service@));
}

/// Appends the rows of the services of `place` to `services`, and the rows
/// of their arguments to `arguments`.
fn push_service_rows(place: &Place, services: &mut Vec<ServiceRow>, arguments: &mut Vec<ArgumentRow>)
    ensures
        service_row_views(final(services)@) == service_row_views(old(services)@)
            + service_rows_of(place@),
        argument_row_views(final(arguments)@) == argument_row_views(old(arguments)@)
            + argument_rows_under(place@.services),
{
    let ghost services_before = service_row_views(services@);
    let ghost arguments_before = argument_row_views(arguments@);
    let mut j: usize = 0;
    assert(argument_rows_under(place@.services.take(0)) =~= Seq::empty());
    while j < place.services.len()
        invariant
            j <= place.services.len(),
            service_row_views(services@) == services_before + service_rows_of(place@).take(
                j as int,
            ),
            argument_row_views(arguments@) == arguments_before + argument_rows_under(
                place@.services.take(j as int),
            ),
        decreases place.services.len() - j,
    {
        let service = &place.services[j];
        let row = ServiceRow {
            id: service.id.clone(),
            name: service.name.clone(),
            place_id: place.id.clone(),
        };
        assert(row@ == service_rows_of(place@)[j as int]);
        proof {
            lemma_service_row_views_push(services@, row);
        }
        services.push(row);
        push_argument_rows(service, arguments);
        proof {
            let next = place@.services.take(j + 1);
            assert(next.drop_last() =~= place@.services.take(j as int));
            assert(next.last() == service@);
        }
        j = j + 1;
        assert(service_row_views(services@) =~= services_before + service_rows_of(place@).take(
            j as int,
        ));
        assert(argument_row_views(arguments@) =~= arguments_before + argument_rows_under(
            place@.services.take(j as int),
        ));
    }
    assert(service_rows_of(place@).take(j as int) =~= service_rows_of(place@));
    assert(place@.services.take(j as int) =~= place@.services);
}

/// The three tables that describe `snapshot`: one row for each place,
/// service and argument, each child row naming its parent.
pub fn flatten(snapshot: &Snapshot) -> (t: Tables)
    ensures
        t@ == flatten_spec(snapshot@),
{
    let mut places: Vec<PlaceRow> = Vec::new();
    let mut services: Vec<ServiceRow> = Vec::new();
    let mut arguments: Vec<ArgumentRow> = Vec::new();
    let mut i: usize = 0;
    assert(place_row_views(places@) =~= place_rows(snapshot@.places).take(0));
    assert(service_row_views(services@) =~= service_rows(snapshot@.places.take(0)));
    assert(argument_row_views(arguments@) =~= argument_rows(snapshot@.places.take(0)));
    while i < snapshot.places.len()
        invariant
            i <= snapshot.places.len(),
            place_row_views(places@) == place_rows(snapshot@.places).take(i as int),
            service_row_views(services@) == service_rows(snapshot@.places.take(i as int)),
            argument_row_views(arguments@) == argument_rows(snapshot@.places.take(i as int)),
        decreases snapshot.places.len() - i,
    {
        let place = &snapshot.places[i];
        let row = PlaceRow { id: place.id.clone(), name: place.name.clone() };
        assert(row@ == place_rows(snapshot@.places)[i as int]);
        proof {
            lemma_place_row_views_push(places@, row);
        }
        places.push(row);
        push_service_rows(place, &mut services, &mut arguments);
        proof {
            let next = snapshot@.places.take(i + 1);
            assert(next.drop_last() =~= snapshot@.places.take(i as int));
            assert(next.last() == place@);
        }
        i = i + 1;
        assert(place_row_views(places@) =~= place_rows(snapshot@.places).take(i as int));
    }
    assert(place_rows(snapshot@.places).take(i as int) =~= place_rows(snapshot@.places));
    assert(snapshot@.places.take(i as int) =~= snapshot@.places);
    Tables { places, services, arguments }
}

} // verus!
