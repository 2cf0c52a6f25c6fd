//! How the rows of a snapshot lie in its tables, and why its tables give
//! the snapshot back.

use vstd::prelude::*;
use crate::flatten::{
    argument_row_of, argument_rows, argument_rows_of, argument_rows_under, flatten_spec,
    service_row_of, service_rows, service_rows_of,
};
use crate::model::{PlaceView, ServiceView, SnapshotView};
use crate::reconstruct::{
    arguments_of, has_place, has_service, in_place, in_service, reconstruct_spec, services_of,
    well_parented,
};
use crate::rows::{ArgumentRowView, ServiceRowView};
use crate::validate::{place_ids, service_ids};

verus! {

/// A filter keeps a sequence whole where every element passes.
pub proof fn lemma_filter_keeps_all<A>(s: Seq<A>, pred: spec_fn(A) -> bool)
    requires
        forall|i: int| 0 <= i < s.len() ==> pred(#[trigger] s[i]),
    ensures
        s.filter(pred) == s,
    decreases s.len(),
{
    reveal(Seq::filter);
    if s.len() > 0 {
        lemma_filter_keeps_all(s.drop_last(), pred);
        assert(s.drop_last().push(s.last()) =~= s);
    }
}

/// A filter leaves nothing where no element passes.
pub proof fn lemma_filter_keeps_none<A>(s: Seq<A>, pred: spec_fn(A) -> bool)
    requires
        forall|i: int| 0 <= i < s.len() ==> !pred(#[trigger] s[i]),
    ensures
        s.filter(pred) == Seq::<A>::empty(),
    decreases s.len(),
{
    reveal(Seq::filter);
    if s.len() > 0 {
        lemma_filter_keeps_none(s.drop_last(), pred);
    }
}

/// Every service row of a snapshot is the row of a service of one of its
/// places.
pub proof fn lemma_service_row_origin(places: Seq<PlaceView>, k: int) -> (w: (int, int))
    requires
        0 <= k < service_rows(places).len(),
    ensures
        0 <= w.0 < places.len(),
        0 <= w.1 < places[w.0].services.len(),
        service_rows(places)[k] == service_row_of(places[w.0].services[w.1], places[w.0].id),
    decreases places.len(),
{
    let front = places.drop_last();
    if k < service_rows(front).len() {
        lemma_service_row_origin(front, k)
    } else {
        (places.len() - 1, k - service_rows(front).len())
    }
}

/// Every service of a snapshot has its row among the service rows.
pub proof fn lemma_service_row_position(places: Seq<PlaceView>, i: int, j: int) -> (k: int)
    requires
        0 <= i < places.len(),
        0 <= j < places[i].services.len(),
    ensures
        0 <= k < service_rows(places).len(),
        service_rows(places)[k] == service_row_of(places[i].services[j], places[i].id),
        i < places.len() - 1 ==> k < service_rows(places.drop_last()).len(),
        i == places.len() - 1 ==> k == service_rows(places.drop_last()).len() + j,
    decreases places.len(),
{
    let front = places.drop_last();
    if i < places.len() - 1 {
        lemma_service_row_position(front, i, j)
    } else {
        service_rows(front).len() + j
    }
}

/// Every argument row under some services is the row of an argument of
/// one of them.
pub proof fn lemma_argument_row_origin_under(services: Seq<ServiceView>, k: int) -> (w: (
    int,
    int,
))
    requires
        0 <= k < argument_rows_under(services).len(),
    ensures
        0 <= w.0 < services.len(),
        0 <= w.1 < services[w.0].arguments.len(),
        argument_rows_under(services)[k] == argument_row_of(
            services[w.0].arguments[w.1],
            services[w.0].id,
        ),
    decreases services.len(),
{
    let front = services.drop_last();
    if k < argument_rows_under(front).len() {
        lemma_argument_row_origin_under(front, k)
    } else {
        (services.len() - 1, k - argument_rows_under(front).len())
    }
}

/// Every argument row of a snapshot is the row of an argument of a service
/// of one of its places.
pub proof fn lemma_argument_row_origin(places: Seq<PlaceView>, k: int) -> (w: (int, int, int))
    requires
        0 <= k < argument_rows(places).len(),
    ensures
        0 <= w.0 < places.len(),
        0 <= w.1 < places[w.0].services.len(),
        0 <= w.2 < places[w.0].services[w.1].arguments.len(),
        argument_rows(places)[k] == argument_row_of(
            places[w.0].services[w.1].arguments[w.2],
            places[w.0].services[w.1].id,
        ),
    decreases places.len(),
{
    let front = places.drop_last();
    if k < argument_rows(front).len() {
        lemma_argument_row_origin(front, k)
    } else {
        let inner = lemma_argument_row_origin_under(
            places.last().services,
            k - argument_rows(front).len(),
        );
        (places.len() - 1, inner.0, inner.1)
    }
}

/// In the tables of a snapshot every row names a parent that is among
/// them: nesting leaves no child without its parent.
pub proof fn lemma_flatten_well_parented(s: SnapshotView)
    ensures
        well_parented(flatten_spec(s)),
{
    let t = flatten_spec(s);
    assert forall|k: int| 0 <= k < t.services.len() implies has_place(
        t.places,
        (#[trigger] t.services[k]).place_id,
    ) by {
        let w = lemma_service_row_origin(s.places, k);
        assert(t.places[w.0].id == t.services[k].place_id);
    }
    assert forall|k: int| 0 <= k < t.arguments.len() implies has_service(
        t.services,
        (#[trigger] t.arguments[k]).service_id,
    ) by {
        let w = lemma_argument_row_origin(s.places, k);
        let n = lemma_service_row_position(s.places, w.0, w.1);
        assert(t.services[n].id == t.arguments[k].service_id);
    }
}

/// Among the service rows of one place, those that name the place
/// `place_id` are all of them or none.
pub proof fn lemma_own_service_rows(p: PlaceView, place_id: Seq<char>)
    ensures
        service_rows_of(p).filter(in_place(place_id)) == if p.id == place_id {
            service_rows_of(p)
        } else {
            Seq::<ServiceRowView>::empty()
        },
{
    if p.id == place_id {
        lemma_filter_keeps_all(service_rows_of(p), in_place(place_id));
    } else {
        lemma_filter_keeps_none(service_rows_of(p), in_place(place_id));
    }
}

/// Among the argument rows of one service, those that name the service
/// `service_id` are all of them or none.
pub proof fn lemma_own_argument_rows(s: ServiceView, service_id: Seq<char>)
    ensures
        argument_rows_of(s).filter(in_service(service_id)) == if s.id == service_id {
            argument_rows_of(s)
        } else {
            Seq::<ArgumentRowView>::empty()
        },
{
    if s.id == service_id {
        lemma_filter_keeps_all(argument_rows_of(s), in_service(service_id));
    } else {
        lemma_filter_keeps_none(argument_rows_of(s), in_service(service_id));
    }
}

/// No service row names a place that is not among the places.
pub proof fn lemma_foreign_place(places: Seq<PlaceView>, place_id: Seq<char>)
    requires
        forall|i: int| 0 <= i < places.len() ==> (#[trigger] places[i]).id != place_id,
    ensures
        service_rows(places).filter(in_place(place_id)) == Seq::<ServiceRowView>::empty(),
    decreases places.len(),
{
    if places.len() == 0 {
        lemma_filter_keeps_none(service_rows(places), in_place(place_id));
    } else {
        let front = places.drop_last();
        assert forall|i: int| 0 <= i < front.len() implies (#[trigger] front[i]).id
            != place_id by {
            assert(front[i] == places[i]);
        }
        lemma_foreign_place(front, place_id);
        lemma_own_service_rows(places.last(), place_id);
        Seq::filter_distributes_over_add(
            service_rows(front),
            service_rows_of(places.last()),
            in_place(place_id),
        );
    }
}

/// Where no two places share an identifier, the service rows that name a
/// place are the rows of its own services, in their order.
pub proof fn lemma_service_rows_of_place(places: Seq<PlaceView>, i: int)
    requires
        0 <= i < places.len(),
        forall|a: int, b: int|
            0 <= a < b < places.len() ==> (#[trigger] places[a]).id != (#[trigger] places[b]).id,
    ensures
        service_rows(places).filter(in_place(places[i].id)) == service_rows_of(places[i]),
    decreases places.len(),
{
    let front = places.drop_last();
    let place_id = places[i].id;
    assert forall|a: int, b: int| 0 <= a < b < front.len() implies (#[trigger] front[a]).id != (
    #[trigger] front[b]).id by {
        assert(front[a] == places[a] && front[b] == places[b]);
    }
    lemma_own_service_rows(places.last(), place_id);
    Seq::filter_distributes_over_add(
        service_rows(front),
        service_rows_of(places.last()),
        in_place(place_id),
    );
    if i == places.len() - 1 {
        assert forall|a: int| 0 <= a < front.len() implies (#[trigger] front[a]).id
            != place_id by {
            assert(front[a] == places[a]);
        }
        lemma_foreign_place(front, place_id);
    } else {
        assert(front[i] == places[i]);
        lemma_service_rows_of_place(front, i);
    }
}

/// No argument row under some services names a service that is not among
/// them.
pub proof fn lemma_foreign_service_under(services: Seq<ServiceView>, service_id: Seq<char>)
    requires
        forall|j: int| 0 <= j < services.len() ==> (#[trigger] services[j]).id != service_id,
    ensures
        argument_rows_under(services).filter(in_service(service_id)) == Seq::<
            ArgumentRowView,
        >::empty(),
    decreases services.len(),
{
    if services.len() == 0 {
        lemma_filter_keeps_none(argument_rows_under(services), in_service(service_id));
    } else {
        let front = services.drop_last();
        assert forall|j: int| 0 <= j < front.len() implies (#[trigger] front[j]).id
            != service_id by {
            assert(front[j] == services[j]);
        }
        lemma_foreign_service_under(front, service_id);
        lemma_own_argument_rows(services.last(), service_id);
        Seq::filter_distributes_over_add(
            argument_rows_under(front),
            argument_rows_of(services.last()),
            in_service(service_id),
        );
    }
}

/// Where no two of some services share an identifier, the argument rows
/// under them that name one of them are the rows of its own arguments.
pub proof fn lemma_argument_rows_of_service_under(services: Seq<ServiceView>, j: int)
    requires
        0 <= j < services.len(),
        forall|a: int, b: int|
            0 <= a < b < services.len() ==> (#[trigger] services[a]).id != (
            #[trigger] services[b]).id,
    ensures
        argument_rows_under(services).filter(in_service(services[j].id)) == argument_rows_of(
            services[j],
        ),
    decreases services.len(),
{
    let front = services.drop_last();
    let service_id = services[j].id;
    assert forall|a: int, b: int| 0 <= a < b < front.len() implies (#[trigger] front[a]).id != (
    #[trigger] front[b]).id by {
        assert(front[a] == services[a] && front[b] == services[b]);
    }
    lemma_own_argument_rows(services.last(), service_id);
    Seq::filter_distributes_over_add(
        argument_rows_under(front),
        argument_rows_of(services.last()),
        in_service(service_id),
    );
    if j == services.len() - 1 {
        assert forall|a: int| 0 <= a < front.len() implies (#[trigger] front[a]).id
            != service_id by {
            assert(front[a] == services[a]);
        }
        lemma_foreign_service_under(front, service_id);
    } else {
        assert(front[j] == services[j]);
        lemma_argument_rows_of_service_under(front, j);
    }
}

/// No argument row of a snapshot names a service that is not in it.
pub proof fn lemma_foreign_service(places: Seq<PlaceView>, service_id: Seq<char>)
    requires
        forall|i: int, j: int|
            0 <= i < places.len() && 0 <= j < places[i].services.len()
                ==> (#[trigger] places[i].services[j]).id != service_id,
    ensures
        argument_rows(places).filter(in_service(service_id)) == Seq::<ArgumentRowView>::empty(),
    decreases places.len(),
{
    if places.len() == 0 {
        lemma_filter_keeps_none(argument_rows(places), in_service(service_id));
    } else {
        let front = places.drop_last();
        let last = places.last();
        assert forall|i: int, j: int|
            0 <= i < front.len() && 0 <= j < front[i].services.len() implies (
        #[trigger] front[i].services[j]).id != service_id by {
            assert(front[i] == places[i]);
        }
        lemma_foreign_service(front, service_id);
        assert forall|j: int| 0 <= j < last.services.len() implies (
        #[trigger] last.services[j]).id != service_id by {
            assert(last == places[places.len() - 1]);
        }
        lemma_foreign_service_under(last.services, service_id);
        Seq::filter_distributes_over_add(
            argument_rows(front),
            argument_rows_under(last.services),
            in_service(service_id),
        );
    }
}

/// The identifiers of the service rows of a snapshot, in order.
pub open spec fn all_service_ids(places: Seq<PlaceView>) -> Seq<Seq<char>> {
    Seq::new(service_rows(places).len(), |k: int| service_rows(places)[k].id)
}

/// Where no two services of a snapshot share an identifier, the argument
/// rows that name a service are the rows of its own arguments, in their
/// order.
pub proof fn lemma_argument_rows_of_service(places: Seq<PlaceView>, i: int, j: int)
    requires
        0 <= i < places.len(),
        0 <= j < places[i].services.len(),
        all_service_ids(places).no_duplicates(),
    ensures
        argument_rows(places).filter(in_service(places[i].services[j].id)) == argument_rows_of(
            places[i].services[j],
        ),
    decreases places.len(),
{
    let front = places.drop_last();
    let last = places.last();
    let service_id = places[i].services[j].id;
    let ids = all_service_ids(places);
    let offset = service_rows(front).len() as int;
    Seq::filter_distributes_over_add(
        argument_rows(front),
        argument_rows_under(last.services),
        in_service(service_id),
    );
    let k = lemma_service_row_position(places, i, j);
    assert(ids[k] == service_id);
    if i == places.len() - 1 {
        assert forall|a: int, b: int| 0 <= a < b < last.services.len() implies (
        #[trigger] last.services[a]).id != (#[trigger] last.services[b]).id by {
            assert(ids[offset + a] == last.services[a].id);
            assert(ids[offset + b] == last.services[b].id);
        }
        lemma_argument_rows_of_service_under(last.services, j);
        assert forall|a: int, b: int|
            0 <= a < front.len() && 0 <= b < front[a].services.len() implies (
        #[trigger] front[a].services[b]).id != service_id by {
            let n = lemma_service_row_position(front, a, b);
            assert(ids[n] == front[a].services[b].id);
        }
        lemma_foreign_service(front, service_id);
    } else {
        assert(front[i] == places[i]);
        assert(all_service_ids(front).no_duplicates()) by {
            assert forall|a: int, b: int|
                0 <= a < all_service_ids(front).len() && 0 <= b < all_service_ids(front).len()
                    && a != b implies all_service_ids(front)[a] != all_service_ids(
                front,
            )[b] by {
                assert(ids[a] == all_service_ids(front)[a]);
                assert(ids[b] == all_service_ids(front)[b]);
            }
        }
        lemma_argument_rows_of_service(front, i, j);
        assert forall|b: int| 0 <= b < last.services.len() implies (
        #[trigger] last.services[b]).id != service_id by {
            assert(ids[offset + b] == last.services[b].id);
        }
        lemma_foreign_service_under(last.services, service_id);
    }
}

/// The tables of a snapshot give the snapshot back, every child under its
/// parent and in its place, where no two places and no two services share
/// an identifier.
pub proof fn lemma_reconstruct_flatten(s: SnapshotView)
    requires
        place_ids(flatten_spec(s)).no_duplicates(),
        service_ids(flatten_spec(s)).no_duplicates(),
    ensures
        reconstruct_spec(flatten_spec(s)) == s,
{
    let t = flatten_spec(s);
    let places = s.places;
    assert(all_service_ids(places) =~= service_ids(t));
    assert forall|a: int, b: int| 0 <= a < b < places.len() implies (#[trigger] places[a]).id != (
    #[trigger] places[b]).id by {
        assert(place_ids(t)[a] == places[a].id);
        assert(place_ids(t)[b] == places[b].id);
    }
    let back = reconstruct_spec(t).places;
    assert forall|i: int| 0 <= i < places.len() implies back[i] == places[i] by {
        let p = places[i];
        lemma_service_rows_of_place(places, i);
        let kept = t.services.filter(in_place(p.id));
        assert(kept == service_rows_of(p));
        let services = services_of(t.services, t.arguments, p.id);
        assert forall|j: int| 0 <= j < p.services.len() implies services[j] == p.services[j] by {
            let sv = p.services[j];
            lemma_argument_rows_of_service(places, i, j);
            let mine = t.arguments.filter(in_service(sv.id));
            assert(mine == argument_rows_of(sv));
            assert(arguments_of(t.arguments, sv.id) =~= sv.arguments);
        }
        assert(services =~= p.services);
    }
    assert(back =~= places);
}

} // verus!
