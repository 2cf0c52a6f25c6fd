//! Storage hands rows back in no promised order. This module shows that
//! the order does not matter: whatever the order of the rows, the
//! snapshot made of them holds the same places, services and arguments,
//! each under the same parent.

use vstd::prelude::*;
use vstd::seq_lib::{lemma_multiset_commutative, to_multiset_build, to_multiset_contains};
use crate::flatten::{
    argument_rows, argument_rows_of, argument_rows_under, flatten_spec, service_rows,
    service_rows_of,
};
use crate::model::{ServiceView, SnapshotView};
use crate::nesting::lemma_flatten_well_parented;
use crate::reconstruct::{
    has_place, has_service, in_place, in_service, place_of, places_of, reconstruct_spec,
    service_of, well_parented,
};
use crate::rows::{ArgumentRowView, PlaceRowView, ServiceRowView, TablesView};
use crate::validate::{place_ids, service_ids};

verus! {

/// Whether two sequences hold the same elements, each as often in the one
/// as in the other.
pub open spec fn same_elements<A>(a: Seq<A>, b: Seq<A>) -> bool {
    a.to_multiset() == b.to_multiset()
}

/// Whether two sets of tables hold the same rows, table by table, in
/// whatever order.
pub open spec fn same_rows(t: TablesView, u: TablesView) -> bool {
    &&& same_elements(t.places, u.places)
    &&& same_elements(t.services, u.services)
    &&& same_elements(t.arguments, u.arguments)
}

/// Whether two snapshots hold the same places, the same services under
/// the same places and the same arguments under the same services, in
/// whatever order at each level.
pub open spec fn isomorphic(a: SnapshotView, b: SnapshotView) -> bool {
    same_rows(flatten_spec(a), flatten_spec(b))
}

/// Whether an element has the key `k`.
pub open spec fn keyed<A>(key_of: spec_fn(A) -> Seq<char>, k: Seq<char>) -> spec_fn(A) -> bool {
    |x: A| key_of(x) == k
}

/// The keys of the elements, in order.
pub open spec fn keys_of<A>(s: Seq<A>, key_of: spec_fn(A) -> Seq<char>) -> Seq<Seq<char>> {
    Seq::new(s.len(), |i: int| key_of(s[i]))
}

/// The elements with the first key, then those with the second, and so
/// on, each group in the order of `rows`.
pub open spec fn gather<A>(
    rows: Seq<A>,
    key_of: spec_fn(A) -> Seq<char>,
    keys: Seq<Seq<char>>,
) -> Seq<A>
    decreases keys.len(),
{
    if keys.len() == 0 {
        Seq::empty()
    } else {
        gather(rows, key_of, keys.drop_last()) + rows.filter(keyed(key_of, keys.last()))
    }
}

/// The parent that a service row names.
pub open spec fn place_key() -> spec_fn(ServiceRowView) -> Seq<char> {
    |r: ServiceRowView| r.place_id
}

/// The parent that an argument row names.
pub open spec fn service_key() -> spec_fn(ArgumentRowView) -> Seq<char> {
    |r: ArgumentRowView| r.service_id
}

/// The identifier of a place row.
pub open spec fn place_id_of() -> spec_fn(PlaceRowView) -> Seq<char> {
    |r: PlaceRowView| r.id
}

/// The identifier of a service row.
pub open spec fn service_id_of() -> spec_fn(ServiceRowView) -> Seq<char> {
    |r: ServiceRowView| r.id
}

/// Two filters that pass the same elements keep the same elements.
pub proof fn lemma_filter_same<A>(s: Seq<A>, p: spec_fn(A) -> bool, q: spec_fn(A) -> bool)
    requires
        forall|i: int| 0 <= i < s.len() ==> p(#[trigger] s[i]) == q(s[i]),
    ensures
        s.filter(p) == s.filter(q),
    decreases s.len(),
{
    reveal(Seq::filter);
    if s.len() > 0 {
        lemma_filter_same(s.drop_last(), p, q);
    }
}

/// A filter keeps every occurrence of an element that passes and none of
/// one that does not.
pub proof fn lemma_filter_count<A>(s: Seq<A>, pred: spec_fn(A) -> bool, x: A)
    ensures
        s.filter(pred).to_multiset().count(x) == if pred(x) {
            s.to_multiset().count(x)
        } else {
            0
        },
    decreases s.len(),
{
    if s.len() == 0 {
        reveal(Seq::filter);
        to_multiset_contains(s, x);
        to_multiset_contains(s.filter(pred), x);
    } else {
        let front = s.drop_last();
        let last = s.last();
        lemma_filter_count(front, pred, x);
        assert(front.push(last) =~= s);
        to_multiset_build(front, last);
        front.lemma_filter_push(last, pred);
        if pred(last) {
            to_multiset_build(front.filter(pred), last);
        }
    }
}

/// Gathered by keys that differ from each other, an element occurs as
/// often as among the rows where its key is among the keys, and not at all
/// where it is not.
pub proof fn lemma_gather_count<A>(
    rows: Seq<A>,
    key_of: spec_fn(A) -> Seq<char>,
    keys: Seq<Seq<char>>,
    x: A,
)
    requires
        keys.no_duplicates(),
    ensures
        gather(rows, key_of, keys).to_multiset().count(x) == if keys.contains(key_of(x)) {
            rows.to_multiset().count(x)
        } else {
            0
        },
    decreases keys.len(),
{
    if keys.len() == 0 {
        to_multiset_contains(gather(rows, key_of, keys), x);
    } else {
        let front = keys.drop_last();
        let last = keys.last();
        lemma_gather_count(rows, key_of, front, x);
        lemma_filter_count(rows, keyed(key_of, last), x);
        lemma_multiset_commutative(gather(rows, key_of, front), rows.filter(keyed(key_of, last)));
        if key_of(x) == last {
            assert(keys[keys.len() - 1] == key_of(x));
            if front.contains(key_of(x)) {
                let i = choose|i: int| 0 <= i < front.len() && front[i] == key_of(x);
                assert(keys[i] == keys[keys.len() - 1]);
            }
        } else {
            if keys.contains(key_of(x)) {
                let i = choose|i: int| 0 <= i < keys.len() && keys[i] == key_of(x);
                assert(front[i] == key_of(x));
            }
            if front.contains(key_of(x)) {
                let i = choose|i: int| 0 <= i < front.len() && front[i] == key_of(x);
                assert(keys[i] == key_of(x));
            }
        }
    }
}

/// Gathered by keys that differ from each other and among which the key
/// of every row is found, the rows are all there, each as often as before.
pub proof fn lemma_gather_all<A>(
    rows: Seq<A>,
    key_of: spec_fn(A) -> Seq<char>,
    keys: Seq<Seq<char>>,
)
    requires
        keys.no_duplicates(),
        forall|i: int| 0 <= i < rows.len() ==> keys.contains(key_of(#[trigger] rows[i])),
    ensures
        same_elements(gather(rows, key_of, keys), rows),
{
    let g = gather(rows, key_of, keys);
    assert forall|x: A| g.to_multiset().count(x) == rows.to_multiset().count(x) by {
        lemma_gather_count(rows, key_of, keys, x);
        to_multiset_contains(rows, x);
        if rows.contains(x) {
            let i = choose|i: int| 0 <= i < rows.len() && rows[i] == x;
            assert(keys.contains(key_of(rows[i])));
        }
    }
    assert(g.to_multiset() =~= rows.to_multiset());
}

/// Gathering by two lists of keys, one after the other, is gathering by
/// the first and then by the second.
pub proof fn lemma_gather_concat<A>(
    rows: Seq<A>,
    key_of: spec_fn(A) -> Seq<char>,
    a: Seq<Seq<char>>,
    b: Seq<Seq<char>>,
)
    ensures
        gather(rows, key_of, a + b) == gather(rows, key_of, a) + gather(rows, key_of, b),
    decreases b.len(),
{
    if b.len() == 0 {
        assert(a + b =~= a);
        assert(gather(rows, key_of, a) + gather(rows, key_of, b) =~= gather(rows, key_of, a));
    } else {
        assert((a + b).drop_last() =~= a + b.drop_last());
        assert((a + b).last() == b.last());
        lemma_gather_concat(rows, key_of, a, b.drop_last());
        let tail = rows.filter(keyed(key_of, b.last()));
        assert((gather(rows, key_of, a) + gather(rows, key_of, b.drop_last())) + tail =~= gather(
            rows,
            key_of,
            a,
        ) + (gather(rows, key_of, b.drop_last()) + tail));
    }
}

/// Rows in another order have keys that differ from each other where the
/// keys of the rows in the first order do.
pub proof fn lemma_reordered_keys_distinct<A>(
    x: Seq<A>,
    y: Seq<A>,
    key_of: spec_fn(A) -> Seq<char>,
)
    requires
        same_elements(x, y),
        keys_of(y, key_of).no_duplicates(),
    ensures
        keys_of(x, key_of).no_duplicates(),
{
    assert(y.no_duplicates()) by {
        assert forall|i: int, j: int| 0 <= i < y.len() && 0 <= j < y.len() && i != j implies y[i]
            != y[j] by {
            assert(keys_of(y, key_of)[i] == key_of(y[i]));
            assert(keys_of(y, key_of)[j] == key_of(y[j]));
        }
    }
    y.lemma_multiset_has_no_duplicates();
    x.lemma_multiset_has_no_duplicates_conv();
    assert forall|i: int, j: int|
        0 <= i < keys_of(x, key_of).len() && 0 <= j < keys_of(x, key_of).len() && i
            != j implies keys_of(x, key_of)[i] != keys_of(x, key_of)[j] by {
        if key_of(x[i]) == key_of(x[j]) {
            to_multiset_contains(x, x[i]);
            to_multiset_contains(x, x[j]);
            to_multiset_contains(y, x[i]);
            to_multiset_contains(y, x[j]);
            assert(x.contains(x[i]) && x.contains(x[j]));
            let a = choose|a: int| 0 <= a < y.len() && y[a] == x[i];
            let b = choose|b: int| 0 <= b < y.len() && y[b] == x[j];
            assert(x[i] != x[j]);
            assert(keys_of(y, key_of)[a] == key_of(y[a]));
            assert(keys_of(y, key_of)[b] == key_of(y[b]));
        }
    }
}

/// The service rows of a place made from the tables are the service rows
/// that name it, in their order.
pub proof fn lemma_rebuilt_place_rows(
    r: PlaceRowView,
    services: Seq<ServiceRowView>,
    arguments: Seq<ArgumentRowView>,
)
    ensures
        service_rows_of(place_of(r, services, arguments)) == services.filter(
            keyed(place_key(), r.id),
        ),
        services.filter(in_place(r.id)) == services.filter(keyed(place_key(), r.id)),
{
    lemma_filter_same(services, in_place(r.id), keyed(place_key(), r.id));
    let kept = services.filter(in_place(r.id));
    assert forall|i: int| 0 <= i < kept.len() implies (#[trigger] kept[i]).place_id == r.id by {
        services.lemma_filter_pred(in_place(r.id), i);
    }
    assert(service_rows_of(place_of(r, services, arguments)) =~= kept);
}

/// The argument rows of a service made from the tables are the argument
/// rows that name it, in their order.
pub proof fn lemma_rebuilt_service_rows(r: ServiceRowView, arguments: Seq<ArgumentRowView>)
    ensures
        argument_rows_of(service_of(r, arguments)) == arguments.filter(
            keyed(service_key(), r.id),
        ),
{
    lemma_filter_same(arguments, in_service(r.id), keyed(service_key(), r.id));
    let kept = arguments.filter(in_service(r.id));
    assert forall|i: int| 0 <= i < kept.len() implies (#[trigger] kept[i]).service_id == r.id by {
        arguments.lemma_filter_pred(in_service(r.id), i);
    }
    assert(argument_rows_of(service_of(r, arguments)) =~= kept);
}

/// The service rows of the places made from the tables are the service
/// rows gathered by place, in the order of the place rows.
pub proof fn lemma_rebuilt_service_rows_gathered(
    rows: Seq<PlaceRowView>,
    services: Seq<ServiceRowView>,
    arguments: Seq<ArgumentRowView>,
)
    ensures
        service_rows(places_of(rows, services, arguments)) == gather(
            services,
            place_key(),
            keys_of(rows, place_id_of()),
        ),
    decreases rows.len(),
{
    let places = places_of(rows, services, arguments);
    let keys = keys_of(rows, place_id_of());
    if rows.len() > 0 {
        let front = rows.drop_last();
        assert(places.drop_last() =~= places_of(front, services, arguments));
        assert(places.last() == place_of(rows.last(), services, arguments));
        assert(keys.drop_last() =~= keys_of(front, place_id_of()));
        assert(keys.last() == rows.last().id);
        lemma_rebuilt_service_rows_gathered(front, services, arguments);
        lemma_rebuilt_place_rows(rows.last(), services, arguments);
    }
}

/// The services that the rows `kept` describe, each with the arguments
/// that name it.
pub open spec fn rebuilt_services(kept: Seq<ServiceRowView>, arguments: Seq<ArgumentRowView>) -> Seq<
    ServiceView,
> {
    Seq::new(kept.len(), |i: int| service_of(kept[i], arguments))
}

/// The argument rows under services made from the tables are the argument
/// rows gathered by service, in the order of the service rows.
pub proof fn lemma_rebuilt_argument_rows_under(
    kept: Seq<ServiceRowView>,
    arguments: Seq<ArgumentRowView>,
)
    ensures
        argument_rows_under(rebuilt_services(kept, arguments)) == gather(
            arguments,
            service_key(),
            keys_of(kept, service_id_of()),
        ),
    decreases kept.len(),
{
    let made = rebuilt_services(kept, arguments);
    let keys = keys_of(kept, service_id_of());
    if kept.len() > 0 {
        let front = kept.drop_last();
        assert(made.drop_last() =~= rebuilt_services(front, arguments));
        assert(made.last() == service_of(kept.last(), arguments));
        assert(keys.drop_last() =~= keys_of(front, service_id_of()));
        assert(keys.last() == kept.last().id);
        lemma_rebuilt_argument_rows_under(front, arguments);
        lemma_rebuilt_service_rows(kept.last(), arguments);
    }
}

/// The argument rows of the places made from the tables are the argument
/// rows gathered by service, in the order in which the services come out.
pub proof fn lemma_rebuilt_argument_rows_gathered(
    rows: Seq<PlaceRowView>,
    services: Seq<ServiceRowView>,
    arguments: Seq<ArgumentRowView>,
)
    ensures
        argument_rows(places_of(rows, services, arguments)) == gather(
            arguments,
            service_key(),
            keys_of(service_rows(places_of(rows, services, arguments)), service_id_of()),
        ),
    decreases rows.len(),
{
    let places = places_of(rows, services, arguments);
    if rows.len() > 0 {
        let front = rows.drop_last();
        let before = places_of(front, services, arguments);
        let kept = services.filter(in_place(rows.last().id));
        assert(places.drop_last() =~= before);
        assert(places.last() == place_of(rows.last(), services, arguments));
        assert(places.last().services =~= rebuilt_services(kept, arguments));
        lemma_rebuilt_argument_rows_gathered(front, services, arguments);
        lemma_rebuilt_argument_rows_under(kept, arguments);
        lemma_rebuilt_place_rows(rows.last(), services, arguments);
        assert(service_rows(places) == service_rows(before) + kept);
        assert(keys_of(service_rows(places), service_id_of()) =~= keys_of(
            service_rows(before),
            service_id_of(),
        ) + keys_of(kept, service_id_of()));
        lemma_gather_concat(
            arguments,
            service_key(),
            keys_of(service_rows(before), service_id_of()),
            keys_of(kept, service_id_of()),
        );
    }
}

/// Tables in which no two places and no two services share an identifier,
/// and in which every row names a stored parent, lose nothing and gain
/// nothing when a snapshot is made of them: the rows of that snapshot are
/// the rows of the tables, in whatever order.
pub proof fn lemma_flatten_reconstruct(t: TablesView)
    requires
        place_ids(t).no_duplicates(),
        service_ids(t).no_duplicates(),
        well_parented(t),
    ensures
        same_rows(flatten_spec(reconstruct_spec(t)), t),
{
    let back = flatten_spec(reconstruct_spec(t));
    assert(back.places =~= t.places);
    let place_keys = keys_of(t.places, place_id_of());
    assert(place_keys =~= place_ids(t));
    lemma_rebuilt_service_rows_gathered(t.places, t.services, t.arguments);
    assert forall|i: int| 0 <= i < t.services.len() implies place_keys.contains(
        place_key()(#[trigger] t.services[i]),
    ) by {
        let n = choose|n: int|
            0 <= n < t.places.len() && (#[trigger] t.places[n]).id == t.services[i].place_id;
        assert(place_keys[n] == t.services[i].place_id);
    }
    lemma_gather_all(t.services, place_key(), place_keys);
    let service_keys = keys_of(back.services, service_id_of());
    assert(keys_of(t.services, service_id_of()) =~= service_ids(t));
    lemma_reordered_keys_distinct(back.services, t.services, service_id_of());
    lemma_rebuilt_argument_rows_gathered(t.places, t.services, t.arguments);
    assert forall|i: int| 0 <= i < t.arguments.len() implies service_keys.contains(
        service_key()(#[trigger] t.arguments[i]),
    ) by {
        let n = choose|n: int|
            0 <= n < t.services.len() && (#[trigger] t.services[n]).id
                == t.arguments[i].service_id;
        to_multiset_contains(t.services, t.services[n]);
        to_multiset_contains(back.services, t.services[n]);
        assert(t.services.contains(t.services[n]));
        let m = choose|m: int| 0 <= m < back.services.len() && back.services[m] == t.services[n];
        assert(service_keys[m] == t.arguments[i].service_id);
    }
    lemma_gather_all(t.arguments, service_key(), service_keys);
}

/// Rows in another order name stored parents where the rows in the first
/// order do, and have identifiers that differ where those do.
pub proof fn lemma_reordered_tables(t: TablesView, u: TablesView)
    requires
        same_rows(u, t),
        place_ids(t).no_duplicates(),
        service_ids(t).no_duplicates(),
        well_parented(t),
    ensures
        place_ids(u).no_duplicates(),
        service_ids(u).no_duplicates(),
        well_parented(u),
{
    assert(keys_of(t.places, place_id_of()) =~= place_ids(t));
    assert(keys_of(u.places, place_id_of()) =~= place_ids(u));
    assert(keys_of(t.services, service_id_of()) =~= service_ids(t));
    assert(keys_of(u.services, service_id_of()) =~= service_ids(u));
    lemma_reordered_keys_distinct(u.places, t.places, place_id_of());
    lemma_reordered_keys_distinct(u.services, t.services, service_id_of());
    assert forall|i: int| 0 <= i < u.services.len() implies has_place(
        u.places,
        (#[trigger] u.services[i]).place_id,
    ) by {
        let row = u.services[i];
        to_multiset_contains(u.services, row);
        to_multiset_contains(t.services, row);
        assert(u.services.contains(row));
        let a = choose|a: int| 0 <= a < t.services.len() && t.services[a] == row;
        assert(has_place(t.places, t.services[a].place_id));
        let b = choose|b: int|
            0 <= b < t.places.len() && (#[trigger] t.places[b]).id == row.place_id;
        let parent = t.places[b];
        to_multiset_contains(t.places, parent);
        to_multiset_contains(u.places, parent);
        assert(t.places.contains(parent));
        let c = choose|c: int| 0 <= c < u.places.len() && u.places[c] == parent;
        assert(u.places[c].id == row.place_id);
    }
    assert forall|i: int| 0 <= i < u.arguments.len() implies has_service(
        u.services,
        (#[trigger] u.arguments[i]).service_id,
    ) by {
        let row = u.arguments[i];
        to_multiset_contains(u.arguments, row);
        to_multiset_contains(t.arguments, row);
        assert(u.arguments.contains(row));
        let a = choose|a: int| 0 <= a < t.arguments.len() && t.arguments[a] == row;
        assert(has_service(t.services, t.arguments[a].service_id));
        let b = choose|b: int|
            0 <= b < t.services.len() && (#[trigger] t.services[b]).id == row.service_id;
        let parent = t.services[b];
        to_multiset_contains(t.services, parent);
        to_multiset_contains(u.services, parent);
        assert(t.services.contains(parent));
        let c = choose|c: int| 0 <= c < u.services.len() && u.services[c] == parent;
        assert(u.services[c].id == row.service_id);
    }
}

/// Round trip in any order: where storage hands back the rows of a
/// snapshot in whatever order, the snapshot made of them is the one that
/// was written, up to the order of the places, of the services of each
/// place and of the arguments of each service. It is enough that no two
/// places and no two services of the snapshot share an identifier.
pub proof fn lemma_round_trip_any_order(s: SnapshotView, u: TablesView)
    requires
        place_ids(flatten_spec(s)).no_duplicates(),
        service_ids(flatten_spec(s)).no_duplicates(),
        same_rows(u, flatten_spec(s)),
    ensures
        well_parented(u),
        isomorphic(reconstruct_spec(u), s),
{
    lemma_flatten_well_parented(s);
    lemma_reordered_tables(flatten_spec(s), u);
    lemma_flatten_reconstruct(u);
}

} // verus!
