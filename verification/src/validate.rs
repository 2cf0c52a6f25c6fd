//! What a snapshot must satisfy before any of it reaches storage.
//!
//! Every identifier is non-empty, and no identifier occurs twice among the
//! places, among the services, or among the arguments of the snapshot.

use vstd::prelude::*;
use crate::error::SyncError;
use crate::flatten::{flatten, flatten_spec};
use crate::model::{Snapshot, SnapshotView};
use crate::rows::{Tables, TablesView};

verus! {

/// The identifiers of the place rows, in order.
pub open spec fn place_ids(t: TablesView) -> Seq<Seq<char>> {
    Seq::new(t.places.len(), |i: int| t.places[i].id)
}

/// The identifiers of the service rows, in order.
pub open spec fn service_ids(t: TablesView) -> Seq<Seq<char>> {
    Seq::new(t.services.len(), |i: int| t.services[i].id)
}

/// The identifiers of the argument rows, in order.
pub open spec fn argument_ids(t: TablesView) -> Seq<Seq<char>> {
    Seq::new(t.arguments.len(), |i: int| t.arguments[i].id)
}

/// Whether no identifier is empty.
pub open spec fn all_present(ids: Seq<Seq<char>>) -> bool {
    forall|i: int| 0 <= i < ids.len() ==> (#[trigger] ids[i]).len() > 0
}

/// Whether the identifiers can serve as keys of one table: none is empty
/// and none occurs twice.
pub open spec fn ids_valid(ids: Seq<Seq<char>>) -> bool {
    all_present(ids) && ids.no_duplicates()
}

/// Whether each table has identifiers that can serve as its keys.
pub open spec fn keys_valid(t: TablesView) -> bool {
    ids_valid(place_ids(t)) && ids_valid(service_ids(t)) && ids_valid(argument_ids(t))
}

/// Whether the snapshot may be written: its places, its services and its
/// arguments each have identifiers that are non-empty and distinct.
pub open spec fn valid(s: SnapshotView) -> bool {
    keys_valid(flatten_spec(s))
}

/// The views of a vector of strings, in order.
pub open spec fn string_views(v: Seq<String>) -> Seq<Seq<char>> {
    Seq::new(v.len(), |i: int| v[i]@)
}

/// Whether the identifiers are non-empty and distinct.
fn ids_are_valid(ids: &Vec<String>) -> (ok: bool)
    ensures
        ok == ids_valid(string_views(ids@)),
{
    let ghost views = string_views(ids@);
    let mut i: usize = 0;
    while i < ids.len()
        invariant
            i <= ids.len(),
            views == string_views(ids@),
            forall|a: int| 0 <= a < i ==> (#[trigger] views[a]).len() > 0,
            forall|a: int, b: int| 0 <= a < b < i ==> views[a] != views[b],
        decreases ids.len() - i,
    {
        if ids[i].as_str().is_empty() {
            assert(views[i as int].len() == 0);
            return false;
        }
        let mut j: usize = 0;
        while j < i
            invariant
                j <= i,
                i < ids.len(),
                views == string_views(ids@),
                forall|b: int| 0 <= b < j ==> views[b] != views[i as int],
            decreases i - j,
        {
            if ids[j] == ids[i] {
                assert(views[j as int] == views[i as int]);
                return false;
            }
            j = j + 1;
        }
        i = i + 1;
    }
    true
}

/// Whether each table of `tables` has identifiers that are non-empty and
/// distinct.
pub fn keys_are_valid(tables: &Tables) -> (ok: bool)
    ensures
        ok == keys_valid(tables@),
{
    let mut places: Vec<String> = Vec::new();
    let mut i: usize = 0;
    while i < tables.places.len()
        invariant
            i <= tables.places.len(),
            string_views(places@) == place_ids(tables@).take(i as int),
        decreases tables.places.len() - i,
    {
        let ghost before = places@;
        places.push(tables.places[i].id.clone());
        i = i + 1;
        assert(string_views(places@) =~= place_ids(tables@).take(i as int)) by {
            assert(string_views(places@) =~= string_views(before).push(places@.last()@));
        }
    }
    assert(place_ids(tables@).take(i as int) =~= place_ids(tables@));
    let mut services: Vec<String> = Vec::new();
    let mut j: usize = 0;
    while j < tables.services.len()
        invariant
            j <= tables.services.len(),
            string_views(services@) == service_ids(tables@).take(j as int),
        decreases tables.services.len() - j,
    {
        let ghost before = services@;
        services.push(tables.services[j].id.clone());
        j = j + 1;
        assert(string_views(services@) =~= service_ids(tables@).take(j as int)) by {
            assert(string_views(services@) =~= string_views(before).push(services@.last()@));
        }
    }
    assert(service_ids(tables@).take(j as int) =~= service_ids(tables@));
    let mut arguments: Vec<String> = Vec::new();
    let mut k: usize = 0;
    while k < tables.arguments.len()
        invariant
            k <= tables.arguments.len(),
            string_views(arguments@) == argument_ids(tables@).take(k as int),
        decreases tables.arguments.len() - k,
    {
        let ghost before = arguments@;
        arguments.push(tables.arguments[k].id.clone());
        k = k + 1;
        assert(string_views(arguments@) =~= argument_ids(tables@).take(k as int)) by {
            assert(string_views(arguments@) =~= string_views(before).push(arguments@.last()@));
        }
    }
    assert(argument_ids(tables@).take(k as int) =~= argument_ids(tables@));
    ids_are_valid(&places) && ids_are_valid(&services) && ids_are_valid(&arguments)
}

/// Accepts `snapshot` exactly when it is [`valid`], and otherwise fails
/// with [`SyncError::Validation`].
pub fn validate(snapshot: &Snapshot) -> (r: Result<(), SyncError>)
    ensures
        r == if valid(snapshot@) {
            Ok::<(), SyncError>(())
        } else {
            Err::<(), SyncError>(SyncError::Validation)
        },
{
    let tables = flatten(snapshot);
    if keys_are_valid(&tables) {
        Ok(())
    } else {
        Err(SyncError::Validation)
    }
}

} // verus!
