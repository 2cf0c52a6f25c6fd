//! The hierarchical dataset: a snapshot holds places, a place holds
//! services, a service holds arguments.

use vstd::prelude::*;

verus! {

/// A leaf of the hierarchy, owned by exactly one service.
#[derive(Clone, Debug, PartialEq, Eq)]
pub struct Argument {
    pub id: String,
    pub name: String,
    /// The type of the argument, as the caller named it.
    pub kind: String,
}

/// A service of a place, with its arguments.
#[derive(Clone, Debug, PartialEq, Eq)]
pub struct Service {
    pub id: String,
    pub name: String,
    pub arguments: Vec<Argument>,
}

/// A place, the root of an ownership tree.
#[derive(Clone, Debug, PartialEq, Eq)]
pub struct Place {
    pub id: String,
    pub name: String,
    pub services: Vec<Service>,
}

/// The whole dataset, replaced and retrieved as one unit.
#[derive(Clone, Debug, PartialEq, Eq)]
pub struct Snapshot {
    pub places: Vec<Place>,
}

/// What an [`Argument`] stands for.
pub struct ArgumentView {
    pub id: Seq<char>,
    pub name: Seq<char>,
    pub kind: Seq<char>,
}

/// What a [`Service`] stands for.
pub struct ServiceView {
    pub id: Seq<char>,
    pub name: Seq<char>,
    pub arguments: Seq<ArgumentView>,
}

/// What a [`Place`] stands for.
pub struct PlaceView {
    pub id: Seq<char>,
    pub name: Seq<char>,
    pub services: Seq<ServiceView>,
}

/// What a [`Snapshot`] stands for.
pub struct SnapshotView {
    pub places: Seq<PlaceView>,
}

impl View for Argument {
    type V = ArgumentView;

    open spec fn view(&self) -> ArgumentView {
        ArgumentView { id: self.id@, name: self.name@, kind: self.kind@ }
    }
}

/// The views of a vector of arguments, in order.
pub open spec fn argument_views(v: Seq<Argument>) -> Seq<ArgumentView> {
    Seq::new(v.len(), |i: int| v[i]@)
}

impl View for Service {
    type V = ServiceView;

    open spec fn view(&self) -> ServiceView {
        ServiceView {
            id: self.id@,
            name: self.name@,
            arguments: argument_views(self.arguments@),
        }
    }
}

/// The views of a vector of services, in order.
pub open spec fn service_views(v: Seq<Service>) -> Seq<ServiceView> {
    Seq::new(v.len(), |i: int| v[i]@)
}

impl View for Place {
    type V = PlaceView;

    open spec fn view(&self) -> PlaceView {
        PlaceView { id: self.id@, name: self.name@, services: service_views(self.services@) }
    }
}

/// The views of a vector of places, in order.
pub open spec fn place_views(v: Seq<Place>) -> Seq<PlaceView> {
    Seq::new(v.len(), |i: int| v[i]@)
}

/// Pushing an argument pushes its view.
pub proof fn lemma_argument_views_push(v: Seq<Argument>, x: Argument)
    ensures
        argument_views(v.push(x)) == argument_views(v).push(x@),
{
    assert(argument_views(v.push(x)) =~= argument_views(v).push(x@));
}

/// Pushing a service pushes its view.
pub proof fn lemma_service_views_push(v: Seq<Service>, x: Service)
    ensures
        service_views(v.push(x)) == service_views(v).push(x@),
{
    assert(service_views(v.push(x)) =~= service_views(v).push(x@));
}

/// Pushing a place pushes its view.
pub proof fn lemma_place_views_push(v: Seq<Place>, x: Place)
    ensures
        place_views(v.push(x)) == place_views(v).push(x@),
{
    assert(place_views(v.push(x)) =~= place_views(v).push(x@));
}

impl View for Snapshot {
    type V = SnapshotView;

    open spec fn view(&self) -> SnapshotView {
        SnapshotView { places: place_views(self.places@) }
    }
}

impl SnapshotView {
    /// The snapshot without any place: what storage holds before the first
    /// upload and after an upload that erases everything.
    pub open spec fn empty() -> SnapshotView {
        SnapshotView { places: Seq::empty() }
    }
}

} // verus!
