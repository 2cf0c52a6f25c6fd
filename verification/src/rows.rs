//! The normalised form of the dataset: three tables whose rows carry their
//! own identifier and, below the top level, the identifier of their parent.

use vstd::prelude::*;

verus! {

/// A row of the table of places.
#[derive(Clone, Debug, PartialEq, Eq)]
pub struct PlaceRow {
    pub id: String,
    pub name: String,
}

/// A row of the table of services; `place_id` names the owning place.
#[derive(Clone, Debug, PartialEq, Eq)]
pub struct ServiceRow {
    pub id: String,
    pub name: String,
    pub place_id: String,
}

/// A row of the table of arguments; `service_id` names the owning service.
#[derive(Clone, Debug, PartialEq, Eq)]
pub struct ArgumentRow {
    pub id: String,
    pub name: String,
    /// The type of the argument, as the caller named it.
    pub kind: String,
    pub service_id: String,
}

/// The three tables together.
#[derive(Clone, Debug, PartialEq, Eq)]
pub struct Tables {
    pub places: Vec<PlaceRow>,
    pub services: Vec<ServiceRow>,
    pub arguments: Vec<ArgumentRow>,
}

/// What a [`PlaceRow`] stands for.
pub struct PlaceRowView {
    pub id: Seq<char>,
    pub name: Seq<char>,
}

/// What a [`ServiceRow`] stands for.
pub struct ServiceRowView {
    pub id: Seq<char>,
    pub name: Seq<char>,
    pub place_id: Seq<char>,
}

/// What an [`ArgumentRow`] stands for.
pub struct ArgumentRowView {
    pub id: Seq<char>,
    pub name: Seq<char>,
    pub kind: Seq<char>,
    pub service_id: Seq<char>,
}

/// What [`Tables`] stand for.
pub struct TablesView {
    pub places: Seq<PlaceRowView>,
    pub services: Seq<ServiceRowView>,
    pub arguments: Seq<ArgumentRowView>,
}

impl View for PlaceRow {
    type V = PlaceRowView;

    open spec fn view(&self) -> PlaceRowView {
        PlaceRowView { id: self.id@, name: self.name@ }
    }
}

impl View for ServiceRow {
    type V = ServiceRowView;

    open spec fn view(&self) -> ServiceRowView {
        ServiceRowView { id: self.id@, name: self.name@, place_id: self.place_id@ }
    }
}

impl View for ArgumentRow {
    type V = ArgumentRowView;

    open spec fn view(&self) -> ArgumentRowView {
        ArgumentRowView {
            id: self.id@,
            name: self.name@,
            kind: self.kind@,
            service_id: self.service_id@,
        }
    }
}

/// The views of a vector of place rows, in order.
pub open spec fn place_row_views(v: Seq<PlaceRow>) -> Seq<PlaceRowView> {
    Seq::new(v.len(), |i: int| v[i]@)
}

/// The views of a vector of service rows, in order.
pub open spec fn service_row_views(v: Seq<ServiceRow>) -> Seq<ServiceRowView> {
    Seq::new(v.len(), |i: int| v[i]@)
}

/// The views of a vector of argument rows, in order.
pub open spec fn argument_row_views(v: Seq<ArgumentRow>) -> Seq<ArgumentRowView> {
    Seq::new(v.len(), |i: int| v[i]@)
}

/// Pushing a row pushes its view.
pub proof fn lemma_place_row_views_push(v: Seq<PlaceRow>, row: PlaceRow)
    ensures
        place_row_views(v.push(row)) == place_row_views(v).push(row@),
{
    assert(place_row_views(v.push(row)) =~= place_row_views(v).push(row@));
}

/// Pushing a row pushes its view.
pub proof fn lemma_service_row_views_push(v: Seq<ServiceRow>, row: ServiceRow)
    ensures
        service_row_views(v.push(row)) == service_row_views(v).push(row@),
{
    assert(service_row_views(v.push(row)) =~= service_row_views(v).push(row@));
}

/// Pushing a row pushes its view.
pub proof fn lemma_argument_row_views_push(v: Seq<ArgumentRow>, row: ArgumentRow)
    ensures
        argument_row_views(v.push(row)) == argument_row_views(v).push(row@),
{
    assert(argument_row_views(v.push(row)) =~= argument_row_views(v).push(row@));
}

impl View for Tables {
    type V = TablesView;

    open spec fn view(&self) -> TablesView {
        TablesView {
            places: place_row_views(self.places@),
            services: service_row_views(self.services@),
            arguments: argument_row_views(self.arguments@),
        }
    }
}

impl TablesView {
    /// Three tables without a row.
    pub open spec fn empty() -> TablesView {
        TablesView { places: Seq::empty(), services: Seq::empty(), arguments: Seq::empty() }
    }
}

impl Tables {
    /// Three tables without a row.
    pub fn new() -> (t: Tables)
        ensures
            t@ == TablesView::empty(),
    {
        let t = Tables { places: Vec::new(), services: Vec::new(), arguments: Vec::new() };
        assert(t@.places =~= Seq::empty());
        assert(t@.services =~= Seq::empty());
        assert(t@.arguments =~= Seq::empty());
        t
    }
}

} // verus!
