//! What the reader and the writer take from SQLite through `sqlx`: the
//! text of a row's columns, and the kind of a failure.

use vstd::prelude::*;
use crate::error::SyncError;
use crate::model::{Snapshot, SnapshotView};
use crate::reader::{assemble_spec, is_result};
use crate::reconstruct::reconstruct;
use crate::rows::{
    argument_row_views, lemma_argument_row_views_push, lemma_place_row_views_push,
    lemma_service_row_views_push, place_row_views, service_row_views, ArgumentRow,
    ArgumentRowView, PlaceRow, PlaceRowView, ServiceRow, ServiceRowView, Tables, TablesView,
};

verus! {

/// `sqlx::sqlite::SqliteRow`, a row that a query returned. Nothing of its
/// inside is known here.
#[verifier::external_type_specification]
#[verifier::external_body]
pub struct ExSqliteRow(sqlx::sqlite::SqliteRow);

/// `sqlx::Error`, the failure of a call into `sqlx`. Nothing of its inside
/// is known here.
#[verifier::external_type_specification]
#[verifier::external_body]
pub struct ExSqlxError(sqlx::Error);

/// The text that a row holds, by column name: for each name under which
/// `sqlx::Row::try_get` yields a `String` from the row, that string. For
/// SQLite these are the columns whose value is text, and those whose value
/// is null, which `sqlx` decodes as the empty string.
pub uninterp spec fn text_columns(row: sqlx::sqlite::SqliteRow) -> Map<Seq<char>, Seq<char>>;

/// The text that `row` holds under `column`, if it holds any.
pub open spec fn text_of(row: sqlx::sqlite::SqliteRow, column: Seq<char>) -> Option<Seq<char>> {
    if text_columns(row).contains_key(column) {
        Some(text_columns(row)[column])
    } else {
        None
    }
}

/// Calls `sqlx::Row::try_get` for a `String` under the column name
/// `column`. The call reads the row and nothing else, so that what it
/// returns is a matter of the row and the name alone: the contract gives
/// that result the name [`text_columns`], and claims no more. The call
/// returns an error, and does not panic, where the row has no such column
/// or the column does not decode as a string.
#[verifier::external_body]
fn text_column(row: &sqlx::sqlite::SqliteRow, column: &str) -> (r: Result<String, sqlx::Error>)
    ensures
        match r {
            Ok(s) => text_columns(*row).contains_key(column@) && text_columns(*row)[column@]
                == s@,
            Err(_) => !text_columns(*row).contains_key(column@),
        },
{
    sqlx::Row::try_get(row, column)
}

/// The text under `column`, or `None` where the row gives none.
fn text(row: &sqlx::sqlite::SqliteRow, column: &str) -> (r: Option<String>)
    ensures
        match r {
            Some(s) => text_of(*row, column@) == Some(s@),
            None => text_of(*row, column@) is None,
        },
{
    match text_column(row, column) {
        Ok(s) => Some(s),
        Err(_) => None,
    }
}

/// The place row with these columns, or `SyncError::Decoding` where one
/// of them is missing.
pub open spec fn place_columns_spec(id: Option<Seq<char>>, name: Option<Seq<char>>) -> Result<
    PlaceRowView,
    SyncError,
> {
    if id is Some && name is Some {
        Ok(PlaceRowView { id: id->0, name: name->0 })
    } else {
        Err(SyncError::Decoding)
    }
}

/// The service row with these columns, or `SyncError::Decoding` where one
/// of them is missing.
pub open spec fn service_columns_spec(
    id: Option<Seq<char>>,
    name: Option<Seq<char>>,
    place_id: Option<Seq<char>>,
) -> Result<ServiceRowView, SyncError> {
    if id is Some && name is Some && place_id is Some {
        Ok(ServiceRowView { id: id->0, name: name->0, place_id: place_id->0 })
    } else {
        Err(SyncError::Decoding)
    }
}

/// The argument row with these columns, or `SyncError::Decoding` where
/// one of them is missing.
pub open spec fn argument_columns_spec(
    id: Option<Seq<char>>,
    name: Option<Seq<char>>,
    kind: Option<Seq<char>>,
    service_id: Option<Seq<char>>,
) -> Result<ArgumentRowView, SyncError> {
    if id is Some && name is Some && kind is Some && service_id is Some {
        Ok(ArgumentRowView { id: id->0, name: name->0, kind: kind->0, service_id: service_id->0 })
    } else {
        Err(SyncError::Decoding)
    }
}

/// What an optional string stands for.
pub open spec fn text_view(s: Option<String>) -> Option<Seq<char>> {
    match s {
        Some(s) => Some(s@),
        None => None,
    }
}

/// The place row with these columns; fails with `SyncError::Decoding`
/// exactly when one of them is missing.
pub fn place_from_columns(id: Option<String>, name: Option<String>) -> (r: Result<
    PlaceRow,
    SyncError,
>)
    ensures
        match r {
            Ok(row) => place_columns_spec(text_view(id), text_view(name)) == Ok::<
                PlaceRowView,
                SyncError,
            >(row@),
            Err(e) => place_columns_spec(text_view(id), text_view(name)) == Err::<
                PlaceRowView,
                SyncError,
            >(e),
        },
{
    match (id, name) {
        (Some(id), Some(name)) => Ok(PlaceRow { id, name }),
        _ => Err(SyncError::Decoding),
    }
}

/// The service row with these columns; fails with `SyncError::Decoding`
/// exactly when one of them is missing.
pub fn service_from_columns(
    id: Option<String>,
    name: Option<String>,
    place_id: Option<String>,
) -> (r: Result<ServiceRow, SyncError>)
    ensures
        match r {
            Ok(row) => service_columns_spec(text_view(id), text_view(name), text_view(place_id))
                == Ok::<ServiceRowView, SyncError>(row@),
            Err(e) => service_columns_spec(text_view(id), text_view(name), text_view(place_id))
                == Err::<ServiceRowView, SyncError>(e),
        },
{
    match (id, name, place_id) {
        (Some(id), Some(name), Some(place_id)) => Ok(ServiceRow { id, name, place_id }),
        _ => Err(SyncError::Decoding),
    }
}

/// The argument row with these columns; fails with `SyncError::Decoding`
/// exactly when one of them is missing.
pub fn argument_from_columns(
    id: Option<String>,
    name: Option<String>,
    kind: Option<String>,
    service_id: Option<String>,
) -> (r: Result<ArgumentRow, SyncError>)
    ensures
        match r {
            Ok(row) => argument_columns_spec(
                text_view(id),
                text_view(name),
                text_view(kind),
                text_view(service_id),
            ) == Ok::<ArgumentRowView, SyncError>(row@),
            Err(e) => argument_columns_spec(
                text_view(id),
                text_view(name),
                text_view(kind),
                text_view(service_id),
            ) == Err::<ArgumentRowView, SyncError>(e),
        },
{
    match (id, name, kind, service_id) {
        (Some(id), Some(name), Some(kind), Some(service_id)) => Ok(
            ArgumentRow { id, name, kind, service_id },
        ),
        _ => Err(SyncError::Decoding),
    }
}

/// The place row that `row` holds in its columns `id` and `name`.
pub open spec fn place_row_spec(row: sqlx::sqlite::SqliteRow) -> Result<PlaceRowView, SyncError> {
    place_columns_spec(text_of(row, "id"@), text_of(row, "name"@))
}

/// The service row that `row` holds in its columns `id`, `name` and
/// `place_id`.
pub open spec fn service_row_spec(row: sqlx::sqlite::SqliteRow) -> Result<
    ServiceRowView,
    SyncError,
> {
    service_columns_spec(text_of(row, "id"@), text_of(row, "name"@), text_of(row, "place_id"@))
}

/// The argument row that `row` holds in its columns `id`, `name`, `type`
/// and `service_id`.
pub open spec fn argument_row_spec(row: sqlx::sqlite::SqliteRow) -> Result<
    ArgumentRowView,
    SyncError,
> {
    argument_columns_spec(
        text_of(row, "id"@),
        text_of(row, "name"@),
        text_of(row, "type"@),
        text_of(row, "service_id"@),
    )
}

/// Decodes a row of the table of places.
pub fn decode_place(row: &sqlx::sqlite::SqliteRow) -> (r: Result<PlaceRow, SyncError>)
    ensures
        match r {
            Ok(p) => place_row_spec(*row) == Ok::<PlaceRowView, SyncError>(p@),
            Err(e) => place_row_spec(*row) == Err::<PlaceRowView, SyncError>(e),
        },
{
    place_from_columns(text(row, "id"), text(row, "name"))
}

/// Decodes a row of the table of services.
pub fn decode_service(row: &sqlx::sqlite::SqliteRow) -> (r: Result<ServiceRow, SyncError>)
    ensures
        match r {
            Ok(s) => service_row_spec(*row) == Ok::<ServiceRowView, SyncError>(s@),
            Err(e) => service_row_spec(*row) == Err::<ServiceRowView, SyncError>(e),
        },
{
    service_from_columns(text(row, "id"), text(row, "name"), text(row, "place_id"))
}

/// Decodes a row of the table of arguments.
pub fn decode_argument(row: &sqlx::sqlite::SqliteRow) -> (r: Result<ArgumentRow, SyncError>)
    ensures
        match r {
            Ok(a) => argument_row_spec(*row) == Ok::<ArgumentRowView, SyncError>(a@),
            Err(e) => argument_row_spec(*row) == Err::<ArgumentRowView, SyncError>(e),
        },
{
    argument_from_columns(
        text(row, "id"),
        text(row, "name"),
        text(row, "type"),
        text(row, "service_id"),
    )
}

/// Whether every row decodes as a row of the table of places.
pub open spec fn places_decode(rows: Seq<sqlx::sqlite::SqliteRow>) -> bool {
    forall|i: int| 0 <= i < rows.len() ==> place_row_spec(#[trigger] rows[i]) is Ok
}

/// Whether every row decodes as a row of the table of services.
pub open spec fn services_decode(rows: Seq<sqlx::sqlite::SqliteRow>) -> bool {
    forall|i: int| 0 <= i < rows.len() ==> service_row_spec(#[trigger] rows[i]) is Ok
}

/// Whether every row decodes as a row of the table of arguments.
pub open spec fn arguments_decode(rows: Seq<sqlx::sqlite::SqliteRow>) -> bool {
    forall|i: int| 0 <= i < rows.len() ==> argument_row_spec(#[trigger] rows[i]) is Ok
}

/// The place rows that `rows` hold, in order.
pub open spec fn decoded_places(rows: Seq<sqlx::sqlite::SqliteRow>) -> Seq<PlaceRowView> {
    Seq::new(rows.len(), |i: int| place_row_spec(rows[i])->Ok_0)
}

/// The service rows that `rows` hold, in order.
pub open spec fn decoded_services(rows: Seq<sqlx::sqlite::SqliteRow>) -> Seq<ServiceRowView> {
    Seq::new(rows.len(), |i: int| service_row_spec(rows[i])->Ok_0)
}

/// The argument rows that `rows` hold, in order.
pub open spec fn decoded_arguments(rows: Seq<sqlx::sqlite::SqliteRow>) -> Seq<ArgumentRowView> {
    Seq::new(rows.len(), |i: int| argument_row_spec(rows[i])->Ok_0)
}

/// Decodes the rows of the table of places, in order; fails with
/// `SyncError::Decoding` exactly when one of them does not decode.
pub fn decode_places(rows: &Vec<sqlx::sqlite::SqliteRow>) -> (r: Result<Vec<PlaceRow>, SyncError>)
    ensures
        match r {
            Ok(v) => places_decode(rows@) && place_row_views(v@) == decoded_places(rows@),
            Err(e) => e == SyncError::Decoding && !places_decode(rows@),
        },
{
    let mut out: Vec<PlaceRow> = Vec::new();
    let mut i: usize = 0;
    assert(place_row_views(out@) =~= decoded_places(rows@).take(0));
    while i < rows.len()
        invariant
            i <= rows.len(),
            forall|n: int| 0 <= n < i ==> place_row_spec(#[trigger] rows@[n]) is Ok,
            place_row_views(out@) == decoded_places(rows@).take(i as int),
        decreases rows.len() - i,
    {
        match decode_place(&rows[i]) {
            Ok(row) => {
                proof {
                    lemma_place_row_views_push(out@, row);
                }
                out.push(row);
            },
            Err(e) => {
                assert(place_row_spec(rows@[i as int]) is Err);
                return Err(SyncError::Decoding);
            },
        }
        i = i + 1;
        assert(place_row_views(out@) =~= decoded_places(rows@).take(i as int));
    }
    assert(decoded_places(rows@).take(i as int) =~= decoded_places(rows@));
    Ok(out)
}

/// Decodes the rows of the table of services, in order; fails with
/// `SyncError::Decoding` exactly when one of them does not decode.
pub fn decode_services(rows: &Vec<sqlx::sqlite::SqliteRow>) -> (r: Result<
    Vec<ServiceRow>,
    SyncError,
>)
    ensures
        match r {
            Ok(v) => services_decode(rows@) && service_row_views(v@) == decoded_services(rows@),
            Err(e) => e == SyncError::Decoding && !services_decode(rows@),
        },
{
    let mut out: Vec<ServiceRow> = Vec::new();
    let mut i: usize = 0;
    assert(service_row_views(out@) =~= decoded_services(rows@).take(0));
    while i < rows.len()
        invariant
            i <= rows.len(),
            forall|n: int| 0 <= n < i ==> service_row_spec(#[trigger] rows@[n]) is Ok,
            service_row_views(out@) == decoded_services(rows@).take(i as int),
        decreases rows.len() - i,
    {
        match decode_service(&rows[i]) {
            Ok(row) => {
                proof {
                    lemma_service_row_views_push(out@, row);
                }
                out.push(row);
            },
            Err(e) => {
                assert(service_row_spec(rows@[i as int]) is Err);
                return Err(SyncError::Decoding);
            },
        }
        i = i + 1;
        assert(service_row_views(out@) =~= decoded_services(rows@).take(i as int));
    }
    assert(decoded_services(rows@).take(i as int) =~= decoded_services(rows@));
    Ok(out)
}

/// Decodes the rows of the table of arguments, in order; fails with
/// `SyncError::Decoding` exactly when one of them does not decode.
pub fn decode_arguments(rows: &Vec<sqlx::sqlite::SqliteRow>) -> (r: Result<
    Vec<ArgumentRow>,
    SyncError,
>)
    ensures
        match r {
            Ok(v) => arguments_decode(rows@) && argument_row_views(v@) == decoded_arguments(
                rows@,
            ),
            Err(e) => e == SyncError::Decoding && !arguments_decode(rows@),
        },
{
    let mut out: Vec<ArgumentRow> = Vec::new();
    let mut i: usize = 0;
    assert(argument_row_views(out@) =~= decoded_arguments(rows@).take(0));
    while i < rows.len()
        invariant
            i <= rows.len(),
            forall|n: int| 0 <= n < i ==> argument_row_spec(#[trigger] rows@[n]) is Ok,
            argument_row_views(out@) == decoded_arguments(rows@).take(i as int),
        decreases rows.len() - i,
    {
        match decode_argument(&rows[i]) {
            Ok(row) => {
                proof {
                    lemma_argument_row_views_push(out@, row);
                }
                out.push(row);
            },
            Err(e) => {
                assert(argument_row_spec(rows@[i as int]) is Err);
                return Err(SyncError::Decoding);
            },
        }
        i = i + 1;
        assert(argument_row_views(out@) =~= decoded_arguments(rows@).take(i as int));
    }
    assert(decoded_arguments(rows@).take(i as int) =~= decoded_arguments(rows@));
    Ok(out)
}

/// The tables that the rows of three queries hold, or
/// `SyncError::Decoding` where a row does not decode.
pub open spec fn tables_spec(
    places: Seq<sqlx::sqlite::SqliteRow>,
    services: Seq<sqlx::sqlite::SqliteRow>,
    arguments: Seq<sqlx::sqlite::SqliteRow>,
) -> Result<TablesView, SyncError> {
    if places_decode(places) && services_decode(services) && arguments_decode(arguments) {
        Ok(
            TablesView {
                places: decoded_places(places),
                services: decoded_services(services),
                arguments: decoded_arguments(arguments),
            },
        )
    } else {
        Err(SyncError::Decoding)
    }
}

/// What a retrieval returns for the rows of the three tables: a row that
/// does not decode makes it fail with `SyncError::Decoding`, and rows that
/// all decode are assembled into a snapshot.
pub open spec fn snapshot_spec(
    places: Seq<sqlx::sqlite::SqliteRow>,
    services: Seq<sqlx::sqlite::SqliteRow>,
    arguments: Seq<sqlx::sqlite::SqliteRow>,
) -> Result<SnapshotView, SyncError> {
    match tables_spec(places, services, arguments) {
        Ok(t) => assemble_spec(t),
        Err(e) => Err(e),
    }
}

/// The snapshot that the rows of the three tables hold, as the queries
/// for all places, all services and all arguments returned them.
pub fn snapshot_from_rows(
    places: &Vec<sqlx::sqlite::SqliteRow>,
    services: &Vec<sqlx::sqlite::SqliteRow>,
    arguments: &Vec<sqlx::sqlite::SqliteRow>,
) -> (r: Result<Snapshot, SyncError>)
    ensures
        is_result(r, snapshot_spec(places@, services@, arguments@)),
{
    let places = match decode_places(places) {
        Ok(rows) => rows,
        Err(e) => {
            return Err(e);
        },
    };
    let services = match decode_services(services) {
        Ok(rows) => rows,
        Err(e) => {
            return Err(e);
        },
    };
    let arguments = match decode_arguments(arguments) {
        Ok(rows) => rows,
        Err(e) => {
            return Err(e);
        },
    };
    let tables = Tables { places, services, arguments };
    reconstruct(&tables)
}

/// The kinds of failure that storage reports, as far as the writer tells
/// them apart.
#[derive(Clone, Copy, Debug, PartialEq, Eq, Structural)]
pub enum Fault {
    /// A key that its table already holds.
    UniqueViolation,
    /// A child whose parent is not stored, or a parent that still has
    /// children.
    ForeignKeyViolation,
    /// A required column without a value.
    NotNullViolation,
    /// A value that a check of the schema refuses.
    CheckViolation,
    /// Anything else: storage was not reached, or did not finish.
    Other,
}

/// The kind of failure that an error of `sqlx` reports: what
/// `sqlx::Error::as_database_error` and, on an error that the database
/// returned, `sqlx::error::DatabaseError::kind` make of it.
pub uninterp spec fn fault_kind(e: sqlx::Error) -> Fault;

/// Calls `sqlx::Error::as_database_error` and, on an error that the
/// database returned, `sqlx::error::DatabaseError::kind`, and gives the
/// kind as a [`Fault`], variant for variant. An error that did not come
/// from the database, and a kind that is not known here, is
/// `Fault::Other`. Both calls read the error and nothing else, so that
/// the kind is a matter of the error alone: the contract gives it the name
/// [`fault_kind`], and claims nothing of which kind an error has.
#[verifier::external_body]
fn fault_of(e: &sqlx::Error) -> (f: Fault)
    ensures
        f == fault_kind(*e),
{
    match e.as_database_error() {
        None => Fault::Other,
        Some(d) => match d.kind() {
            sqlx::error::ErrorKind::UniqueViolation => Fault::UniqueViolation,
            sqlx::error::ErrorKind::ForeignKeyViolation => Fault::ForeignKeyViolation,
            sqlx::error::ErrorKind::NotNullViolation => Fault::NotNullViolation,
            sqlx::error::ErrorKind::CheckViolation => Fault::CheckViolation,
            _ => Fault::Other,
        },
    }
}

/// The failure that a fault stands for: a constraint that storage
/// enforces was broken by what the caller submitted, anything else is a
/// failure of storage.
pub open spec fn failure_of(f: Fault) -> SyncError {
    match f {
        Fault::Other => SyncError::Storage,
        _ => SyncError::Validation,
    }
}

/// The failure that a fault stands for.
pub fn classify(f: Fault) -> (e: SyncError)
    ensures
        e == failure_of(f),
{
    match f {
        Fault::Other => SyncError::Storage,
        _ => SyncError::Validation,
    }
}

/// The failure with which a request ends when a statement, or the
/// transaction around it, failed with `e`: `SyncError::Validation` where
/// `e` reports a broken constraint, `SyncError::Storage` for anything
/// else.
pub fn storage_failure(e: &sqlx::Error) -> (r: SyncError)
    ensures
        r == failure_of(fault_kind(*e)),
        r == SyncError::Validation || r == SyncError::Storage,
{
    classify(fault_of(e))
}

} // verus!
