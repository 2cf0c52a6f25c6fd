//! The text in which statements and queries reach storage.
//!
//! The tables are `places (id, name)`, `services (id, name, place_id)` and
//! `arguments (id, name, type, service_id)`.

use vstd::prelude::*;
use crate::plan::{Statement, StatementView};
use crate::validate::string_views;

verus! {

/// The SQL text of a statement, with `$1`, `$2`, ... where its values go.
pub open spec fn sql_of(stmt: StatementView) -> Seq<char> {
    match stmt {
        StatementView::DeleteArguments => "DELETE FROM arguments"@,
        StatementView::DeleteServices => "DELETE FROM services"@,
        StatementView::DeletePlaces => "DELETE FROM places"@,
        StatementView::InsertPlace(_) => "INSERT INTO places (id, name) VALUES ($1, $2)"@,
        StatementView::InsertService(_) =>
            "INSERT INTO services (id, name, place_id) VALUES ($1, $2, $3)"@,
        StatementView::InsertArgument(_) =>
            "INSERT INTO arguments (id, name, type, service_id) VALUES ($1, $2, $3, $4)"@,
    }
}

/// The values of a statement, in the order of `$1`, `$2`, ... in its text.
pub open spec fn values_of(stmt: StatementView) -> Seq<Seq<char>> {
    match stmt {
        StatementView::DeleteArguments => Seq::empty(),
        StatementView::DeleteServices => Seq::empty(),
        StatementView::DeletePlaces => Seq::empty(),
        StatementView::InsertPlace(r) => seq![r.id, r.name],
        StatementView::InsertService(r) => seq![r.id, r.name, r.place_id],
        StatementView::InsertArgument(r) => seq![r.id, r.name, r.kind, r.service_id],
    }
}

impl Statement {
    /// The SQL text of the statement.
    pub fn sql(&self) -> (r: &'static str)
        ensures
            r@ == sql_of(self@),
    {
        match self {
            Statement::DeleteArguments => "DELETE FROM arguments",
            Statement::DeleteServices => "DELETE FROM services",
            Statement::DeletePlaces => "DELETE FROM places",
            Statement::InsertPlace(_) => "INSERT INTO places (id, name) VALUES ($1, $2)",
            Statement::InsertService(_) =>
                "INSERT INTO services (id, name, place_id) VALUES ($1, $2, $3)",
            Statement::InsertArgument(_) =>
                "INSERT INTO arguments (id, name, type, service_id) VALUES ($1, $2, $3, $4)",
        }
    }

    /// The values to bind to the text of the statement, in order.
    pub fn values(&self) -> (r: Vec<String>)
        ensures
            string_views(r@) == values_of(self@),
    {
        let mut out: Vec<String> = Vec::new();
        match self {
            Statement::DeleteArguments => {},
            Statement::DeleteServices => {},
            Statement::DeletePlaces => {},
            Statement::InsertPlace(r) => {
                out.push(r.id.clone());
                out.push(r.name.clone());
            },
            Statement::InsertService(r) => {
                out.push(r.id.clone());
                out.push(r.name.clone());
                out.push(r.place_id.clone());
            },
            Statement::InsertArgument(r) => {
                out.push(r.id.clone());
                out.push(r.name.clone());
                out.push(r.kind.clone());
                out.push(r.service_id.clone());
            },
        }
        assert(string_views(out@) =~= values_of(self@));
        out
    }
}

/// One of the three tables.
#[derive(Clone, Copy, Debug, PartialEq, Eq, Structural)]
pub enum Table {
    Places,
    Services,
    Arguments,
}

/// The number of steps of a retrieval: one query for each table.
pub const READ_STEPS: usize = 3;

/// The table that the step `i` of a retrieval queries.
pub open spec fn read_step_spec(i: usize) -> Option<Table> {
    if i == 0 {
        Some(Table::Places)
    } else if i == 1 {
        Some(Table::Services)
    } else if i == 2 {
        Some(Table::Arguments)
    } else {
        None
    }
}

/// The table that the step `i` of a retrieval queries: places, then
/// services, then arguments; `None` from `READ_STEPS` on.
pub fn read_step(i: usize) -> (r: Option<Table>)
    ensures
        r == read_step_spec(i),
        r is Some <==> i < READ_STEPS,
{
    if i == 0 {
        Some(Table::Places)
    } else if i == 1 {
        Some(Table::Services)
    } else if i == 2 {
        Some(Table::Arguments)
    } else {
        None
    }
}

/// The SQL text of the query for all rows of a table.
pub open spec fn select_of(table: Table) -> Seq<char> {
    match table {
        Table::Places => "SELECT id, name FROM places"@,
        Table::Services => "SELECT id, name, place_id FROM services"@,
        Table::Arguments => "SELECT id, name, type, service_id FROM arguments"@,
    }
}

impl Table {
    /// The SQL text of the query for all rows of the table.
    pub fn select_sql(self) -> (r: &'static str)
        ensures
            r@ == select_of(self),
    {
        match self {
            Table::Places => "SELECT id, name FROM places",
            Table::Services => "SELECT id, name, place_id FROM services",
            Table::Arguments => "SELECT id, name, type, service_id FROM arguments",
        }
    }
}

} // verus!
