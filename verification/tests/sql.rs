use snapshot_sync::plan::Statement;
use snapshot_sync::rows::{ArgumentRow, PlaceRow, ServiceRow};
use snapshot_sync::sql::{read_step, Table, READ_STEPS};

#[test]
fn deletions_have_no_values() {
    assert_eq!(Statement::DeleteArguments.sql(), "DELETE FROM arguments");
    assert_eq!(Statement::DeleteServices.sql(), "DELETE FROM services");
    assert_eq!(Statement::DeletePlaces.sql(), "DELETE FROM places");
    assert!(Statement::DeleteArguments.values().is_empty());
    assert!(Statement::DeleteServices.values().is_empty());
    assert!(Statement::DeletePlaces.values().is_empty());
}

#[test]
fn insertions_bind_their_row_in_column_order() {
    let p = Statement::InsertPlace(PlaceRow { id: "P1".to_string(), name: "Home".to_string() });
    assert_eq!(p.sql(), "INSERT INTO places (id, name) VALUES ($1, $2)");
    assert_eq!(p.values(), vec!["P1".to_string(), "Home".to_string()]);
    let s = Statement::InsertService(ServiceRow {
        id: "SV1".to_string(),
        name: "Light".to_string(),
        place_id: "P1".to_string(),
    });
    assert_eq!(s.sql(), "INSERT INTO services (id, name, place_id) VALUES ($1, $2, $3)");
    assert_eq!(s.values(), vec!["SV1".to_string(), "Light".to_string(), "P1".to_string()]);
    let a = Statement::InsertArgument(ArgumentRow {
        id: "A1".to_string(),
        name: "level".to_string(),
        kind: "int".to_string(),
        service_id: "SV1".to_string(),
    });
    assert_eq!(
        a.sql(),
        "INSERT INTO arguments (id, name, type, service_id) VALUES ($1, $2, $3, $4)"
    );
    assert_eq!(
        a.values(),
        vec!["A1".to_string(), "level".to_string(), "int".to_string(), "SV1".to_string()]
    );
}

#[test]
fn a_retrieval_queries_the_three_tables_in_order() {
    assert_eq!(READ_STEPS, 3);
    assert_eq!(read_step(0), Some(Table::Places));
    assert_eq!(read_step(1), Some(Table::Services));
    assert_eq!(read_step(2), Some(Table::Arguments));
    assert_eq!(read_step(3), None);
    assert_eq!(read_step(usize::MAX), None);
}

#[test]
fn each_table_has_its_query() {
    assert_eq!(Table::Places.select_sql(), "SELECT id, name FROM places");
    assert_eq!(Table::Services.select_sql(), "SELECT id, name, place_id FROM services");
    assert_eq!(
        Table::Arguments.select_sql(),
        "SELECT id, name, type, service_id FROM arguments"
    );
}
