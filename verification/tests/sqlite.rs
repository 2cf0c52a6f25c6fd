use snapshot_sync::error::SyncError;
use snapshot_sync::model::{Argument, Place, Service, Snapshot};
use snapshot_sync::plan::{write_plan, Statement};
use snapshot_sync::rows::{ArgumentRow, PlaceRow, ServiceRow};
use snapshot_sync::sql::{read_step, Table, READ_STEPS};
use snapshot_sync::sqlite::{
    argument_from_columns, classify, decode_argument, decode_arguments, decode_place,
    decode_places, decode_service, decode_services, place_from_columns, service_from_columns,
    snapshot_from_rows, storage_failure, Fault,
};
use snapshot_sync::transaction::{next, start, Action};
use sqlx::sqlite::{SqliteConnection, SqlitePool, SqlitePoolOptions, SqliteRow};
use sqlx::Connection;

const SCHEMA: &str = "
    CREATE TABLE IF NOT EXISTS places (id UUID PRIMARY KEY, name TEXT NOT NULL);
    CREATE TABLE IF NOT EXISTS services (
        id UUID PRIMARY KEY, name TEXT NOT NULL, place_id UUID REFERENCES places(id));
    CREATE TABLE IF NOT EXISTS arguments (
        id UUID PRIMARY KEY, name TEXT NOT NULL, type TEXT NOT NULL,
        service_id UUID REFERENCES services(id));
";

fn runtime() -> tokio::runtime::Runtime {
    tokio::runtime::Builder::new_current_thread().enable_all().build().unwrap()
}

async fn memory_pool() -> SqlitePool {
    SqlitePoolOptions::new().max_connections(1).connect("sqlite::memory:").await.unwrap()
}

fn rows_of(sql: &'static str) -> Vec<SqliteRow> {
    runtime().block_on(async {
        let pool = memory_pool().await;
        sqlx::query(sql).fetch_all(&pool).await.unwrap()
    })
}

fn text(s: &str) -> Option<String> {
    Some(s.to_string())
}

async fn perform(
    conn: &mut SqliteConnection,
    plan: &Vec<Statement>,
    action: Action,
) -> Result<(), SyncError> {
    let done = match action {
        Action::Begin => sqlx::query("BEGIN IMMEDIATE").execute(&mut *conn).await,
        Action::Step(i) => {
            let mut query = sqlx::query(plan[i].sql());
            for value in plan[i].values() {
                query = query.bind(value);
            }
            query.execute(&mut *conn).await
        }
        Action::Commit => sqlx::query("COMMIT").execute(&mut *conn).await,
        Action::Rollback => sqlx::query("ROLLBACK").execute(&mut *conn).await,
        Action::Finish(_) => return Ok(()),
    };
    match done {
        Ok(_) => Ok(()),
        Err(e) => Err(storage_failure(&e)),
    }
}

async fn run_plan(conn: &mut SqliteConnection, plan: &Vec<Statement>) -> Result<(), SyncError> {
    let (mut phase, mut action) = start();
    loop {
        if let Action::Finish(r) = action {
            return r;
        }
        let reply = perform(conn, plan, action).await;
        let then = next(plan.len(), phase, reply);
        phase = then.0;
        action = then.1;
    }
}

async fn write(conn: &mut SqliteConnection, snapshot: &Snapshot) -> Result<(), SyncError> {
    let plan = write_plan(snapshot)?;
    run_plan(conn, &plan).await
}

async fn read(conn: &mut SqliteConnection) -> Result<Snapshot, SyncError> {
    let mut fetched: Vec<Vec<SqliteRow>> = vec![];
    for i in 0..READ_STEPS {
        let table = read_step(i).unwrap();
        let rows = sqlx::query(table.select_sql())
            .fetch_all(&mut *conn)
            .await
            .map_err(|_| SyncError::Storage)?;
        fetched.push(rows);
    }
    snapshot_from_rows(&fetched[0], &fetched[1], &fetched[2])
}

async fn database() -> SqliteConnection {
    let mut conn = SqliteConnection::connect("sqlite::memory:").await.unwrap();
    sqlx::query("PRAGMA foreign_keys = ON").execute(&mut conn).await.unwrap();
    sqlx::query(SCHEMA).execute(&mut conn).await.unwrap();
    conn
}

fn argument(id: &str, name: &str, kind: &str) -> Argument {
    Argument { id: id.to_string(), name: name.to_string(), kind: kind.to_string() }
}

fn first() -> Snapshot {
    Snapshot {
        places: vec![
            Place {
                id: "P1".to_string(),
                name: "Home".to_string(),
                services: vec![
                    Service {
                        id: "SV1".to_string(),
                        name: "Light".to_string(),
                        arguments: vec![argument("A1", "level", "int")],
                    },
                    Service { id: "SV2".to_string(), name: "Lock".to_string(), arguments: vec![] },
                ],
            },
            Place { id: "P2".to_string(), name: "Office".to_string(), services: vec![] },
        ],
    }
}

fn second() -> Snapshot {
    Snapshot {
        places: vec![Place {
            id: "Q1".to_string(),
            name: "Lab".to_string(),
            services: vec![Service {
                id: "T1".to_string(),
                name: "Pump".to_string(),
                arguments: vec![argument("B1", "rate", "float"), argument("B2", "unit", "text")],
            }],
        }],
    }
}

/// The snapshot with the children of every parent ordered by identifier.
fn sorted(mut s: Snapshot) -> Snapshot {
    s.places.sort_by(|a, b| a.id.cmp(&b.id));
    for p in s.places.iter_mut() {
        p.services.sort_by(|a, b| a.id.cmp(&b.id));
        for sv in p.services.iter_mut() {
            sv.arguments.sort_by(|a, b| a.id.cmp(&b.id));
        }
    }
    s
}

#[test]
fn columns_make_a_row_only_when_all_are_there() {
    assert_eq!(
        place_from_columns(text("P1"), text("Home")),
        Ok(PlaceRow { id: "P1".to_string(), name: "Home".to_string() })
    );
    assert_eq!(place_from_columns(None, text("Home")), Err(SyncError::Decoding));
    assert_eq!(place_from_columns(text("P1"), None), Err(SyncError::Decoding));
    assert_eq!(
        service_from_columns(text("S1"), text("Light"), text("P1")),
        Ok(ServiceRow {
            id: "S1".to_string(),
            name: "Light".to_string(),
            place_id: "P1".to_string()
        })
    );
    assert_eq!(service_from_columns(text("S1"), text("Light"), None), Err(SyncError::Decoding));
    assert_eq!(service_from_columns(None, text("Light"), text("P1")), Err(SyncError::Decoding));
    assert_eq!(
        argument_from_columns(text("A1"), text("level"), text("int"), text("S1")),
        Ok(ArgumentRow {
            id: "A1".to_string(),
            name: "level".to_string(),
            kind: "int".to_string(),
            service_id: "S1".to_string()
        })
    );
    assert_eq!(
        argument_from_columns(text("A1"), text("level"), None, text("S1")),
        Err(SyncError::Decoding)
    );
    assert_eq!(
        argument_from_columns(text("A1"), None, text("int"), text("S1")),
        Err(SyncError::Decoding)
    );
}

#[test]
fn a_place_row_is_decoded_from_its_columns() {
    let rows = rows_of("SELECT 'P1' AS id, 'Home' AS name");
    assert_eq!(
        decode_place(&rows[0]),
        Ok(PlaceRow { id: "P1".to_string(), name: "Home".to_string() })
    );
}

#[test]
fn the_columns_are_found_by_name_not_by_position() {
    let rows = rows_of("SELECT 'Home' AS name, 'extra' AS other, 'P1' AS id");
    assert_eq!(
        decode_place(&rows[0]),
        Ok(PlaceRow { id: "P1".to_string(), name: "Home".to_string() })
    );
}

#[test]
fn a_service_row_is_decoded_from_its_columns() {
    let rows = rows_of("SELECT 'SV1' AS id, 'Light' AS name, 'P1' AS place_id");
    assert_eq!(
        decode_service(&rows[0]),
        Ok(ServiceRow {
            id: "SV1".to_string(),
            name: "Light".to_string(),
            place_id: "P1".to_string()
        })
    );
}

#[test]
fn an_argument_row_is_decoded_from_its_columns() {
    let rows = rows_of("SELECT 'A1' AS id, 'level' AS name, 'int' AS type, 'SV1' AS service_id");
    assert_eq!(
        decode_argument(&rows[0]),
        Ok(ArgumentRow {
            id: "A1".to_string(),
            name: "level".to_string(),
            kind: "int".to_string(),
            service_id: "SV1".to_string()
        })
    );
}

#[test]
fn a_missing_column_is_a_decoding_error() {
    let rows = rows_of("SELECT 'P1' AS id");
    assert_eq!(decode_place(&rows[0]), Err(SyncError::Decoding));
    let rows = rows_of("SELECT 'SV1' AS id, 'Light' AS name");
    assert_eq!(decode_service(&rows[0]), Err(SyncError::Decoding));
    let rows = rows_of("SELECT 'A1' AS id, 'level' AS name, 'SV1' AS service_id");
    assert_eq!(decode_argument(&rows[0]), Err(SyncError::Decoding));
}

#[test]
fn a_column_that_is_not_text_is_a_decoding_error() {
    let rows = rows_of("SELECT 17 AS id, 'Home' AS name");
    assert_eq!(decode_place(&rows[0]), Err(SyncError::Decoding));
    let rows = rows_of("SELECT 'P1' AS id, 2.5 AS name");
    assert_eq!(decode_place(&rows[0]), Err(SyncError::Decoding));
}

#[test]
fn a_null_column_reads_as_empty_text() {
    let rows = rows_of("SELECT 'P1' AS id, NULL AS name");
    assert_eq!(
        decode_place(&rows[0]),
        Ok(PlaceRow { id: "P1".to_string(), name: "".to_string() })
    );
}

#[test]
fn rows_are_decoded_in_order() {
    let rows = rows_of("SELECT 'P2' AS id, 'b' AS name UNION ALL SELECT 'P1', 'a'");
    assert_eq!(
        decode_places(&rows),
        Ok(vec![
            PlaceRow { id: "P2".to_string(), name: "b".to_string() },
            PlaceRow { id: "P1".to_string(), name: "a".to_string() },
        ])
    );
    assert_eq!(decode_places(&vec![]), Ok(vec![]));
    assert_eq!(decode_services(&vec![]), Ok(vec![]));
    assert_eq!(decode_arguments(&vec![]), Ok(vec![]));
}

#[test]
fn one_bad_row_fails_the_whole_table() {
    let rows = rows_of("SELECT 'P1' AS id, 'a' AS name UNION ALL SELECT 5, 'b'");
    assert_eq!(rows.len(), 2);
    assert_eq!(decode_places(&rows), Err(SyncError::Decoding));
    let rows = rows_of("SELECT 'S1' AS id, 'a' AS name, 'P1' AS place_id UNION ALL SELECT 'S2', 'b', 9");
    assert_eq!(decode_services(&rows), Err(SyncError::Decoding));
    let rows = rows_of(
        "SELECT 'A1' AS id, 'a' AS name, 't' AS type, 'S1' AS service_id \
         UNION ALL SELECT 'A2', 'b', 't', 9",
    );
    assert_eq!(decode_arguments(&rows), Err(SyncError::Decoding));
}

#[test]
fn rows_of_three_queries_make_a_snapshot() {
    let places = rows_of("SELECT 'P1' AS id, 'Home' AS name");
    let services = rows_of(
        "SELECT 'SV1' AS id, 'Light' AS name, 'P1' AS place_id \
         UNION ALL SELECT 'SV2', 'Lock', 'P1'",
    );
    let arguments =
        rows_of("SELECT 'A1' AS id, 'level' AS name, 'int' AS type, 'SV1' AS service_id");
    let expected = Snapshot {
        places: vec![Place {
            id: "P1".to_string(),
            name: "Home".to_string(),
            services: vec![
                Service {
                    id: "SV1".to_string(),
                    name: "Light".to_string(),
                    arguments: vec![argument("A1", "level", "int")],
                },
                Service { id: "SV2".to_string(), name: "Lock".to_string(), arguments: vec![] },
            ],
        }],
    };
    assert_eq!(snapshot_from_rows(&places, &services, &arguments), Ok(expected));
}

#[test]
fn no_rows_make_the_empty_snapshot() {
    assert_eq!(snapshot_from_rows(&vec![], &vec![], &vec![]), Ok(Snapshot { places: vec![] }));
}

#[test]
fn an_orphan_among_the_rows_is_a_consistency_error() {
    let places = rows_of("SELECT 'P1' AS id, 'Home' AS name");
    let services = rows_of("SELECT 'SV1' AS id, 'Light' AS name, 'P9' AS place_id");
    assert_eq!(snapshot_from_rows(&places, &services, &vec![]), Err(SyncError::Consistency));
}

#[test]
fn a_row_that_does_not_decode_comes_before_an_orphan() {
    let places = rows_of("SELECT 'P1' AS id, 'Home' AS name");
    let services = rows_of("SELECT 'SV1' AS id, 'Light' AS name, 'P9' AS place_id");
    let arguments = rows_of("SELECT 'A1' AS id");
    assert_eq!(snapshot_from_rows(&places, &services, &arguments), Err(SyncError::Decoding));
}

#[test]
fn only_a_broken_constraint_is_the_callers_fault() {
    assert_eq!(classify(Fault::UniqueViolation), SyncError::Validation);
    assert_eq!(classify(Fault::ForeignKeyViolation), SyncError::Validation);
    assert_eq!(classify(Fault::NotNullViolation), SyncError::Validation);
    assert_eq!(classify(Fault::CheckViolation), SyncError::Validation);
    assert_eq!(classify(Fault::Other), SyncError::Storage);
}

#[test]
fn a_failure_outside_the_database_is_a_storage_error() {
    assert_eq!(storage_failure(&sqlx::Error::PoolClosed), SyncError::Storage);
    assert_eq!(storage_failure(&sqlx::Error::PoolTimedOut), SyncError::Storage);
    assert_eq!(storage_failure(&sqlx::Error::RowNotFound), SyncError::Storage);
}

#[test]
fn a_duplicate_key_in_the_database_is_a_validation_error() {
    runtime().block_on(async {
        let mut conn = database().await;
        sqlx::query("INSERT INTO places (id, name) VALUES ('P1', 'a')")
            .execute(&mut conn)
            .await
            .unwrap();
        let e = sqlx::query("INSERT INTO places (id, name) VALUES ('P1', 'b')")
            .execute(&mut conn)
            .await
            .unwrap_err();
        assert_eq!(storage_failure(&e), SyncError::Validation);
    });
}

#[test]
fn a_missing_parent_in_the_database_is_a_validation_error() {
    runtime().block_on(async {
        let mut conn = database().await;
        let e = sqlx::query("INSERT INTO services (id, name, place_id) VALUES ('S1', 'a', 'P9')")
            .execute(&mut conn)
            .await
            .unwrap_err();
        assert_eq!(storage_failure(&e), SyncError::Validation);
    });
}

#[test]
fn a_statement_that_the_database_cannot_run_is_a_storage_error() {
    runtime().block_on(async {
        let mut conn = database().await;
        let e = sqlx::query("DELETE FROM nowhere").execute(&mut conn).await.unwrap_err();
        assert_eq!(storage_failure(&e), SyncError::Storage);
    });
}

#[test]
fn a_snapshot_written_to_sqlite_is_read_back() {
    runtime().block_on(async {
        let mut conn = database().await;
        assert_eq!(read(&mut conn).await, Ok(Snapshot { places: vec![] }));
        assert_eq!(write(&mut conn, &first()).await, Ok(()));
        assert_eq!(read(&mut conn).await.map(sorted), Ok(sorted(first())));
    });
}

#[test]
fn a_second_snapshot_replaces_the_first_in_sqlite() {
    runtime().block_on(async {
        let mut conn = database().await;
        assert_eq!(write(&mut conn, &first()).await, Ok(()));
        assert_eq!(write(&mut conn, &second()).await, Ok(()));
        assert_eq!(read(&mut conn).await.map(sorted), Ok(sorted(second())));
        assert_eq!(write(&mut conn, &second()).await, Ok(()));
        assert_eq!(read(&mut conn).await.map(sorted), Ok(sorted(second())));
        assert_eq!(write(&mut conn, &Snapshot { places: vec![] }).await, Ok(()));
        assert_eq!(read(&mut conn).await, Ok(Snapshot { places: vec![] }));
    });
}

#[test]
fn a_plan_that_sqlite_refuses_halfway_leaves_the_old_snapshot() {
    runtime().block_on(async {
        let mut conn = database().await;
        assert_eq!(write(&mut conn, &first()).await, Ok(()));
        let mut plan = write_plan(&second()).unwrap();
        plan.insert(
            5,
            Statement::InsertPlace(PlaceRow { id: "Q1".to_string(), name: "again".to_string() }),
        );
        assert_eq!(run_plan(&mut conn, &plan).await, Err(SyncError::Validation));
        assert_eq!(read(&mut conn).await.map(sorted), Ok(sorted(first())));
        assert_eq!(write(&mut conn, &second()).await, Ok(()));
        assert_eq!(read(&mut conn).await.map(sorted), Ok(sorted(second())));
    });
}

#[test]
fn a_snapshot_that_is_not_valid_never_reaches_sqlite() {
    runtime().block_on(async {
        let mut conn = database().await;
        assert_eq!(write(&mut conn, &first()).await, Ok(()));
        let mut bad = second();
        bad.places[0].services[0].arguments[1].id = "B1".to_string();
        assert_eq!(write(&mut conn, &bad).await, Err(SyncError::Validation));
        assert_eq!(read(&mut conn).await.map(sorted), Ok(sorted(first())));
    });
}

#[test]
fn the_tables_are_queried_with_the_text_of_the_library() {
    assert_eq!(read_step(0).map(Table::select_sql), Some("SELECT id, name FROM places"));
}
