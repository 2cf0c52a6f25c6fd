use snapshot_sync::error::SyncError;
use snapshot_sync::flatten::flatten;
use snapshot_sync::model::{Argument, Place, Service, Snapshot};
use snapshot_sync::plan::{write_plan, Statement};
use snapshot_sync::rows::{ArgumentRow, PlaceRow, ServiceRow, Tables};
use snapshot_sync::store::{apply, copy_tables, MemoryStore};
use snapshot_sync::transaction::{next, start, Action};

fn place(id: &str, services: Vec<Service>) -> Place {
    Place { id: id.to_string(), name: format!("place {}", id), services }
}

fn service(id: &str, arguments: Vec<Argument>) -> Service {
    Service { id: id.to_string(), name: format!("service {}", id), arguments }
}

fn argument(id: &str) -> Argument {
    Argument { id: id.to_string(), name: format!("argument {}", id), kind: "int".to_string() }
}

fn first() -> Snapshot {
    Snapshot {
        places: vec![
            place("P1", vec![service("SV1", vec![argument("A1")]), service("SV2", vec![])]),
            place("P2", vec![]),
        ],
    }
}

fn second() -> Snapshot {
    Snapshot {
        places: vec![place("Q1", vec![service("T1", vec![argument("B1"), argument("B2")])])],
    }
}

fn empty() -> Snapshot {
    Snapshot { places: vec![] }
}

fn place_row(id: &str) -> PlaceRow {
    PlaceRow { id: id.to_string(), name: "n".to_string() }
}

fn service_row(id: &str, place_id: &str) -> ServiceRow {
    ServiceRow { id: id.to_string(), name: "n".to_string(), place_id: place_id.to_string() }
}

fn argument_row(id: &str, service_id: &str) -> ArgumentRow {
    ArgumentRow {
        id: id.to_string(),
        name: "n".to_string(),
        kind: "int".to_string(),
        service_id: service_id.to_string(),
    }
}

/// Runs `plan` against `store` as a caller of the library does; `fail_at`
/// names the action, counted from the first, that storage fails for
/// reasons of its own.
fn drive(
    store: &mut MemoryStore,
    plan: &Vec<Statement>,
    fail_at: Option<usize>,
) -> (Result<(), SyncError>, Vec<Action>) {
    let (mut phase, mut action) = start();
    let mut seen = vec![];
    let mut n = 0;
    loop {
        seen.push(action);
        if let Action::Finish(r) = action {
            return (r, seen);
        }
        let reply = if fail_at == Some(n) {
            if let Action::Rollback = action {
                store.working = None;
            }
            Err(SyncError::Storage)
        } else {
            store.perform(plan, action)
        };
        let then = next(plan.len(), phase, reply);
        phase = then.0;
        action = then.1;
        n += 1;
    }
}

#[test]
fn a_new_store_reads_as_the_empty_snapshot() {
    let store = MemoryStore::new();
    assert_eq!(store.read(), Ok(empty()));
    assert_eq!(store.committed, Tables::new());
    assert_eq!(store.working, None);
}

#[test]
fn read_after_write_gives_the_snapshot() {
    let mut store = MemoryStore::new();
    assert_eq!(store.write(&first()), Ok(()));
    assert_eq!(store.read(), Ok(first()));
    assert_eq!(store.committed, flatten(&first()));
    assert_eq!(store.working, None);
}

#[test]
fn a_second_write_replaces_the_first() {
    let mut store = MemoryStore::new();
    assert_eq!(store.write(&first()), Ok(()));
    assert_eq!(store.write(&second()), Ok(()));
    assert_eq!(store.read(), Ok(second()));
    assert_eq!(store.committed, flatten(&second()));
    assert!(store.committed.places.iter().all(|p| p.id != "P1" && p.id != "P2"));
}

#[test]
fn the_empty_snapshot_erases_everything() {
    let mut store = MemoryStore::new();
    assert_eq!(store.write(&first()), Ok(()));
    assert_eq!(store.write(&empty()), Ok(()));
    assert_eq!(store.read(), Ok(empty()));
    assert_eq!(store.committed, Tables::new());
}

#[test]
fn writing_twice_is_writing_once() {
    let mut once = MemoryStore::new();
    assert_eq!(once.write(&first()), Ok(()));
    let mut twice = MemoryStore::new();
    assert_eq!(twice.write(&first()), Ok(()));
    assert_eq!(twice.write(&first()), Ok(()));
    assert_eq!(once, twice);
    assert_eq!(twice.read(), Ok(first()));
}

#[test]
fn a_snapshot_that_is_not_valid_changes_nothing() {
    let mut store = MemoryStore::new();
    assert_eq!(store.write(&first()), Ok(()));
    let bad = Snapshot { places: vec![place("Q1", vec![]), place("Q1", vec![])] };
    assert_eq!(store.write(&bad), Err(SyncError::Validation));
    assert_eq!(store.read(), Ok(first()));
    assert_eq!(store.committed, flatten(&first()));
}

#[test]
fn a_write_into_an_open_transaction_fails_and_changes_nothing() {
    let mut store = MemoryStore::new();
    assert_eq!(store.write(&first()), Ok(()));
    assert_eq!(store.perform(&vec![], Action::Begin), Ok(()));
    let before = store.clone();
    assert_eq!(store.write(&second()), Err(SyncError::Storage));
    assert_eq!(store, before);
}

#[test]
fn a_duplicate_in_the_middle_of_a_plan_rolls_everything_back() {
    let mut store = MemoryStore::new();
    assert_eq!(store.write(&first()), Ok(()));
    let mut plan = write_plan(&second()).unwrap();
    plan.insert(5, Statement::InsertPlace(place_row("Q1")));
    let (outcome, actions) = drive(&mut store, &plan, None);
    assert_eq!(outcome, Err(SyncError::Validation));
    assert_eq!(actions[actions.len() - 2], Action::Rollback);
    assert!(!actions.contains(&Action::Commit));
    assert_eq!(store.read(), Ok(first()));
    assert_eq!(store.committed, flatten(&first()));
    assert_eq!(store.working, None);
}

#[test]
fn a_fault_at_any_action_leaves_the_old_or_the_new_snapshot() {
    let plan = write_plan(&second()).unwrap();
    let actions = plan.len() + 2;
    for n in 0..actions + 2 {
        let mut store = MemoryStore::new();
        assert_eq!(store.write(&first()), Ok(()));
        let (outcome, _) = drive(&mut store, &plan, Some(n));
        assert_eq!(store.working, None);
        if n < actions {
            assert_eq!(outcome, Err(SyncError::Storage));
            assert_eq!(store.read(), Ok(first()));
        } else {
            assert_eq!(outcome, Ok(()));
            assert_eq!(store.read(), Ok(second()));
        }
    }
}

#[test]
fn the_caller_driven_run_does_what_write_does() {
    let mut driven = MemoryStore::new();
    let plan = write_plan(&first()).unwrap();
    let (outcome, actions) = drive(&mut driven, &plan, None);
    assert_eq!(outcome, Ok(()));
    assert_eq!(actions.len(), plan.len() + 3);
    assert_eq!(actions[0], Action::Begin);
    assert_eq!(actions[1], Action::Step(0));
    assert_eq!(actions[plan.len() + 1], Action::Commit);
    let mut written = MemoryStore::new();
    assert_eq!(written.write(&first()), Ok(()));
    assert_eq!(driven, written);
}

#[test]
fn readers_do_not_see_an_open_transaction() {
    let mut store = MemoryStore::new();
    assert_eq!(store.write(&first()), Ok(()));
    let plan = write_plan(&second()).unwrap();
    assert_eq!(store.perform(&plan, Action::Begin), Ok(()));
    for i in 0..plan.len() {
        assert_eq!(store.perform(&plan, Action::Step(i)), Ok(()));
        assert_eq!(store.read(), Ok(first()));
    }
    assert_eq!(store.perform(&plan, Action::Commit), Ok(()));
    assert_eq!(store.read(), Ok(second()));
}

#[test]
fn nothing_but_begin_is_accepted_outside_a_transaction() {
    let mut store = MemoryStore::new();
    let plan = vec![Statement::DeleteArguments];
    assert_eq!(store.perform(&plan, Action::Step(0)), Err(SyncError::Storage));
    assert_eq!(store.perform(&plan, Action::Commit), Err(SyncError::Storage));
    assert_eq!(store.perform(&plan, Action::Rollback), Ok(()));
    assert_eq!(store.perform(&plan, Action::Finish(Ok(()))), Ok(()));
    assert_eq!(store.perform(&plan, Action::Begin), Ok(()));
    assert_eq!(store.perform(&plan, Action::Begin), Err(SyncError::Storage));
    assert_eq!(store.perform(&plan, Action::Step(1)), Err(SyncError::Storage));
    assert_eq!(store.perform(&plan, Action::Step(0)), Ok(()));
}

#[test]
fn an_insert_needs_a_fresh_key_and_a_stored_parent() {
    let mut t = Tables::new();
    assert!(apply(&mut t, &Statement::InsertPlace(place_row("P1"))));
    assert!(!apply(&mut t, &Statement::InsertPlace(place_row("P1"))));
    assert!(!apply(&mut t, &Statement::InsertService(service_row("S1", "P9"))));
    assert!(apply(&mut t, &Statement::InsertService(service_row("S1", "P1"))));
    assert!(!apply(&mut t, &Statement::InsertService(service_row("S1", "P1"))));
    assert!(!apply(&mut t, &Statement::InsertArgument(argument_row("A1", "S9"))));
    assert!(apply(&mut t, &Statement::InsertArgument(argument_row("A1", "S1"))));
    assert!(!apply(&mut t, &Statement::InsertArgument(argument_row("A1", "S1"))));
    assert_eq!(
        t,
        Tables {
            places: vec![place_row("P1")],
            services: vec![service_row("S1", "P1")],
            arguments: vec![argument_row("A1", "S1")],
        }
    );
}

#[test]
fn a_parent_table_is_not_emptied_while_children_name_it() {
    let mut t = flatten(&first());
    let before = copy_tables(&t);
    assert!(!apply(&mut t, &Statement::DeletePlaces));
    assert!(!apply(&mut t, &Statement::DeleteServices));
    assert_eq!(t, before);
    assert!(apply(&mut t, &Statement::DeleteArguments));
    assert!(!apply(&mut t, &Statement::DeletePlaces));
    assert!(apply(&mut t, &Statement::DeleteServices));
    assert!(apply(&mut t, &Statement::DeletePlaces));
    assert_eq!(t, Tables::new());
}

#[test]
fn a_copy_of_the_tables_equals_them() {
    let t = flatten(&first());
    assert_eq!(copy_tables(&t), t);
}

#[test]
fn a_store_with_an_orphan_reads_as_a_consistency_error() {
    let mut store = MemoryStore::new();
    store.committed.services.push(service_row("S1", "P9"));
    assert_eq!(store.read(), Err(SyncError::Consistency));
}
