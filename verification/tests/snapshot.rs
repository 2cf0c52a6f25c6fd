use snapshot_sync::error::SyncError;
use snapshot_sync::flatten::flatten;
use snapshot_sync::model::{Argument, Place, Service, Snapshot};
use snapshot_sync::plan::{replacement_plan, write_plan, Statement};
use snapshot_sync::reconstruct::{is_well_parented, reconstruct};
use snapshot_sync::rows::{ArgumentRow, PlaceRow, ServiceRow, Tables};
use snapshot_sync::validate::{keys_are_valid, validate};

fn argument(id: &str, name: &str, kind: &str) -> Argument {
    Argument { id: id.to_string(), name: name.to_string(), kind: kind.to_string() }
}

fn service(id: &str, name: &str, arguments: Vec<Argument>) -> Service {
    Service { id: id.to_string(), name: name.to_string(), arguments }
}

fn place(id: &str, name: &str, services: Vec<Service>) -> Place {
    Place { id: id.to_string(), name: name.to_string(), services }
}

fn place_row(id: &str, name: &str) -> PlaceRow {
    PlaceRow { id: id.to_string(), name: name.to_string() }
}

fn service_row(id: &str, name: &str, place_id: &str) -> ServiceRow {
    ServiceRow { id: id.to_string(), name: name.to_string(), place_id: place_id.to_string() }
}

fn argument_row(id: &str, name: &str, kind: &str, service_id: &str) -> ArgumentRow {
    ArgumentRow {
        id: id.to_string(),
        name: name.to_string(),
        kind: kind.to_string(),
        service_id: service_id.to_string(),
    }
}

fn sample() -> Snapshot {
    Snapshot {
        places: vec![
            place(
                "P1",
                "Home",
                vec![
                    service("SV1", "Light", vec![argument("A1", "level", "int")]),
                    service("SV2", "Lock", vec![]),
                ],
            ),
            place(
                "P2",
                "Office",
                vec![service(
                    "SV3",
                    "Heating",
                    vec![argument("A2", "target", "float"), argument("A3", "mode", "string")],
                )],
            ),
        ],
    }
}

fn sample_tables() -> Tables {
    Tables {
        places: vec![place_row("P1", "Home"), place_row("P2", "Office")],
        services: vec![
            service_row("SV1", "Light", "P1"),
            service_row("SV2", "Lock", "P1"),
            service_row("SV3", "Heating", "P2"),
        ],
        arguments: vec![
            argument_row("A1", "level", "int", "SV1"),
            argument_row("A2", "target", "float", "SV3"),
            argument_row("A3", "mode", "string", "SV3"),
        ],
    }
}

#[test]
fn flatten_gives_each_child_its_parent() {
    assert_eq!(flatten(&sample()), sample_tables());
}

#[test]
fn flatten_of_nothing_is_three_empty_tables() {
    let t = flatten(&Snapshot { places: vec![] });
    assert_eq!(t, Tables::new());
    assert!(t.places.is_empty() && t.services.is_empty() && t.arguments.is_empty());
}

#[test]
fn reconstruct_gives_the_snapshot_back() {
    assert_eq!(reconstruct(&sample_tables()), Ok(sample()));
    assert_eq!(reconstruct(&flatten(&sample())), Ok(sample()));
}

#[test]
fn reconstruct_of_empty_tables_is_the_empty_snapshot() {
    assert_eq!(reconstruct(&Tables::new()), Ok(Snapshot { places: vec![] }));
}

#[test]
fn reconstruct_groups_rows_that_come_in_any_order() {
    let tables = Tables {
        places: vec![place_row("P2", "Office"), place_row("P1", "Home")],
        services: vec![
            service_row("SV3", "Heating", "P2"),
            service_row("SV2", "Lock", "P1"),
            service_row("SV1", "Light", "P1"),
        ],
        arguments: vec![
            argument_row("A3", "mode", "string", "SV3"),
            argument_row("A1", "level", "int", "SV1"),
            argument_row("A2", "target", "float", "SV3"),
        ],
    };
    let expected = Snapshot {
        places: vec![
            place(
                "P2",
                "Office",
                vec![service(
                    "SV3",
                    "Heating",
                    vec![argument("A3", "mode", "string"), argument("A2", "target", "float")],
                )],
            ),
            place(
                "P1",
                "Home",
                vec![
                    service("SV2", "Lock", vec![]),
                    service("SV1", "Light", vec![argument("A1", "level", "int")]),
                ],
            ),
        ],
    };
    assert_eq!(reconstruct(&tables), Ok(expected));
}

#[test]
fn nesting_is_kept_through_the_tables() {
    let s = Snapshot {
        places: vec![place(
            "P1",
            "Home",
            vec![
                service("SV1", "Light", vec![argument("A1", "level", "int")]),
                service("SV2", "Lock", vec![]),
            ],
        )],
    };
    let back = reconstruct(&flatten(&s)).unwrap();
    assert_eq!(back.places.len(), 1);
    let p1 = &back.places[0];
    assert_eq!(p1.id, "P1");
    assert_eq!(p1.services.len(), 2);
    let sv1 = p1.services.iter().find(|s| s.id == "SV1").unwrap();
    let sv2 = p1.services.iter().find(|s| s.id == "SV2").unwrap();
    assert_eq!(sv1.arguments, vec![argument("A1", "level", "int")]);
    assert!(sv2.arguments.is_empty());
}

#[test]
fn a_service_without_its_place_is_a_consistency_error() {
    let mut tables = sample_tables();
    tables.services.push(service_row("SV9", "Ghost", "P9"));
    assert!(!is_well_parented(&tables));
    assert_eq!(reconstruct(&tables), Err(SyncError::Consistency));
}

#[test]
fn an_argument_without_its_service_is_a_consistency_error() {
    let mut tables = sample_tables();
    tables.arguments.push(argument_row("A9", "ghost", "int", "SV9"));
    assert!(!is_well_parented(&tables));
    assert_eq!(reconstruct(&tables), Err(SyncError::Consistency));
}

#[test]
fn well_parented_tables_are_recognised() {
    assert!(is_well_parented(&sample_tables()));
    assert!(is_well_parented(&Tables::new()));
}

#[test]
fn a_valid_snapshot_is_accepted() {
    assert_eq!(validate(&sample()), Ok(()));
    assert_eq!(validate(&Snapshot { places: vec![] }), Ok(()));
    assert!(keys_are_valid(&sample_tables()));
}

#[test]
fn an_empty_identifier_is_refused() {
    let s = Snapshot { places: vec![place("", "Nowhere", vec![])] };
    assert_eq!(validate(&s), Err(SyncError::Validation));
    let s = Snapshot { places: vec![place("P1", "Home", vec![service("", "x", vec![])])] };
    assert_eq!(validate(&s), Err(SyncError::Validation));
    let s = Snapshot {
        places: vec![place(
            "P1",
            "Home",
            vec![service("SV1", "x", vec![argument("", "a", "int")])],
        )],
    };
    assert_eq!(validate(&s), Err(SyncError::Validation));
}

#[test]
fn an_empty_name_is_accepted() {
    let s = Snapshot { places: vec![place("P1", "", vec![service("SV1", "", vec![])])] };
    assert_eq!(validate(&s), Ok(()));
}

#[test]
fn a_duplicate_place_is_refused() {
    let s = Snapshot { places: vec![place("P1", "Home", vec![]), place("P1", "Again", vec![])] };
    assert_eq!(validate(&s), Err(SyncError::Validation));
}

#[test]
fn a_duplicate_service_is_refused_across_places() {
    let s = Snapshot {
        places: vec![
            place("P1", "Home", vec![service("SV1", "Light", vec![])]),
            place("P2", "Office", vec![service("SV1", "Light", vec![])]),
        ],
    };
    assert_eq!(validate(&s), Err(SyncError::Validation));
}

#[test]
fn a_duplicate_argument_is_refused_across_services() {
    let s = Snapshot {
        places: vec![place(
            "P1",
            "Home",
            vec![
                service("SV1", "Light", vec![argument("A1", "level", "int")]),
                service("SV2", "Lock", vec![argument("A1", "level", "int")]),
            ],
        )],
    };
    assert_eq!(validate(&s), Err(SyncError::Validation));
}

#[test]
fn the_same_identifier_may_serve_at_different_levels() {
    let s = Snapshot {
        places: vec![place(
            "X",
            "Home",
            vec![service("X", "Light", vec![argument("X", "level", "int")])],
        )],
    };
    assert_eq!(validate(&s), Ok(()));
    assert_eq!(reconstruct(&flatten(&s)), Ok(s));
}

#[test]
fn a_plan_deletes_children_first_and_inserts_parents_first() {
    let plan = write_plan(&sample()).unwrap();
    let t = sample_tables();
    let mut expected = vec![
        Statement::DeleteArguments,
        Statement::DeleteServices,
        Statement::DeletePlaces,
    ];
    expected.extend(t.places.iter().cloned().map(Statement::InsertPlace));
    expected.extend(t.services.iter().cloned().map(Statement::InsertService));
    expected.extend(t.arguments.iter().cloned().map(Statement::InsertArgument));
    assert_eq!(plan, expected);
    assert_eq!(plan.len(), 3 + 2 + 3 + 3);
    assert_eq!(replacement_plan(&t), expected);
}

#[test]
fn the_plan_of_the_empty_snapshot_only_deletes() {
    let plan = write_plan(&Snapshot { places: vec![] }).unwrap();
    assert_eq!(
        plan,
        vec![Statement::DeleteArguments, Statement::DeleteServices, Statement::DeletePlaces]
    );
}

#[test]
fn no_plan_is_made_for_a_snapshot_that_is_not_valid() {
    let s = Snapshot { places: vec![place("P1", "Home", vec![]), place("P1", "Again", vec![])] };
    assert_eq!(write_plan(&s), Err(SyncError::Validation));
}
