use r_sql::engine::BinaryEngine;
use r_sql::metadata::SqlType;

fn s(v: &str) -> String {
    v.to_string()
}

#[allow(dead_code)]
fn clauses(pairs: &[(&str, &str)]) -> Vec<(String, String)> {
    pairs.iter().map(|(k, v)| (k.to_string(), v.to_string())).collect()
}

#[test]
fn binary_engine_test_can_create_a_table_and_write_metadata_to_disk_correctly() {
    let mut engine = BinaryEngine::new();
    engine
        .create_table(
            s("people"),
            vec![
                vec![s("unique_id"), s("PRIMARY KEY")],
                vec![s("name"), s("VARCHAR")],
                vec![s("email"), s("VARCHAR")],
            ],
        )
        .unwrap();
    let table = engine.load_meta_data("people").unwrap();
    assert_eq!(table.primary_key.name, "unique_id");
    match table.primary_key.data_type {
        SqlType::Integer => {}
        _ => panic!("failed"),
    }
    assert!(!table.primary_key.nullable);
    assert_eq!(table.name, "people");
    assert_eq!(table.columns.first().unwrap().name, "name");
    match table.columns.first().unwrap().data_type {
        SqlType::Varchar => {}
        _ => panic!("failed"),
    }
    assert_eq!(table.columns.last().unwrap().name, "email");
    match table.columns.last().unwrap().data_type {
        SqlType::Varchar => {}
        _ => panic!("failed"),
    }
}

#[test]
fn binary_engine_test_creates_a_primary_key_id_if_none_given() {
    let mut engine = BinaryEngine::new();
    engine.create_table(s("people"), vec![vec![s("name"), s("VARCHAR")]]).unwrap();
    let table = engine.load_meta_data("people").unwrap();
    assert_eq!(table.primary_key.name, "id");
    match table.primary_key.data_type {
        SqlType::Integer => {}
        _ => panic!("failed"),
    }
    assert!(!table.primary_key.nullable);
}

#[test]
fn binary_engine_test_sets_primary_key_correctly_on_create_table_command() {
    let mut engine = BinaryEngine::new();
    engine
        .create_table(
            s("people"),
            vec![vec![s("name"), s("VARCHAR")], vec![s("email"), s("VARCHAR"), s("PRIMARY KEY")]],
        )
        .unwrap();
    let table = engine.load_meta_data("people").unwrap();
    assert_eq!(table.primary_key.name, "email");
    match table.primary_key.data_type {
        SqlType::Varchar => {}
        _ => panic!("failed"),
    }
    assert!(!table.primary_key.nullable);
}

#[test]
fn binary_engine_test_can_set_indices_after_table_creation() {
    let mut engine = BinaryEngine::new();
    engine
        .create_table(s("people"), vec![vec![s("name"), s("VARCHAR")], vec![s("email"), s("VARCHAR")]])
        .unwrap();
    engine.create_index(s("people"), s("email"), s("email_index")).unwrap();
    let table = engine.load_meta_data("people").unwrap();
    assert_eq!(table.indices.len(), 2);
    assert_eq!(table.indices.last().unwrap().column_name, "email");
}

#[test]
fn binary_engine_test_cannot_set_the_same_index_twice() {
    let mut engine = BinaryEngine::new();
    engine
        .create_table(s("people"), vec![vec![s("name"), s("VARCHAR")], vec![s("email"), s("VARCHAR")]])
        .unwrap();
    engine.create_index(s("people"), s("email"), s("email_index")).unwrap();
    match engine.create_index(s("people"), s("email"), s("email_index")) {
        Ok(..) => panic!(),
        Err(message) => assert_eq!(message, format!("'{}({})' is already indexed.", "people", "email")),
    }
}

#[test]
fn binary_engine_test_updates_primary_key_index_on_inserts() {
    let mut engine = BinaryEngine::new();
    engine.create_table(s("people"), vec![vec![s("name"), s("VARCHAR")]]).unwrap();
    engine
        .insert(
            s("people"),
            vec![s("name"), s("email")],
            vec![vec![s("john"), s("john@mail.com")], vec![s("doe"), s("doe@mail.com")]],
        )
        .unwrap();
    let table = engine.load_meta_data("people").unwrap();
    assert!(table.indices.first().unwrap().data_page_indices("2").is_ok());
}

#[test]
fn binary_engine_test_creates_an_index_on_the_primary_key() {
    let mut engine = BinaryEngine::new();
    engine.create_table(s("people"), vec![vec![s("name"), s("VARCHAR")]]).unwrap();
    let table = engine.load_meta_data("people").unwrap();
    assert_eq!(table.indices.len(), 1);
    assert_eq!(table.indices.first().unwrap().column_name, "id");
}

#[test]
fn binary_engine_test_automatically_increments_primary_key_if_none_given() {
    let mut engine = BinaryEngine::new();
    engine.create_table(s("people"), vec![vec![s("name"), s("VARCHAR")]]).unwrap();
    engine.insert(s("people"), vec![s("name")], vec![vec![s("john")], vec![s("doe")]]).unwrap();
    let records = engine.select(s("people"), vec![], vec![]).unwrap().records.unwrap();
    assert!(records.first().unwrap().get("id").unwrap().fullfills("1"));
    assert!(records.last().unwrap().get("id").unwrap().fullfills("2"));
}

#[test]
fn binary_engine_test_can_insert_into_table() {
    let mut engine = BinaryEngine::new();
    engine
        .create_table(s("people"), vec![vec![s("name"), s("VARCHAR")], vec![s("email"), s("VARCHAR")]])
        .unwrap();
    engine
        .insert(
            s("people"),
            vec![s("name"), s("email")],
            vec![vec![s("john"), s("john@mail.com")], vec![s("doe"), s("doe@mail.com")]],
        )
        .unwrap();
}

#[test]
fn binary_engine_test_cannot_insert_invalid_type_into_table() {
    let mut engine = BinaryEngine::new();
    engine.create_table(s("people"), vec![vec![s("number"), s("integer")]]).unwrap();
    if engine.insert(s("people"), vec![s("number")], vec![vec![s("john")]]).is_ok() {
        panic!()
    }
}

#[test]
fn binary_engine_test_can_select_from_table() {
    let mut engine = BinaryEngine::new();
    engine
        .create_table(s("people"), vec![vec![s("name"), s("VARCHAR")], vec![s("email"), s("VARCHAR")]])
        .unwrap();
    engine
        .insert(
            s("people"),
            vec![s("name"), s("email")],
            vec![vec![s("john"), s("john@mail.com")], vec![s("doe"), s("doe@mail.com")]],
        )
        .unwrap();
    match engine.select(s("people"), vec![s("name")], vec![]) {
        Ok(response) => {
            let records = response.records.unwrap();
            assert_eq!(records.len(), 2);
            assert!(records.first().unwrap().contains_key("name"));
            assert!(!records.first().unwrap().contains_key("email"));
        }
        Err(message) => panic!("{}", message),
    }
}

#[test]
fn binary_engine_test_cannot_select_from_table_that_does_not_exist() {
    let engine = BinaryEngine::new();
    let result = engine.select(s("non_existant_table"), vec![s("name")], vec![]);
    if result.is_ok() {
        panic!()
    }
}

#[test]
fn binary_engine_test_cannot_select_columns_from_table_that_do_not_exist() {
    let mut engine = BinaryEngine::new();
    engine.create_table(s("people"), vec![vec![s("name"), s("VARCHAR")]]).unwrap();
    engine.insert(s("people"), vec![s("name")], vec![vec![s("john")], vec![s("doe")]]).unwrap();
    let result = engine.select(s("people"), vec![s("email")], vec![]);
    if result.is_ok() {
        panic!()
    }
}

#[test]
fn binary_engine_test_can_select_with_multiple_where_clauses() {
    let mut engine = BinaryEngine::new();
    engine
        .create_table(s("people"), vec![vec![s("name"), s("VARCHAR")], vec![s("email"), s("VARCHAR")]])
        .unwrap();
    engine
        .insert(
            s("people"),
            vec![s("name"), s("email")],
            vec![
                vec![s("john"), s("john")],
                vec![s("doe"), s("john")],
                vec![s("martin"), s("john")],
                vec![s("doe"), s("john")],
                vec![s("some"), s("some@mail.com")],
            ],
        )
        .unwrap();
    let where_clauses = clauses(&[("name", "some"), ("email", "some@mail.com")]);
    match engine.select(s("people"), vec![], where_clauses) {
        Ok(response) => {
            let records = response.records.unwrap();
            assert_eq!(records.len(), 1);
            assert!(records.first().unwrap().get("name").unwrap().fullfills("some"));
            assert!(records.first().unwrap().get("email").unwrap().fullfills("some@mail.com"));
        }
        Err(_) => panic!(),
    }
}

#[test]
fn binary_engine_test_can_select_with_where_clause() {
    let mut engine = BinaryEngine::new();
    engine
        .create_table(s("people"), vec![vec![s("name"), s("VARCHAR")], vec![s("email"), s("VARCHAR")]])
        .unwrap();
    engine
        .insert(
            s("people"),
            vec![s("name")],
            vec![vec![s("john")], vec![s("doe")], vec![s("martin")], vec![s("doe")], vec![s("some")]],
        )
        .unwrap();
    let where_clauses = clauses(&[("id", "1")]);
    match engine.select(s("people"), vec![s("name")], where_clauses) {
        Ok(response) => {
            let records = response.records.unwrap();
            assert_eq!(records.len(), 1);
            assert!(records.first().unwrap().get("name").unwrap().fullfills("john"));
        }
        Err(_) => panic!(),
    }
}

#[test]
fn test_can_write_metadata_to_disk() {
    let mut engine = BinaryEngine::new();
    let table_name = "test_table";

    engine
        .create_table(
            table_name.to_string(),
            vec![vec![s("name"), s("VARCHAR")], vec![s("email"), s("VARCHAR")]],
        )
        .unwrap();

    let (metadata, _) = engine.table_files(table_name).unwrap();
    let table = engine.table_manager.load_meta_data(&metadata).unwrap();

    assert_eq!(table.name, table_name);
    assert_eq!(table.columns.first().unwrap().name, "name");
    match table.columns.first().unwrap().data_type {
        SqlType::Varchar => {}
        _ => panic!("failed"),
    }
    assert_eq!(table.columns.last().unwrap().name, "email");
    match table.columns.last().unwrap().data_type {
        SqlType::Varchar => {}
        _ => panic!("failed"),
    }
}
