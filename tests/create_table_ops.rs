use r_sql::engine::BinaryEngine;
use r_sql::metadata::SqlType;

fn s(v: &str) -> String {
    v.to_string()
}

#[allow(dead_code)]
fn clauses(pairs: &[(&str, &str)]) -> Vec<(String, String)> {
    pairs.iter().map(|(k, v)| (k.to_string(), v.to_string())).collect()
}

#[test]
fn create_table_test_can_create_a_table_and_write_metadata_to_disk_correctly() {
    let mut engine = BinaryEngine::new();
    engine
        .create_table(
            s("people"),
            vec![
                vec![s("unique_id"), s("PRIMARY KEY")],
                vec![s("name"), s("VARCHAR")],
                vec![s("email"), s("VARCHAR")],
            ],
        )
        .unwrap();
    let table = engine.load_meta_data("people").unwrap();
    assert_eq!(table.primary_key.name, "unique_id");
    match table.primary_key.data_type {
        SqlType::Integer => {}
        _ => panic!("failed"),
    }
    assert!(!table.primary_key.nullable);
    assert_eq!(table.name, "people");
    assert_eq!(table.columns.first().unwrap().name, "name");
    match table.columns.first().unwrap().data_type {
        SqlType::Varchar => {}
        _ => panic!("failed"),
    }
    assert_eq!(table.columns.last().unwrap().name, "email");
    match table.columns.last().unwrap().data_type {
        SqlType::Varchar => {}
        _ => panic!("failed"),
    }
}

#[test]
fn create_table_test_creates_a_primary_key_id_if_none_given() {
    let mut engine = BinaryEngine::new();
    engine.create_table(s("people"), vec![vec![s("name"), s("VARCHAR")]]).unwrap();
    let table = engine.load_meta_data("people").unwrap();
    assert_eq!(table.primary_key.name, "id");
    match table.primary_key.data_type {
        SqlType::Integer => {}
        _ => panic!("failed"),
    }
    assert!(!table.primary_key.nullable);
}

#[test]
fn create_table_test_sets_primary_key_correctly_on_create_table_command() {
    let mut engine = BinaryEngine::new();
    engine
        .create_table(
            s("people"),
            vec![vec![s("name"), s("VARCHAR")], vec![s("email"), s("VARCHAR"), s("PRIMARY KEY")]],
        )
        .unwrap();
    let table = engine.load_meta_data("people").unwrap();
    assert_eq!(table.primary_key.name, "email");
    match table.primary_key.data_type {
        SqlType::Varchar => {}
        _ => panic!("failed"),
    }
    assert!(!table.primary_key.nullable);
}

#[test]
fn create_table_test_creates_an_index_on_the_primary_key() {
    let mut engine = BinaryEngine::new();
    engine.create_table(s("people"), vec![vec![s("name"), s("VARCHAR")]]).unwrap();
    let table = engine.load_meta_data("people").unwrap();
    assert_eq!(table.indices.len(), 1);
    assert_eq!(table.indices.first().unwrap().column_name, "id");
}

#[test]
fn create_table_test_automatically_increments_primary_key_if_none_given() {
    let mut engine = BinaryEngine::new();
    engine.create_table(s("people"), vec![vec![s("name"), s("VARCHAR")]]).unwrap();
    engine.insert(s("people"), vec![s("name")], vec![vec![s("john")], vec![s("doe")]]).unwrap();
    let records = engine.select(s("people"), vec![], vec![]).unwrap().records.unwrap();
    assert!(records.first().unwrap().get("id").unwrap().fullfills("1"));
    assert!(records.last().unwrap().get("id").unwrap().fullfills("2"));
}
