use r_sql::engine::BinaryEngine;

fn s(v: &str) -> String {
    v.to_string()
}

#[allow(dead_code)]
fn clauses(pairs: &[(&str, &str)]) -> Vec<(String, String)> {
    pairs.iter().map(|(k, v)| (k.to_string(), v.to_string())).collect()
}

#[test]
fn create_index_test_can_set_indices_after_table_creation() {
    let mut engine = BinaryEngine::new();
    engine
        .create_table(s("people"), vec![vec![s("name"), s("VARCHAR")], vec![s("email"), s("VARCHAR")]])
        .unwrap();
    engine.create_index(s("people"), s("email"), s("email_index")).unwrap();
    let table = engine.load_meta_data("people").unwrap();
    assert_eq!(table.indices.len(), 2);
    assert_eq!(table.indices.last().unwrap().column_name, "email");
}

#[test]
fn create_index_test_cannot_set_the_same_index_twice() {
    let mut engine = BinaryEngine::new();
    engine
        .create_table(s("people"), vec![vec![s("name"), s("VARCHAR")], vec![s("email"), s("VARCHAR")]])
        .unwrap();
    engine.create_index(s("people"), s("email"), s("email_index")).unwrap();
    match engine.create_index(s("people"), s("email"), s("email_index")) {
        Ok(..) => panic!(),
        Err(message) => assert_eq!(message, format!("'{}({})' is already indexed.", "people", "email")),
    }
}

#[test]
fn create_index_test_updates_primary_key_index_on_inserts() {
    let mut engine = BinaryEngine::new();
    engine.create_table(s("people"), vec![vec![s("name"), s("VARCHAR")]]).unwrap();
    engine
        .insert(
            s("people"),
            vec![s("name"), s("email")],
            vec![vec![s("john"), s("john@mail.com")], vec![s("doe"), s("doe@mail.com")]],
        )
        .unwrap();
    let table = engine.load_meta_data("people").unwrap();
    assert!(table.indices.first().unwrap().data_page_indices("2").is_ok());
}
