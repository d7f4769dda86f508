use r_sql::engine::BinaryEngine;

fn s(v: &str) -> String {
    v.to_string()
}

#[allow(dead_code)]
fn clauses(pairs: &[(&str, &str)]) -> Vec<(String, String)> {
    pairs.iter().map(|(k, v)| (k.to_string(), v.to_string())).collect()
}

#[test]
fn select_test_can_select_from_table() {
    let mut engine = BinaryEngine::new();
    engine
        .create_table(s("people"), vec![vec![s("name"), s("VARCHAR")], vec![s("email"), s("VARCHAR")]])
        .unwrap();
    engine
        .insert(
            s("people"),
            vec![s("name"), s("email")],
            vec![vec![s("john"), s("john@mail.com")], vec![s("doe"), s("doe@mail.com")]],
        )
        .unwrap();
    match engine.select(s("people"), vec![s("name")], vec![]) {
        Ok(response) => {
            let records = response.records.unwrap();
            assert_eq!(records.len(), 2);
            assert!(records.first().unwrap().contains_key("name"));
            assert!(!records.first().unwrap().contains_key("email"));
        }
        Err(message) => panic!("{}", message),
    }
}

#[test]
fn select_test_cannot_select_from_table_that_does_not_exist() {
    let engine = BinaryEngine::new();
    let result = engine.select(s("non_existant_table"), vec![s("name")], vec![]);
    if result.is_ok() {
        panic!()
    }
}

#[test]
fn select_test_cannot_select_columns_from_table_that_do_not_exist() {
    let mut engine = BinaryEngine::new();
    engine.create_table(s("people"), vec![vec![s("name"), s("VARCHAR")]]).unwrap();
    engine.insert(s("people"), vec![s("name")], vec![vec![s("john")], vec![s("doe")]]).unwrap();
    let result = engine.select(s("people"), vec![s("email")], vec![]);
    if result.is_ok() {
        panic!()
    }
}

#[test]
fn select_test_can_select_with_multiple_where_clauses() {
    let mut engine = BinaryEngine::new();
    engine
        .create_table(s("people"), vec![vec![s("name"), s("VARCHAR")], vec![s("email"), s("VARCHAR")]])
        .unwrap();
    engine
        .insert(
            s("people"),
            vec![s("name"), s("email")],
            vec![
                vec![s("john"), s("john")],
                vec![s("doe"), s("john")],
                vec![s("martin"), s("john")],
                vec![s("doe"), s("john")],
                vec![s("some"), s("some@mail.com")],
            ],
        )
        .unwrap();
    let where_clauses = clauses(&[("name", "some"), ("email", "some@mail.com")]);
    match engine.select(s("people"), vec![], where_clauses) {
        Ok(response) => {
            let records = response.records.unwrap();
            assert_eq!(records.len(), 1);
            assert!(records.first().unwrap().get("name").unwrap().fullfills("some"));
            assert!(records.first().unwrap().get("email").unwrap().fullfills("some@mail.com"));
        }
        Err(_) => panic!(),
    }
}

#[test]
fn select_test_can_select_with_where_clause() {
    let mut engine = BinaryEngine::new();
    engine
        .create_table(s("people"), vec![vec![s("name"), s("VARCHAR")], vec![s("email"), s("VARCHAR")]])
        .unwrap();
    engine
        .insert(
            s("people"),
            vec![s("name")],
            vec![vec![s("john")], vec![s("doe")], vec![s("martin")], vec![s("doe")], vec![s("some")]],
        )
        .unwrap();
    let where_clauses = clauses(&[("id", "1")]);
    match engine.select(s("people"), vec![s("name")], where_clauses) {
        Ok(response) => {
            let records = response.records.unwrap();
            assert_eq!(records.len(), 1);
            assert!(records.first().unwrap().get("name").unwrap().fullfills("john"));
        }
        Err(_) => panic!(),
    }
}
