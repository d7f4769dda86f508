use r_sql::engine::BinaryEngine;

fn s(v: &str) -> String {
    v.to_string()
}

#[allow(dead_code)]
fn clauses(pairs: &[(&str, &str)]) -> Vec<(String, String)> {
    pairs.iter().map(|(k, v)| (k.to_string(), v.to_string())).collect()
}

#[test]
fn insert_test_can_insert_into_table() {
    let mut engine = BinaryEngine::new();
    engine
        .create_table(s("people"), vec![vec![s("name"), s("VARCHAR")], vec![s("email"), s("VARCHAR")]])
        .unwrap();
    engine
        .insert(
            s("people"),
            vec![s("name"), s("email")],
            vec![vec![s("john"), s("john@mail.com")], vec![s("doe"), s("doe@mail.com")]],
        )
        .unwrap();
}

#[test]
fn insert_test_cannot_insert_invalid_type_into_table() {
    let mut engine = BinaryEngine::new();
    engine.create_table(s("people"), vec![vec![s("number"), s("integer")]]).unwrap();
    if engine.insert(s("people"), vec![s("number")], vec![vec![s("john")]]).is_ok() {
        panic!()
    }
}
