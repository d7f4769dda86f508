use r_sql::engine::{BinaryEngine, TableManager, Type};
use r_sql::file_paths::FilePaths;
use r_sql::metadata::SqlType;
use r_sql::sql_engine::SQLEngine;
use r_sql::sql_parser::{graphemes, SqlParser, StatementType};
use r_sql::table::is_primary_key_marker;
use r_sql::value::Value;

fn s(v: &str) -> String {
    v.to_string()
}

fn people(engine: &mut BinaryEngine) {
    engine
        .create_table(s("people"), vec![vec![s("name"), s("VARCHAR")], vec![s("email"), s("VARCHAR")]])
        .unwrap();
}

#[test]
fn default_primary_key_is_an_integer_id_with_one_index() {
    let mut engine = BinaryEngine::new();
    people(&mut engine);
    let table = engine.load_meta_data("people").unwrap();
    assert_eq!(table.primary_key.name, "id");
    assert!(matches!(table.primary_key.data_type, SqlType::Integer));
    assert!(!table.primary_key.nullable);
    assert_eq!(table.indices.len(), 1);
    assert_eq!(table.indices[0].column_name, "id");
    assert_eq!(table.indices[0].name, "id_index");
}

#[test]
fn flagged_primary_key_is_left_out_of_the_columns() {
    let mut engine = BinaryEngine::new();
    engine
        .create_table(
            s("people"),
            vec![vec![s("code"), s("integer"), s("primary key")], vec![s("name"), s("VARCHAR")]],
        )
        .unwrap();
    let table = engine.load_meta_data("people").unwrap();
    assert_eq!(table.primary_key.name, "code");
    assert!(matches!(table.primary_key.data_type, SqlType::Integer));
    assert_eq!(table.columns.len(), 1);
    assert_eq!(table.columns[0].name, "name");
}

#[test]
fn unknown_column_type_is_refused() {
    let mut engine = BinaryEngine::new();
    assert!(engine.create_table(s("people"), vec![vec![s("name"), s("varcha")]]).is_err());
    assert!(engine.load_meta_data("people").is_err());
}

#[test]
fn keys_continue_across_insert_batches() {
    let mut engine = BinaryEngine::new();
    people(&mut engine);
    engine.insert(s("people"), vec![s("name")], vec![vec![s("a")], vec![s("b")]]).unwrap();
    engine.insert(s("people"), vec![s("name")], vec![vec![s("c")]]).unwrap();
    let records = engine.select(s("people"), vec![], vec![]).unwrap().records.unwrap();
    let keys: Vec<String> = records.iter().map(|r| r.get("id").unwrap().to_text()).collect();
    assert_eq!(keys, vec![s("1"), s("2"), s("3")]);
    assert_eq!(engine.load_meta_data("people").unwrap().latest_primary_key, 3);
}

#[test]
fn duplicate_index_is_refused_and_leaves_the_indices() {
    let mut engine = BinaryEngine::new();
    people(&mut engine);
    engine.create_index(s("people"), s("email"), s("by_email")).unwrap();
    let err = engine.create_index(s("people"), s("email"), s("again")).unwrap_err();
    assert!(err.contains("people"));
    assert!(err.contains("email"));
    let table = engine.load_meta_data("people").unwrap();
    assert_eq!(table.indices.len(), 2);
    assert_eq!(table.indices[1].name, "by_email");
}

#[test]
fn create_index_errors() {
    let mut engine = BinaryEngine::new();
    assert_eq!(engine.create_index(s("none"), s("email"), s("i")).unwrap_err(), "Table does not exist");
    people(&mut engine);
    assert_eq!(
        engine.create_index(s("people"), s("age"), s("i")).unwrap_err(),
        "'age' does not exist on 'people'"
    );
}

#[test]
fn new_index_covers_earlier_records() {
    let mut engine = BinaryEngine::new();
    people(&mut engine);
    engine
        .insert(s("people"), vec![s("name"), s("email")], vec![vec![s("john"), s("j@mail.com")]])
        .unwrap();
    engine.create_index(s("people"), s("email"), s("by_email")).unwrap();
    let table = engine.load_meta_data("people").unwrap();
    assert_eq!(table.indices[1].data_page_indices("j@mail.com").unwrap(), vec![1]);
    let records = engine
        .select(s("people"), vec![s("name")], vec![(s("email"), s("j@mail.com"))])
        .unwrap()
        .records
        .unwrap();
    assert_eq!(records.len(), 1);
}

#[test]
fn selecting_a_missing_column_fails_even_without_matches() {
    let mut engine = BinaryEngine::new();
    people(&mut engine);
    let result = engine.select(s("people"), vec![s("age")], vec![(s("name"), s("nobody"))]);
    assert_eq!(result.err().unwrap(), "Please choose only columns that exist on this table.");
}

#[test]
fn missing_table_and_missing_column_messages_differ() {
    let mut engine = BinaryEngine::new();
    let missing_table = engine.select(s("people"), vec![s("name")], vec![]).err().unwrap();
    people(&mut engine);
    let missing_column = engine.select(s("people"), vec![s("age")], vec![]).err().unwrap();
    assert_eq!(missing_table, "This table does not exist.");
    assert_ne!(missing_table, missing_column);
}

#[test]
fn insert_errors() {
    let mut engine = BinaryEngine::new();
    assert_eq!(
        engine.insert(s("people"), vec![s("name")], vec![vec![s("a")]]).unwrap_err(),
        "Table 'people' does not exist."
    );
    engine.create_table(s("people"), vec![vec![s("age"), s("INTEGER")]]).unwrap();
    assert_eq!(
        engine.insert(s("people"), vec![s("age")], vec![vec![s("1"), s("2")]]).unwrap_err(),
        "Invalid query. Your provided values must match the provided columns."
    );
    assert_eq!(
        engine.insert(s("people"), vec![s("age")], vec![vec![s("12")], vec![s("x1")]]).unwrap_err(),
        "Type does not allow x1 value"
    );
    assert!(engine.insert(s("people"), vec![s("age")], vec![vec![s("-12")]]).is_ok());
    let records = engine.select(s("people"), vec![], vec![]).unwrap().records.unwrap();
    assert_eq!(records.len(), 1);
}

#[test]
fn metadata_round_trips_through_bytes() {
    let mut engine = BinaryEngine::new();
    people(&mut engine);
    engine.create_index(s("people"), s("email"), s("by_email")).unwrap();
    engine
        .insert(s("people"), vec![s("name"), s("email")], vec![vec![s("a"), s("a@mail.com")]])
        .unwrap();
    let table = engine.load_meta_data("people").unwrap();
    let manager = TableManager::new();
    let bytes = manager.store_meta_data(&table);
    let back = manager.load_meta_data(&bytes).unwrap();
    assert_eq!(back.name, table.name);
    assert_eq!(back.primary_key.name, table.primary_key.name);
    assert_eq!(back.latest_primary_key, 1);
    assert_eq!(back.columns.len(), 2);
    assert_eq!(back.indices.len(), 2);
    assert_eq!(back.indices[1].data_page_indices("a@mail.com").unwrap(), vec![1]);
    assert!(manager.load_meta_data(&vec![1, 2, 3]).is_err());
}

#[test]
fn full_pages_spill_into_new_pages_and_are_all_read() {
    let mut engine = BinaryEngine::new();
    people(&mut engine);
    let long = "x".repeat(200);
    let rows: Vec<Vec<String>> = (0..200).map(|i| vec![format!("{}{}", long, i)]).collect();
    engine.insert(s("people"), vec![s("name")], rows).unwrap();
    let (_, pages) = engine.table_files("people").unwrap();
    assert!(pages.len() >= 2);
    for page in &pages[..pages.len() - 1] {
        assert!(page.len() >= 16000);
    }
    let records = engine.select(s("people"), vec![], vec![]).unwrap().records.unwrap();
    assert_eq!(records.len(), 200);
    let table = engine.load_meta_data("people").unwrap();
    let last_key = table.indices[0].data_page_indices("200").unwrap();
    assert_eq!(last_key, vec![pages.len()]);
}

#[test]
fn tables_survive_their_files() {
    let mut engine = BinaryEngine::new();
    people(&mut engine);
    engine.insert(s("people"), vec![s("name")], vec![vec![s("john")], vec![s("doe")]]).unwrap();
    let (metadata, pages) = engine.table_files("people").unwrap();
    let mut other = BinaryEngine::new();
    assert_eq!(other.load_table(&metadata, &pages).unwrap(), "people");
    let records = other.select(s("people"), vec![s("name")], vec![(s("id"), s("2"))]).unwrap().records.unwrap();
    assert_eq!(records.len(), 1);
    assert!(records[0].get("name").unwrap().fullfills("doe"));
    assert!(other.load_table(&metadata, &vec![vec![9, 9]]).is_err());
}

#[test]
fn users_scenario_selects_only_the_name() {
    let mut engine = SQLEngine::new(Type::Binary);
    engine.execute(s("CREATE TABLE users(name VARCHAR, email VARCHAR);")).unwrap();
    engine
        .execute(s("INSERT INTO users(name,email) VALUES ('john','john@mail.com'),('doe','doe@mail.com');"))
        .unwrap();
    let records = engine.execute(s("SELECT name FROM users;")).unwrap().records.unwrap();
    assert_eq!(records.len(), 2);
    for record in &records {
        assert_eq!(record.fields.len(), 1);
        assert!(record.contains_key("name"));
    }
}

#[test]
fn generated_ids_are_one_and_two() {
    let mut engine = SQLEngine::new(Type::Binary);
    engine.execute(s("CREATE TABLE t(name VARCHAR);")).unwrap();
    engine.execute(s("INSERT INTO t(name) VALUES ('john'), ('doe');")).unwrap();
    let records = engine.execute(s("SELECT * FROM t;")).unwrap().records.unwrap();
    assert_eq!(records.len(), 2);
    assert!(records[0].get("id").unwrap().fullfills("1"));
    assert!(records[1].get("id").unwrap().fullfills("2"));
    assert!(records[0].get("name").unwrap().fullfills("'john'"));
}

#[test]
fn tokens_split_on_spaces_and_punctuation() {
    let tokens = graphemes("SELECT a,b FROM\tt;");
    assert_eq!(tokens, vec![s("SELECT"), s("a"), s(","), s("b"), s("FROM"), s("t"), s(";")]);
}

#[test]
fn parse_errors() {
    let parser = SqlParser::new();
    assert_eq!(parser.parse_query(s("SELECT * FROM t")).err().unwrap(), "Your statement must end with a semicolon.");
    assert_eq!(parser.parse_query(s(";")).err().unwrap(), "Invalid query.");
    assert!(parser.parse_query(s("DROP TABLE t;")).is_err());
}

#[test]
fn file_layout() {
    let paths = FilePaths::new(s("/data"));
    assert_eq!(paths.table_path("users"), "/data/users");
    assert_eq!(paths.meta_data_path("users"), "/data/users/metadata.bin");
    assert_eq!(paths.data_page("users", 12), "/data/users/data_page_12.bin");
    assert_eq!(paths.index_path("users", "id_index"), "/data/users/id_index");
}

#[test]
fn integer_values_compare_by_their_text() {
    assert!(Value::Int(-7).fullfills("-7"));
    assert_eq!(Value::Int(42).to_text(), "42");
    assert!(SqlType::parse("Integer").is_some());
    assert!(SqlType::parse("text").is_none());
}

#[test]
fn missing_index_key_has_its_message() {
    let mut engine = BinaryEngine::new();
    people(&mut engine);
    let table = engine.load_meta_data("people").unwrap();
    assert_eq!(table.indices[0].data_page_indices("9").unwrap_err(), "Key does not exist.");
}

#[test]
fn supplied_primary_key_is_kept() {
    let mut engine = BinaryEngine::new();
    engine
        .create_table(
            s("people"),
            vec![vec![s("code"), s("INTEGER"), s("PRIMARY KEY")], vec![s("name"), s("VARCHAR")]],
        )
        .unwrap();
    engine.insert(s("people"), vec![s("code"), s("name")], vec![vec![s("7"), s("a")]]).unwrap();
    let records = engine.select(s("people"), vec![], vec![(s("code"), s("7"))]).unwrap().records.unwrap();
    assert_eq!(records.len(), 1);
    assert!(records[0].get("name").unwrap().fullfills("a"));
    assert_eq!(engine.load_meta_data("people").unwrap().latest_primary_key, 0);
    assert_eq!(
        engine.insert(s("people"), vec![s("code")], vec![vec![s("x")]]).unwrap_err(),
        "Type does not allow x value"
    );
}

#[test]
fn repeated_values_list_their_page_once() {
    let mut engine = BinaryEngine::new();
    people(&mut engine);
    engine.create_index(s("people"), s("name"), s("by_name")).unwrap();
    engine
        .insert(s("people"), vec![s("name")], vec![vec![s("doe")], vec![s("john")], vec![s("doe")]])
        .unwrap();
    let table = engine.load_meta_data("people").unwrap();
    assert_eq!(table.indices[1].data_page_indices("doe").unwrap(), vec![1]);
    let records = engine.select(s("people"), vec![], vec![(s("name"), s("doe"))]).unwrap().records.unwrap();
    assert_eq!(records.len(), 2);
}

#[test]
fn upper_case_words_are_read_exactly() {
    assert!(matches!(SqlType::from_upper("VARCHAR"), Some(SqlType::Varchar)));
    assert!(SqlType::from_upper("varchar").is_none());
    assert_eq!(StatementType::from_upper("CREATE TABLE").id(), StatementType::CreateTable.id());
    assert_eq!(StatementType::from_upper("create table").id(), StatementType::Invalid.id());
    assert!(is_primary_key_marker("PRIMARY KEY"));
    assert!(!is_primary_key_marker("primary key"));
}

#[test]
fn mismatched_rows_are_refused_by_the_parser() {
    let mut engine = SQLEngine::new(Type::Binary);
    engine.execute(s("CREATE TABLE t(name VARCHAR, email VARCHAR);")).unwrap();
    assert_eq!(
        engine.execute(s("INSERT INTO t(name, email) VALUES ('a');")).unwrap_err(),
        "Invalid query. Your provided values must match the provided columns."
    );
}
