use r_sql::metadata::SqlType;
use r_sql::table::Table;
use r_sql::value::Value;

#[test]
fn test_can_compare_int_values() {
    assert!(Value::Int(10).fullfills("10"));
    assert!(!Value::Int(10).fullfills("11"));
}

#[test]
fn test_can_compare_string_values() {
    assert!(Value::Text(String::from("here")).fullfills("here"));
    assert!(!Value::Text(String::from("here")).fullfills("here "));
}

#[test]
fn test_can_parse_a_varchar() {
    match SqlType::parse("varchar") {
        Some(SqlType::Varchar) => {}
        _ => panic!("wrong type"),
    }
}

#[test]
fn test_can_parse_an_integer() {
    match SqlType::parse("integer") {
        Some(SqlType::Integer) => {}
        _ => panic!("wrong type"),
    }
}

#[test]
fn test_can_create_a_table_with_the_columns_input() {
    let table = Table::new(
        "my_table".to_string(),
        vec![
            vec![String::from("name"), String::from("VARCHAR")],
            vec![String::from("email"), String::from("VARCHAR")],
        ],
    );

    assert_eq!(table.columns.first().unwrap().name, "name");
    match table.columns.first().unwrap().data_type {
        SqlType::Varchar => {}
        _ => panic!("failed"),
    }

    assert_eq!(table.columns.last().unwrap().name, "email");

    match table.columns.last().unwrap().data_type {
        SqlType::Varchar => {}
        _ => panic!("failed"),
    }
}
