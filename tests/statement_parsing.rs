use r_sql::sql_parser::{SqlParser, StatementType};
use r_sql::statement::Statement;

fn clause<'a>(clauses: &'a [(String, String)], key: &str) -> Option<&'a String> {
    clauses.iter().find(|(k, _)| k == key).map(|(_, v)| v)
}

fn parsed_text(query: &str) -> String {
    SqlParser::new().parse_query(String::from(query)).unwrap().statement.to_text()
}

#[test]
fn statement_type_test_creates_select_command_correctly() {
    let query_type = StatementType::new("select", "asdfasdf");
    assert_eq!(query_type.id(), StatementType::Select.id());

    let query_type = StatementType::new("SELECT", "sadf");
    assert_eq!(query_type.id(), StatementType::Select.id());

    let query_type = StatementType::new("sElEcT", "1209nasdc");
    assert_eq!(query_type.id(), StatementType::Select.id());
}

#[test]
fn statement_type_test_creates_insert_command_correctly() {
    let query_type = StatementType::new("insert", "into");
    assert_eq!(query_type.id(), StatementType::InsertInto.id());
}

#[test]
fn statement_type_test_creates_create_table_command_correctly() {
    let query_type = StatementType::new("create", "table");
    assert_eq!(query_type.id(), StatementType::CreateTable.id());
}

#[test]
fn test_creates_create_index_command_correctly() {
    let query_type = StatementType::new("create", "index");
    assert_eq!(query_type.id(), StatementType::CreateIndex.id());
}

#[test]
fn test_can_parse_a_create_index_statement() {
    assert_eq!(
        parsed_text("CREATE INDEX my_index ON users(email);"),
        String::from("CREATE INDEX my_index\nON users(email);")
    );
}

#[test]
fn create_table_parser_test_can_parse_a_create_table_statement() {
    assert_eq!(
        parsed_text(
            "CREATE TABLE users(
                id PRIMARY KEY,
                name VARCHAR,
                email VARCHAR
            );"
        ),
        String::from("CREATE TABLE users(\nid PRIMARY KEY,\nname VARCHAR,\nemail VARCHAR\n);")
    );
}

#[test]
fn create_table_parser_test_can_parse_a_create_table_statement_without_unnecessary_whitespace() {
    assert_eq!(
        parsed_text("CREATE TABLE users(id PRIMARY KEY,name VARCHAR, email VARCHAR);"),
        String::from("CREATE TABLE users(\nid PRIMARY KEY,\nname VARCHAR,\nemail VARCHAR\n);")
    );
}

#[test]
fn insert_into_parser_test_can_parse_an_insert_statement() {
    assert_eq!(
        parsed_text(
            "INSERT INTO users(name,email, number) VALUES ('felix', 'felix@gmail.de', 12345), ('paul', 'paul@mail.com', 67890);"
        ),
        String::from("INSERT INTO users(\nname, email, number\n) VALUES (\n'felix', 'felix@gmail.de', 12345\n), (\n'paul', 'paul@mail.com', 67890\n);")
    );
}

#[test]
fn insert_into_parser_test_throws_for_insert_statement_where_some_values_tuple_length_does_not_match_columns_length(
) {
    let parser_result = SqlParser::new().parse_query(String::from(
        "INSERT INTO users(name,email, number) VALUES ('felix', 'felix@gmail.de', 12345), ('paul', 'paul@mail.com');",
    ));

    if parser_result.is_ok() {
        panic!()
    }
}

#[test]
fn select_parser_test_can_create_a_parsed_input_from_a_simple_select_query() {
    assert_eq!(parsed_text("SELECT * FROM users;"), String::from("SELECT * FROM users;"));
}

#[test]
fn select_parser_test_can_create_a_parsed_input_from_a_select_query_for_specific_columns() {
    assert_eq!(
        parsed_text("SELECT id,foreign_id, number,name,job, another FROM users;"),
        String::from("SELECT id, foreign_id, number, name, job, another FROM users;")
    );
}

#[test]
fn test_can_create_a_parsed_input_from_a_select_query_with_a_where_statement() {
    let query = SqlParser::new().parse_query(String::from("SELECT * FROM users WHERE id = 5;"));

    match query.unwrap().statement {
        Statement::Select { where_clauses, selection, .. } => {
            assert_eq!(clause(&where_clauses, "id").unwrap(), "5");
            assert_eq!(selection.len(), 1);
            assert_eq!(selection.first().unwrap(), "*");
        }
        _ => panic!(),
    }
}

#[test]
fn test_can_create_a_parsed_input_from_a_select_query_with_multiple_where_statements() {
    let query = SqlParser::new().parse_query(String::from(
        "SELECT * FROM users WHERE ranking_number = 1 AND name = 'rust';",
    ));

    match query.unwrap().statement {
        Statement::Select { where_clauses, .. } => {
            assert_eq!(clause(&where_clauses, "ranking_number").unwrap(), "1");
            assert_eq!(clause(&where_clauses, "name").unwrap(), "'rust'");
        }
        _ => panic!(),
    }
}

#[test]
fn parser_test_can_create_a_parsed_input_from_a_simple_select_query() {
    assert_eq!(parsed_text("SELECT * FROM users;"), String::from("SELECT * FROM users;"));
}

#[test]
fn parser_test_can_create_a_parsed_input_from_a_select_query_for_specific_columns() {
    assert_eq!(
        parsed_text("SELECT id,foreign_id, number,name,job, another FROM users;"),
        String::from("SELECT id, foreign_id, number, name, job, another FROM users;")
    );
}

#[test]
fn parser_test_can_parse_a_create_table_statement() {
    assert_eq!(
        parsed_text(
            "CREATE TABLE users(
                id PRIMARY KEY,
                name VARCHAR,
                email VARCHAR
            );"
        ),
        String::from("CREATE TABLE users(\nid PRIMARY KEY,\nname VARCHAR,\nemail VARCHAR\n);")
    );
}

#[test]
fn parser_test_can_parse_a_create_table_statement_without_unnecessary_whitespace() {
    assert_eq!(
        parsed_text("CREATE TABLE users(id PRIMARY KEY,name VARCHAR, email VARCHAR);"),
        String::from("CREATE TABLE users(\nid PRIMARY KEY,\nname VARCHAR,\nemail VARCHAR\n);")
    );
}

#[test]
fn parser_test_can_parse_an_insert_statement() {
    assert_eq!(
        parsed_text(
            "INSERT INTO users(name,email, number) VALUES ('felix', 'felix@gmail.de', 12345), ('paul', 'paul@mail.com', 67890);"
        ),
        String::from("INSERT INTO users(\nname, email, number\n) VALUES (\n'felix', 'felix@gmail.de', 12345\n), (\n'paul', 'paul@mail.com', 67890\n);")
    );
}
