use bsql::parser::simple::parse;
use bsql::parser::simple::parse_integer;
use bsql::parser::simple::Command;
use bsql::parser::simple::LiteralValue;
use bsql::parser::DataTypeIdentifier;

#[test]
fn test_parsing_create_database_expression() {
    assert_eq!(
        Some(Command::CreateDatabase { database_name: "my_database".to_string() }),
        parse("CREATE DATABASE my_database;"),
    );
}

#[test]
fn test_parsing_create_table_expression() {
    assert_eq!(
        Some(Command::CreateTable {
            table_name: "users".to_string(),
            column_definitions: vec![
                ("age".to_string(), DataTypeIdentifier::Integer),
                ("birthyear".to_string(), DataTypeIdentifier::Integer)
            ]
        }),
        parse("CREATE TABLE users (age integer, birthyear integer);"),
    );
}

#[test]
fn test_parsing_insert_into_expression() {
    assert_eq!(
        Some(Command::InsertInto {
            table_name: "users2".to_string(),
            values: vec![LiteralValue::Integer(12)]
        }),
        parse("INSERT INTO users2 VALUES (12);"),
    );
}

#[test]
fn test_parsing_insert_into_expression_with_multiple_values() {
    assert_eq!(
        Some(Command::InsertInto {
            table_name: "users2".to_string(),
            values: vec![LiteralValue::Integer(12), LiteralValue::Integer(14)]
        }),
        parse("INSERT INTO users2 VALUES (12, 14);"),
    );
}

#[test]
fn test_parsing_select_all() {
    assert_eq!(
        Some(Command::Select {
            identifiers: vec!["*".to_string()],
            table_name: "my_table".to_string(),
        }),
        parse("SELECT * FROM my_table;"),
    );
}

#[test]
fn whole_numbers_of_32_bits_are_read_with_an_optional_sign() {
    assert_eq!(Some(0), parse_integer("0"));
    assert_eq!(Some(0), parse_integer("-0"));
    assert_eq!(Some(42), parse_integer("+42"));
    assert_eq!(Some(-42), parse_integer("-42"));
    assert_eq!(Some(2147483647), parse_integer("2147483647"));
    assert_eq!(None, parse_integer("2147483648"));
    assert_eq!(Some(-2147483648), parse_integer("-2147483648"));
    assert_eq!(None, parse_integer("-2147483649"));
    assert_eq!(Some(7), parse_integer("00000000000000000007"));
    assert_eq!(None, parse_integer("99999999999999999999"));
    assert_eq!(None, parse_integer(""));
    assert_eq!(None, parse_integer("-"));
    assert_eq!(None, parse_integer("+"));
    assert_eq!(None, parse_integer("+-1"));
    assert_eq!(None, parse_integer("1a"));
    for text in ["0", "-1", "+1", "300", "-300", "2147483647", "-2147483648", "2147483648", "x", ""] {
        assert_eq!(text.parse::<i32>().ok(), parse_integer(text));
    }
}

#[test]
fn what_is_no_command_gives_nothing() {
    assert_eq!(None, parse(""));
    assert_eq!(None, parse("USE d;"));
    assert_eq!(None, parse("INSERT INTO t VALUES (1"));
    assert_eq!(None, parse("INSERT INTO t VALUES (x)"));
    assert_eq!(None, parse("INSERT t VALUES (1)"));
    assert_eq!(None, parse("SELECT a"));
    assert_eq!(None, parse("CREATE TABLE t"));
    assert_eq!(
        Some(Command::InsertInto {
            table_name: "t".to_string(),
            values: vec![LiteralValue::Integer(300), LiteralValue::Integer(0)]
        }),
        parse("INSERT INTO t VALUES (300 0,) more"),
    );
    assert_eq!(
        Some(Command::Select {
            identifiers: vec!["a".to_string(), "b".to_string()],
            table_name: "t".to_string(),
        }),
        parse("SELECT a, b FROM t WHERE a = 1;"),
    );
}
