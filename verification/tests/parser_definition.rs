use bsql::data_type::DataType;
use bsql::parser::definition::parse;
use bsql::parser::definition::parse_create_command;
use bsql::parser::definition::parse_create_table_command;
use bsql::parser::definition::parse_table_column_info;
use bsql::parser::definition::parse_table_column_info_list;
use bsql::parser::definition::Command;
use bsql::tokenizer::Token;

#[test]
fn parser_test_parsing_create_database_expression() {
    assert_eq!(
        Some(Command::CreateDatabase("my_database".to_string())),
        parse("CREATE DATABASE my_database;"),
    );
}

#[test]
fn parser_test_parsing_create_table_expression() {
    assert_eq!(
        Some(Command::CreateTable(
            "users".to_string(),
            vec![
                ("age".to_string(), DataType::Integer),
                ("birthyear".to_string(), DataType::Integer),
            ]
        )),
        parse("CREATE TABLE users (age integer, birthyear integer);"),
    );
}

#[test]
fn what_defines_nothing_is_no_defining_command() {
    assert_eq!(None, parse(""));
    assert_eq!(None, parse("SELECT * FROM t;"));
    assert_eq!(None, parse("INSERT INTO t VALUES (1);"));
    assert_eq!(None, parse("CREATE TABLE t (a text);"));
    assert_eq!(None, parse("CREATE TABLE t (a integer"));
    assert_eq!(None, parse("CREATE INDEX i"));
    assert_eq!(Some(Command::CreateTable("t".to_string(), vec![])), parse("CREATE TABLE t ()"));
    assert_eq!(None, parse_create_command(vec![Token::CreateKeyword]));
    assert_eq!(
        Some(("a".to_string(), DataType::Integer)),
        parse_table_column_info(Token::Identifier("a".to_string()), Token::IntegerKeyword)
    );
    assert_eq!(None, parse_table_column_info(Token::Comma, Token::IntegerKeyword));
    assert_eq!(
        Some(vec![]),
        parse_table_column_info_list(vec![Token::OpeningParenthesis, Token::ClosingParenthesis])
    );
    assert_eq!(None, parse_table_column_info_list(vec![Token::ClosingParenthesis]));
    assert_eq!(
        Some(Command::CreateTable("t".to_string(), vec![("a".to_string(), DataType::Integer)])),
        parse_create_table_command(
            "t".to_string(),
            vec![
                Token::OpeningParenthesis,
                Token::Identifier("a".to_string()),
                Token::IntegerKeyword,
                Token::ClosingParenthesis
            ]
        )
    );
}
