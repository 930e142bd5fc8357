use bsql::error::Error;
use bsql::parser::parse;
use bsql::parser::statement::expect_identifier;
use bsql::parser::statement::parse_column_definition;
use bsql::parser::statement::parse_column_definitions;
use bsql::parser::statement::parse_condition_expression;
use bsql::parser::statement::parse_create_command;
use bsql::parser::statement::parse_insert_command;
use bsql::parser::statement::parse_select_command;
use bsql::parser::Command;
use bsql::parser::CompareOperation;
use bsql::parser::ConditionExpression;
use bsql::parser::DataTypeIdentifier;
use bsql::parser::LiteralValue;
use bsql::parser::Token;
use bsql::data_type::DataType;
use bsql::parser::literal_value::parse_byte;
use bsql::value::Value;

#[test]
fn mod_test_parsing_create_database_expression() {
    assert_eq!(
        Ok(Command::CreateDatabase { database_name: "my_database".to_string() }),
        parse("CREATE DATABASE my_database;"),
    );
}

#[test]
fn mod_test_parsing_create_table_expression() {
    assert_eq!(
        Ok(Command::CreateTable {
            table_name: "users".to_string(),
            column_definitions: vec![
                ("age".to_string(), DataTypeIdentifier::Integer),
                ("birthyear".to_string(), DataTypeIdentifier::Integer)
            ]
        }),
        parse("CREATE TABLE users (age integer, birthyear integer);"),
    );
}

#[test]
fn mod_test_parsing_insert_into_expression() {
    assert_eq!(
        Ok(Command::InsertInto {
            table_name: "users2".to_string(),
            values: vec![LiteralValue::Integer(12)]
        }),
        parse("INSERT INTO users2 VALUES (12);"),
    );
}

#[test]
fn mod_test_parsing_insert_into_expression_with_multiple_values() {
    assert_eq!(
        Ok(Command::InsertInto {
            table_name: "users2".to_string(),
            values: vec![LiteralValue::Integer(12), LiteralValue::Integer(14)]
        }),
        parse("INSERT INTO users2 VALUES (12, 14);"),
    );
}

#[test]
fn mod_test_parsing_select_all() {
    assert_eq!(
        Ok(Command::Select {
            identifiers: vec!["*".to_string()],
            table_name: "my_table".to_string(),
            where_conditions: vec![],
        }),
        parse("SELECT * FROM my_table;"),
    );
}

#[test]
fn test_parsing_select_with_where_condition() {
    assert_eq!(
        Ok(Command::Select {
            identifiers: vec!["*".to_string()],
            table_name: "my_table".to_string(),
            where_conditions: vec![ConditionExpression {
                lhs: "favorite_number".to_string(),
                comparison: CompareOperation::Equality,
                rhs: LiteralValue::Integer(42),
            }]
        }),
        parse("SELECT * FROM my_table WHERE favorite_number = 42;"),
    );
}

#[test]
fn test_parsing_condition_expression() {
    assert_eq!(
        Some(ConditionExpression {
            lhs: "user_id".to_string(),
            comparison: CompareOperation::Equality,
            rhs: LiteralValue::Integer(3),
        }),
        parse_condition_expression(vec![
            Token::Identifier("user_id".to_string()),
            Token::EqualSign,
            Token::NumericLiteral(3.to_string()),
        ])
    );
}

#[test]
fn a_query_that_is_no_command_is_refused() {
    assert_eq!(Err(Error::MissingToken), parse(""));
    assert_eq!(Err(Error::MissingToken), parse(";SELECT * FROM t"));
    assert_eq!(Err(Error::UnexpectedToken { actual: Token::UseKeyword }), parse("USE d;"));
    assert_eq!(
        Err(Error::UnexpectedToken { actual: Token::Identifier("select".to_string()) }),
        parse("select * from t;")
    );
}

#[test]
fn what_follows_the_first_semicolon_is_ignored() {
    assert_eq!(
        Ok(Command::CreateDatabase { database_name: "a".to_string() }),
        parse("CREATE DATABASE a; CREATE DATABASE b;"),
    );
    assert_eq!(
        Ok(Command::CreateDatabase { database_name: "a".to_string() }),
        parse("CREATE DATABASE a and more"),
    );
}

#[test]
fn create_statements_that_go_wrong() {
    assert_eq!(Err(Error::MissingToken), parse("CREATE"));
    assert_eq!(Err(Error::MissingToken), parse("CREATE DATABASE"));
    assert_eq!(Err(Error::MissingToken), parse("CREATE INTO"));
    assert_eq!(Err(Error::UnexpectedToken { actual: Token::IntoKeyword }), parse("CREATE INTO d"));
    assert_eq!(
        Err(Error::UnexpectedToken { actual: Token::TableKeyword }),
        parse("CREATE DATABASE TABLE")
    );
    assert_eq!(Err(Error::MissingToken), parse("CREATE TABLE t"));
    assert_eq!(
        Err(Error::UnexpectedToken { actual: Token::Identifier("a".to_string()) }),
        parse("CREATE TABLE t a integer)")
    );
    assert_eq!(Err(Error::MissingToken), parse("CREATE TABLE t (a integer"));
    assert_eq!(
        Err(Error::UnexpectedToken { actual: Token::ClosingParenthesis }),
        parse("CREATE TABLE t (a)")
    );
    assert_eq!(Err(Error::MissingToken), parse("CREATE TABLE t (a"));
    assert_eq!(
        Err(Error::UnexpectedToken { actual: Token::Identifier("text".to_string()) }),
        parse("CREATE TABLE t (a text)")
    );
    assert_eq!(
        Err(Error::UnexpectedToken { actual: Token::NotKeyword }),
        parse("CREATE TABLE t (a integer NOT NULL)")
    );
    assert_eq!(
        Err(Error::UnexpectedToken { actual: Token::Comma }),
        parse("CREATE TABLE t (a integer,, b integer)")
    );
    assert_eq!(
        Ok(Command::CreateTable { table_name: "t".to_string(), column_definitions: vec![] }),
        parse("CREATE TABLE t ()")
    );
    assert_eq!(
        Ok(Command::CreateTable {
            table_name: "t".to_string(),
            column_definitions: vec![
                ("a".to_string(), DataTypeIdentifier::Integer),
                ("b".to_string(), DataTypeIdentifier::Integer)
            ]
        }),
        parse("CREATE TABLE t (a integer b integer,) trailing")
    );
}

#[test]
fn insert_statements_that_go_wrong() {
    assert_eq!(Err(Error::MissingToken), parse("INSERT"));
    assert_eq!(
        Err(Error::UnexpectedToken { actual: Token::Identifier("t".to_string()) }),
        parse("INSERT t")
    );
    assert_eq!(Err(Error::UnexpectedToken { actual: Token::ValuesKeyword }), parse("INSERT INTO VALUES"));
    assert_eq!(Err(Error::MissingToken), parse("INSERT INTO t"));
    assert_eq!(Err(Error::MissingToken), parse("INSERT INTO t VALUES"));
    assert_eq!(
        Err(Error::UnexpectedToken { actual: Token::NumericLiteral("1".to_string()) }),
        parse("INSERT INTO t VALUES 1)")
    );
    assert_eq!(Err(Error::MissingToken), parse("INSERT INTO t VALUES (1, 2"));
    assert_eq!(
        Err(Error::UnexpectedToken { actual: Token::NumericLiteral("256".to_string()) }),
        parse("INSERT INTO t VALUES (255, 256)")
    );
    assert_eq!(
        Err(Error::UnexpectedToken { actual: Token::Identifier("x".to_string()) }),
        parse("INSERT INTO t VALUES (x)")
    );
    assert_eq!(
        Ok(Command::InsertInto { table_name: "t".to_string(), values: vec![] }),
        parse("INSERT INTO t VALUES ()")
    );
    assert_eq!(
        Ok(Command::InsertInto {
            table_name: "t".to_string(),
            values: vec![LiteralValue::Integer(0), LiteralValue::Integer(255)]
        }),
        parse("INSERT INTO t VALUES (0 255,)")
    );
}

#[test]
fn select_statements_that_go_wrong() {
    assert_eq!(Err(Error::MissingToken), parse("SELECT"));
    assert_eq!(Err(Error::MissingToken), parse("SELECT a, b"));
    assert_eq!(Err(Error::MissingToken), parse("SELECT a FROM"));
    assert_eq!(
        Err(Error::UnexpectedToken { actual: Token::NumericLiteral("1".to_string()) }),
        parse("SELECT 1 FROM t")
    );
    assert_eq!(Err(Error::UnexpectedToken { actual: Token::Asterisk }), parse("SELECT a FROM *"));
    assert_eq!(
        Ok(Command::Select {
            identifiers: vec!["b".to_string(), "*".to_string(), "a".to_string()],
            table_name: "t".to_string(),
            where_conditions: vec![],
        }),
        parse("SELECT , b * ,, a FROM t WHERE a 1"),
    );
    assert_eq!(
        Ok(Command::Select {
            identifiers: vec![],
            table_name: "t".to_string(),
            where_conditions: vec![],
        }),
        parse("SELECT FROM t more WHERE a = 1"),
    );
}

#[test]
fn the_parts_of_the_parser_agree_with_the_whole() {
    assert_eq!(Ok("a".to_string()), expect_identifier(Some(Token::Identifier("a".to_string()))));
    assert_eq!(Err(Error::MissingToken), expect_identifier(None));
    assert_eq!(
        Err(Error::UnexpectedToken { actual: Token::Comma }),
        expect_identifier(Some(Token::Comma))
    );
    assert_eq!(
        Ok(("a".to_string(), DataTypeIdentifier::Integer)),
        parse_column_definition(Token::Identifier("a".to_string()), Token::IntegerKeyword)
    );
    assert_eq!(
        Err(Error::UnexpectedToken { actual: Token::IntegerKeyword }),
        parse_column_definition(Token::IntegerKeyword, Token::IntegerKeyword)
    );
    assert_eq!(
        Ok(vec![("a".to_string(), DataTypeIdentifier::Integer)]),
        parse_column_definitions(vec![
            Token::OpeningParenthesis,
            Token::Identifier("a".to_string()),
            Token::IntegerKeyword,
            Token::ClosingParenthesis
        ])
    );
    assert_eq!(Err(Error::MissingToken), parse_column_definitions(vec![]));
    assert_eq!(Err(Error::MissingToken), parse_create_command(vec![]));
    assert_eq!(
        Err(Error::UnexpectedToken { actual: Token::SelectKeyword }),
        parse_create_command(vec![Token::SelectKeyword])
    );
    assert_eq!(
        Err(Error::UnexpectedToken { actual: Token::SelectKeyword }),
        parse_insert_command(vec![Token::SelectKeyword])
    );
    assert_eq!(
        Err(Error::UnexpectedToken { actual: Token::InsertKeyword }),
        parse_select_command(vec![Token::InsertKeyword])
    );
    assert_eq!(None, parse_condition_expression(vec![]));
    assert_eq!(
        None,
        parse_condition_expression(vec![
            Token::Identifier("a".to_string()),
            Token::Comma,
            Token::NumericLiteral("1".to_string())
        ])
    );
    assert_eq!(
        None,
        parse_condition_expression(vec![
            Token::NumericLiteral("1".to_string()),
            Token::EqualSign,
            Token::NumericLiteral("1".to_string())
        ])
    );
    assert_eq!(
        None,
        parse_condition_expression(vec![
            Token::Identifier("a".to_string()),
            Token::EqualSign,
            Token::NumericLiteral("999".to_string())
        ])
    );
}

#[test]
fn a_byte_is_read_from_digits_with_an_optional_plus_sign() {
    assert_eq!(Some(0), parse_byte("0"));
    assert_eq!(Some(7), parse_byte("007"));
    assert_eq!(Some(255), parse_byte("255"));
    assert_eq!(Some(255), parse_byte("+255"));
    assert_eq!(Some(255), parse_byte("0000000000000000000000000255"));
    assert_eq!(None, parse_byte("256"));
    assert_eq!(None, parse_byte("99999999999999999999999999"));
    assert_eq!(None, parse_byte(""));
    assert_eq!(None, parse_byte("+"));
    assert_eq!(None, parse_byte("-1"));
    assert_eq!(None, parse_byte("++1"));
    assert_eq!(None, parse_byte("1+"));
    assert_eq!(None, parse_byte("1 "));
    assert_eq!(None, parse_byte("٣"));
    for number in 0..=255u8 {
        assert_eq!(Some(number), parse_byte(&number.to_string()));
        assert_eq!(number.to_string().parse::<u8>().ok(), parse_byte(&number.to_string()));
    }
    assert_eq!(Some(LiteralValue::Integer(12)), LiteralValue::from_token(&Token::NumericLiteral("12".to_string())));
    assert_eq!(None, LiteralValue::from_token(&Token::Identifier("12".to_string())));
    assert_eq!(Value::Integer(12), LiteralValue::Integer(12).into_value());
    assert_eq!(Some(DataTypeIdentifier::Integer), DataTypeIdentifier::from_token(&Token::IntegerKeyword));
    assert_eq!(None, DataTypeIdentifier::from_token(&Token::NullKeyword));
    assert_eq!(DataType::Integer, DataTypeIdentifier::Integer.into_data_type());
}
