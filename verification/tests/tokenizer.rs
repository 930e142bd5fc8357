use bsql::tokenizer::tokenize;
use bsql::tokenizer::tokenize_classified;
use bsql::tokenizer::Token;

#[test]
fn test_tokenizing_special_characters() {
    assert_eq!(vec![Token::Asterisk,], tokenize("*"),)
}

#[test]
fn test_tokenizing_create_database_input() {
    assert_eq!(
        vec![
            Token::CreateKeyword,
            Token::DatabaseKeyword,
            Token::Identifier("my_database".to_string()),
            Token::Semicolon
        ],
        tokenize("CREATE DATABASE my_database;"),
    )
}

#[test]
fn test_tokenizing_create_table_without_any_columns_input() {
    assert_eq!(
        vec![
            Token::CreateKeyword,
            Token::TableKeyword,
            Token::Identifier("my_table".to_string()),
            Token::OpeningParenthesis,
            Token::ClosingParenthesis,
            Token::Semicolon
        ],
        tokenize("CREATE TABLE my_table ();"),
    )
}

#[test]
fn test_tokenizing_create_table_with_columns_input() {
    assert_eq!(
        vec![
            Token::CreateKeyword,
            Token::TableKeyword,
            Token::Identifier("users".to_string()),
            Token::OpeningParenthesis,
            Token::Identifier("birth_year".to_string()),
            Token::IntegerKeyword,
            Token::Comma,
            Token::Identifier("age".to_string()),
            Token::IntegerKeyword,
            Token::NotKeyword,
            Token::NullKeyword,
            Token::ClosingParenthesis,
            Token::Semicolon
        ],
        tokenize("CREATE TABLE users (birth_year integer, age integer NOT NULL);"),
    )
}

#[test]
fn test_tokenizing_insert_input() {
    assert_eq!(
        vec![
            Token::InsertKeyword,
            Token::IntoKeyword,
            Token::Identifier("users".to_string()),
            Token::ValuesKeyword,
            Token::OpeningParenthesis,
            Token::NumericLiteral("12".to_string()),
            Token::Comma,
            Token::NumericLiteral("31".to_string()),
            Token::ClosingParenthesis,
            Token::Semicolon
        ],
        tokenize("INSERT INTO users VALUES (12, 31);"),
    )
}

#[test]
fn test_tokenizing_select_all_input() {
    assert_eq!(
        vec![
            Token::SelectKeyword,
            Token::Asterisk,
            Token::FromKeyword,
            Token::Identifier("users".to_string()),
            Token::Semicolon
        ],
        tokenize("SELECT * FROM users;"),
    )
}

#[test]
fn a_word_runs_up_to_whitespace_or_closing_punctuation() {
    assert_eq!(
        vec![
            Token::Identifier("a(b*c".to_string()),
            Token::ClosingParenthesis,
            Token::Identifier("d".to_string()),
            Token::Comma,
            Token::Identifier("e".to_string()),
            Token::Semicolon,
            Token::Identifier("f".to_string()),
        ],
        tokenize("a(b*c)d,e;f"),
    );
    assert_eq!(vec![Token::UseKeyword, Token::Identifier("use".to_string())], tokenize("USE\tuse\n"));
    assert_eq!(Vec::<Token>::new(), tokenize(" \t\r\n"));
    assert_eq!(Vec::<Token>::new(), tokenize(""));
}

#[test]
fn where_and_the_equal_sign_are_tokens() {
    assert_eq!(
        vec![
            Token::WhereKeyword,
            Token::Identifier("x".to_string()),
            Token::EqualSign,
            Token::NumericLiteral("42".to_string()),
            Token::Identifier("y=1".to_string()),
        ],
        tokenize("WHERE x = 42 y=1"),
    );
}

#[test]
fn numeric_characters_make_a_numeric_literal() {
    assert_eq!(vec![Token::NumericLiteral("007".to_string())], tokenize("007"));
    assert_eq!(vec![Token::NumericLiteral("٣".to_string())], tokenize("٣"));
    assert_eq!(vec![Token::Identifier("12a".to_string())], tokenize("12a"));
    assert_eq!(vec![Token::Identifier("-1".to_string())], tokenize("-1"));
}

#[test]
fn whitespace_outside_ascii_separates_tokens_only_before_a_word() {
    assert_eq!(
        vec![Token::Identifier("a\u{a0}b".to_string()), Token::Identifier("c".to_string())],
        tokenize("\u{a0}a\u{a0}b c"),
    );
}

#[test]
fn tokens_follow_the_marks_that_are_given() {
    let input = "a_1 22";
    let whitespace = vec![false, false, false, true, false, false];
    let numeric = vec![false, false, false, false, true, true];
    assert_eq!(
        vec![Token::Identifier("a_1".to_string()), Token::NumericLiteral("22".to_string())],
        tokenize_classified(input, &whitespace, &numeric),
    );
    let none = vec![false; 6];
    assert_eq!(
        vec![Token::Identifier("a_1".to_string()), Token::Identifier(" 22".to_string())],
        tokenize_classified(input, &none, &none),
    );
    let all = vec![true; 6];
    assert_eq!(Vec::<Token>::new(), tokenize_classified(input, &all, &all));
    let first = vec![true, false, false, true, false, false];
    assert_eq!(
        vec![Token::NumericLiteral("_1".to_string()), Token::NumericLiteral("22".to_string())],
        tokenize_classified(input, &first, &all),
    );
}
