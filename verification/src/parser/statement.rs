use vstd::prelude::*;
use crate::error::Error;
use crate::error::ErrorView;
use crate::parser::data_type_identifier::DataTypeIdentifier;
use crate::parser::grammar::column_list;
use crate::parser::grammar::column_of;
use crate::parser::grammar::columns_from;
use crate::parser::grammar::command_of;
use crate::parser::grammar::condition_of;
use crate::parser::grammar::conditions_at;
use crate::parser::grammar::create_command;
use crate::parser::grammar::identifier_at;
use crate::parser::grammar::insert_command;
use crate::parser::grammar::literals_from;
use crate::parser::grammar::mismatch;
use crate::parser::grammar::parsed;
use crate::parser::grammar::select_command;
use crate::parser::grammar::selection_from;
use crate::parser::grammar::statement_tokens;
use crate::parser::grammar::CommandView;
use crate::parser::grammar::CompareOperation;
use crate::parser::grammar::ConditionView;
use crate::parser::grammar::Selection;
use crate::parser::literal_value::LiteralValue;
use crate::row_result::texts;
use crate::tokenizer::token_views;
use crate::tokenizer::tokenize;
use crate::tokenizer::tokens_of;
use crate::tokenizer::Token;
use crate::tokenizer::TokenView;

verus! {

/// A condition of a `WHERE` clause: a column, a comparison and a literal.
#[derive(Debug, PartialEq)]
pub struct ConditionExpression {
    pub lhs: String,
    pub comparison: CompareOperation,
    pub rhs: LiteralValue,
}

impl View for ConditionExpression {
    type V = ConditionView;

    open spec fn view(&self) -> ConditionView {
        ConditionView { lhs: self.lhs@, comparison: self.comparison, rhs: self.rhs }
    }
}

/// A command of a query.
#[derive(Debug, PartialEq)]
pub enum Command {
    CreateDatabase { database_name: String },
    CreateTable { table_name: String, column_definitions: Vec<(String, DataTypeIdentifier)> },
    InsertInto { table_name: String, values: Vec<LiteralValue> },
    Select { identifiers: Vec<String>, table_name: String, where_conditions: Vec<ConditionExpression> },
}

/// What a list of declared columns holds.
pub open spec fn declared(columns: Seq<(String, DataTypeIdentifier)>) -> Seq<
    (Seq<char>, DataTypeIdentifier),
> {
    columns.map_values(|column: (String, DataTypeIdentifier)| (column.0@, column.1))
}

/// What a list of conditions holds.
pub open spec fn condition_views(conditions: Seq<ConditionExpression>) -> Seq<ConditionView> {
    conditions.map_values(|condition: ConditionExpression| condition@)
}

impl View for Command {
    type V = CommandView;

    open spec fn view(&self) -> CommandView {
        match self {
            Command::CreateDatabase { database_name } => CommandView::CreateDatabase {
                database_name: database_name@,
            },
            Command::CreateTable { table_name, column_definitions } => CommandView::CreateTable {
                table_name: table_name@,
                column_definitions: declared(column_definitions@),
            },
            Command::InsertInto { table_name, values } => CommandView::InsertInto {
                table_name: table_name@,
                values: values@,
            },
            Command::Select { identifiers, table_name, where_conditions } => CommandView::Select {
                identifiers: texts(identifiers@),
                table_name: table_name@,
                where_conditions: condition_views(where_conditions@),
            },
        }
    }
}

/// What the result of parsing holds.
pub open spec fn outcome(command: Result<Command, Error>) -> Result<CommandView, ErrorView> {
    match command {
        Ok(parsed) => Ok(parsed@),
        Err(error) => Err(error@),
    }
}

/// The tokens from `start` on, copied.
fn tokens_after(tokens: &Vec<Token>, start: usize) -> (rest: Vec<Token>)
    ensures
        token_views(rest@) == if start <= tokens@.len() {
            token_views(tokens@).skip(start as int)
        } else {
            Seq::<TokenView>::empty()
        },
{
    let mut rest: Vec<Token> = Vec::new();
    if start > tokens.len() {
        assert(token_views(rest@) =~= Seq::<TokenView>::empty());
        return rest;
    }
    let mut index: usize = start;
    while index < tokens.len()
        invariant
            start <= index <= tokens@.len(),
            rest@.len() == index - start,
            forall|i: int| 0 <= i < rest@.len() ==> (#[trigger] rest@[i])@ == tokens@[start + i]@,
        decreases tokens@.len() - index,
    {
        rest.push(tokens[index].duplicate());
        index = index + 1;
    }
    assert(token_views(rest@) =~= token_views(tokens@).skip(start as int));
    rest
}

/// Checks that the token `expected` stands at `position`.
fn expect_token(tokens: &Vec<Token>, position: usize, expected: &Token) -> (checked: Result<
    (),
    Error,
>)
    ensures
        match checked {
            Ok(()) => mismatch(token_views(tokens@), position as int, expected@) is None,
            Err(error) => mismatch(token_views(tokens@), position as int, expected@) == Some(
                error@,
            ),
        },
{
    if position >= tokens.len() {
        Err(Error::MissingToken)
    } else if !tokens[position].same(expected) {
        Err(Error::UnexpectedToken { actual: tokens[position].duplicate() })
    } else {
        Ok(())
    }
}

/// The name that the token holds, where it is an identifier.
pub fn expect_identifier(token: Option<Token>) -> (name: Result<String, Error>)
    ensures
        match name {
            Ok(text) => token matches Some(Token::Identifier(identifier)) && text@ == identifier@,
            Err(error) => match token {
                Some(Token::Identifier(_)) => false,
                Some(other) => error@ == (ErrorView::UnexpectedToken { actual: other@ }),
                None => error@ == ErrorView::MissingToken,
            },
        },
{
    match token {
        Some(Token::Identifier(identifier)) => Ok(identifier),
        Some(token) => Err(Error::UnexpectedToken { actual: token }),
        None => Err(Error::MissingToken),
    }
}

/// The name at `position`.
fn identifier_of(tokens: &Vec<Token>, position: usize) -> (name: Result<String, Error>)
    ensures
        name is Ok ==> position < tokens@.len(),
        match name {
            Ok(text) => identifier_at(token_views(tokens@), position as int) == Ok::<
                Seq<char>,
                ErrorView,
            >(text@),
            Err(error) => identifier_at(token_views(tokens@), position as int) == Err::<
                Seq<char>,
                ErrorView,
            >(error@),
        },
{
    if position < tokens.len() {
        expect_identifier(Some(tokens[position].duplicate()))
    } else {
        expect_identifier(None)
    }
}

/// Makes a column of the token that names it and the token that names its type.
pub fn parse_column_definition(identifier_token: Token, data_type_token: Token) -> (column: Result<
    (String, DataTypeIdentifier),
    Error,
>)
    ensures
        match column {
            Ok(found) => column_of(identifier_token@, data_type_token@) == Ok::<
                (Seq<char>, DataTypeIdentifier),
                ErrorView,
            >((found.0@, found.1)),
            Err(error) => column_of(identifier_token@, data_type_token@) == Err::<
                (Seq<char>, DataTypeIdentifier),
                ErrorView,
            >(error@),
        },
{
    match identifier_token {
        Token::Identifier(identifier) => match DataTypeIdentifier::from_token(&data_type_token) {
            Some(data_type) => Ok((identifier, data_type)),
            None => Err(Error::UnexpectedToken { actual: data_type_token }),
        },
        actual => Err(Error::UnexpectedToken { actual }),
    }
}

/// The columns `front`, followed by those of `rest`.
pub open spec fn prepend_declared(
    front: Seq<(Seq<char>, DataTypeIdentifier)>,
    rest: Result<Seq<(Seq<char>, DataTypeIdentifier)>, ErrorView>,
) -> Result<Seq<(Seq<char>, DataTypeIdentifier)>, ErrorView> {
    match rest {
        Ok(columns) => Ok(front + columns),
        Err(error) => Err(error),
    }
}

/// Reads a list of columns in parentheses: each a name and a type, with an
/// optional comma after it. What follows the closing parenthesis is ignored.
pub fn parse_column_definitions(tokens: Vec<Token>) -> (columns: Result<
    Vec<(String, DataTypeIdentifier)>,
    Error,
>)
    ensures
        match columns {
            Ok(found) => column_list(token_views(tokens@), 0) == Ok::<
                Seq<(Seq<char>, DataTypeIdentifier)>,
                ErrorView,
            >(declared(found@)),
            Err(error) => column_list(token_views(tokens@), 0) == Err::<
                Seq<(Seq<char>, DataTypeIdentifier)>,
                ErrorView,
            >(error@),
        },
{
    let ghost views = token_views(tokens@);
    match expect_token(&tokens, 0, &Token::OpeningParenthesis) {
        Err(error) => {
            return Err(error);
        },
        Ok(()) => {},
    }
    let mut columns: Vec<(String, DataTypeIdentifier)> = Vec::new();
    let mut position: usize = 1;
    assert(prepend_declared(declared(columns@), columns_from(views, 1)) =~= columns_from(views, 1))
        by {
        if columns_from(views, 1) is Ok {
            assert(declared(columns@) + columns_from(views, 1)->Ok_0 =~= columns_from(
                views,
                1,
            )->Ok_0);
        }
    }
    loop
        invariant
            views == token_views(tokens@),
            mismatch(views, 0, TokenView::OpeningParenthesis) is None,
            1 <= position <= tokens@.len() + 1,
            columns_from(views, 1) == prepend_declared(
                declared(columns@),
                columns_from(views, position as int),
            ),
        decreases tokens@.len() + 1 - position,
    {
        if position < tokens.len() && tokens[position].same(&Token::ClosingParenthesis) {
            assert(declared(columns@) + Seq::<(Seq<char>, DataTypeIdentifier)>::empty()
                =~= declared(columns@));
            return Ok(columns);
        }
        if position >= tokens.len() || position + 1 >= tokens.len() {
            return Err(Error::MissingToken);
        }
        let column = match parse_column_definition(
            tokens[position].duplicate(),
            tokens[position + 1].duplicate(),
        ) {
            Ok(column) => column,
            Err(error) => {
                return Err(error);
            },
        };
        let next: usize = if position + 2 < tokens.len() && tokens[position + 2].same(
            &Token::Comma,
        ) {
            position + 3
        } else {
            position + 2
        };
        proof {
            let front = declared(columns@);
            let added = (column.0@, column.1);
            assert(declared(columns@.push(column)) =~= front.push(added));
            let rest = columns_from(views, next as int);
            if rest is Ok {
                assert(front + (seq![added] + rest->Ok_0) =~= front.push(added) + rest->Ok_0);
            }
        }
        columns.push(column);
        position = next;
    }
}

/// Makes the command that creates a table of its name and the tokens
/// that list its columns.
pub fn parse_create_table_command(identifier: String, tokens: Vec<Token>) -> (command: Result<
    Command,
    Error,
>)
    ensures
        match command {
            Ok(parsed) => column_list(token_views(tokens@), 0) is Ok && parsed@
                == (CommandView::CreateTable {
                table_name: identifier@,
                column_definitions: column_list(token_views(tokens@), 0)->Ok_0,
            }),
            Err(error) => column_list(token_views(tokens@), 0) == Err::<
                Seq<(Seq<char>, DataTypeIdentifier)>,
                ErrorView,
            >(error@),
        },
{
    match parse_column_definitions(tokens) {
        Ok(column_definitions) => Ok(
            Command::CreateTable { table_name: identifier, column_definitions },
        ),
        Err(error) => Err(error),
    }
}

/// Reads a statement that starts with `CREATE`: `CREATE DATABASE` and a
/// name, or `CREATE TABLE`, a name and a list of columns.
pub fn parse_create_command(tokens: Vec<Token>) -> (command: Result<Command, Error>)
    ensures
        outcome(command) == create_command(token_views(tokens@)),
{
    match expect_token(&tokens, 0, &Token::CreateKeyword) {
        Err(error) => {
            return Err(error);
        },
        Ok(()) => {},
    }
    if tokens.len() < 2 {
        return Err(Error::MissingToken);
    }
    let identifier = match identifier_of(&tokens, 2) {
        Ok(identifier) => identifier,
        Err(error) => {
            return Err(error);
        },
    };
    match &tokens[1] {
        Token::DatabaseKeyword => Ok(Command::CreateDatabase { database_name: identifier }),
        Token::TableKeyword => {
            let rest = tokens_after(&tokens, 3);
            parse_create_table_command(identifier, rest)
        },
        other => Err(Error::UnexpectedToken { actual: other.duplicate() }),
    }
}

/// The literals `front`, followed by those of `rest`.
pub open spec fn prepend_literals(
    front: Seq<LiteralValue>,
    rest: Result<Seq<LiteralValue>, ErrorView>,
) -> Result<Seq<LiteralValue>, ErrorView> {
    match rest {
        Ok(literals) => Ok(front + literals),
        Err(error) => Err(error),
    }
}

/// Reads a statement that starts with `INSERT`: `INSERT INTO`, the name
/// of a table, `VALUES`, and a list of literals in parentheses.
pub fn parse_insert_command(tokens: Vec<Token>) -> (command: Result<Command, Error>)
    ensures
        outcome(command) == insert_command(token_views(tokens@)),
{
    let ghost views = token_views(tokens@);
    match expect_token(&tokens, 0, &Token::InsertKeyword) {
        Err(error) => {
            return Err(error);
        },
        Ok(()) => {},
    }
    match expect_token(&tokens, 1, &Token::IntoKeyword) {
        Err(error) => {
            return Err(error);
        },
        Ok(()) => {},
    }
    let identifier = match identifier_of(&tokens, 2) {
        Ok(identifier) => identifier,
        Err(error) => {
            return Err(error);
        },
    };
    match expect_token(&tokens, 3, &Token::ValuesKeyword) {
        Err(error) => {
            return Err(error);
        },
        Ok(()) => {},
    }
    match expect_token(&tokens, 4, &Token::OpeningParenthesis) {
        Err(error) => {
            return Err(error);
        },
        Ok(()) => {},
    }
    let mut values: Vec<LiteralValue> = Vec::new();
    let mut position: usize = 5;
    assert(prepend_literals(values@, literals_from(views, 5)) =~= literals_from(views, 5)) by {
        if literals_from(views, 5) is Ok {
            assert(values@ + literals_from(views, 5)->Ok_0 =~= literals_from(views, 5)->Ok_0);
        }
    }
    loop
        invariant
            views == token_views(tokens@),
            mismatch(views, 0, TokenView::InsertKeyword) is None,
            mismatch(views, 1, TokenView::IntoKeyword) is None,
            identifier_at(views, 2) == Ok::<Seq<char>, ErrorView>(identifier@),
            mismatch(views, 3, TokenView::ValuesKeyword) is None,
            mismatch(views, 4, TokenView::OpeningParenthesis) is None,
            5 <= position <= tokens@.len() + 1,
            literals_from(views, 5) == prepend_literals(
                values@,
                literals_from(views, position as int),
            ),
        decreases tokens@.len() + 1 - position,
    {
        if position >= tokens.len() {
            return Err(Error::MissingToken);
        }
        if tokens[position].same(&Token::ClosingParenthesis) {
            assert(values@ + Seq::<LiteralValue>::empty() =~= values@);
            return Ok(Command::InsertInto { table_name: identifier, values });
        }
        let literal = match LiteralValue::from_token(&tokens[position]) {
            Some(literal) => literal,
            None => {
                return Err(Error::UnexpectedToken { actual: tokens[position].duplicate() });
            },
        };
        let next: usize = if position + 1 < tokens.len() && tokens[position + 1].same(
            &Token::Comma,
        ) {
            position + 2
        } else {
            position + 1
        };
        proof {
            let rest = literals_from(views, next as int);
            if rest is Ok {
                assert(values@ + (seq![literal] + rest->Ok_0) =~= values@.push(literal)
                    + rest->Ok_0);
            }
        }
        values.push(literal);
        position = next;
    }
}

/// Reads a condition: a name, an equal sign and a literal. What follows
/// is ignored.
pub fn parse_condition_expression(tokens: Vec<Token>) -> (condition: Option<ConditionExpression>)
    ensures
        match condition {
            Some(found) => condition_of(token_views(tokens@)) == Some(found@),
            None => condition_of(token_views(tokens@)) is None,
        },
{
    if tokens.len() < 3 {
        return None;
    }
    let lhs = match &tokens[0] {
        Token::Identifier(name) => name.clone(),
        _ => {
            return None;
        },
    };
    if !tokens[1].same(&Token::EqualSign) {
        return None;
    }
    match LiteralValue::from_token(&tokens[2]) {
        Some(rhs) => Some(ConditionExpression { lhs, comparison: CompareOperation::Equality, rhs }),
        None => None,
    }
}

/// The names `front`, followed by those of `rest`.
pub open spec fn prepend_selection(front: Seq<Seq<char>>, rest: Result<Selection, ErrorView>) -> Result<
    Selection,
    ErrorView,
> {
    match rest {
        Ok(selection) => Ok(
            Selection { identifiers: front + selection.identifiers, end: selection.end },
        ),
        Err(error) => Err(error),
    }
}

/// Reads a statement that starts with `SELECT`: `SELECT`, a list of
/// names or asterisks, `FROM`, the name of a table, and optionally `WHERE`
/// with a condition.
pub fn parse_select_command(tokens: Vec<Token>) -> (command: Result<Command, Error>)
    ensures
        outcome(command) == select_command(token_views(tokens@)),
{
    let ghost views = token_views(tokens@);
    match expect_token(&tokens, 0, &Token::SelectKeyword) {
        Err(error) => {
            return Err(error);
        },
        Ok(()) => {},
    }
    let mut identifiers: Vec<String> = Vec::new();
    let mut position: usize = 1;
    assert(prepend_selection(texts(identifiers@), selection_from(views, 1)) =~= selection_from(
        views,
        1,
    )) by {
        if selection_from(views, 1) is Ok {
            assert(texts(identifiers@) + selection_from(views, 1)->Ok_0.identifiers
                =~= selection_from(views, 1)->Ok_0.identifiers);
        }
    }
    let mut complete: bool = false;
    while !complete
        invariant
            views == token_views(tokens@),
            mismatch(views, 0, TokenView::SelectKeyword) is None,
            1 <= position <= tokens@.len(),
            !complete ==> selection_from(views, 1) == prepend_selection(
                texts(identifiers@),
                selection_from(views, position as int),
            ),
            complete ==> position < tokens@.len() && selection_from(views, 1) == Ok::<
                Selection,
                ErrorView,
            >(Selection { identifiers: texts(identifiers@), end: position + 1 }),
        decreases tokens@.len() - position, if complete { 0int } else { 1int },
    {
        if position >= tokens.len() {
            return Err(Error::MissingToken);
        }
        let ghost front = texts(identifiers@);
        let ghost rest = selection_from(views, position + 1);
        match &tokens[position] {
            Token::Comma => {
                position = position + 1;
            },
            Token::Asterisk => {
                let name = "*".to_string();
                proof {
                    assert(texts(identifiers@.push(name)) =~= front.push("*"@));
                    if rest is Ok {
                        assert(front + (seq!["*"@] + rest->Ok_0.identifiers) =~= front.push("*"@)
                            + rest->Ok_0.identifiers);
                    }
                }
                identifiers.push(name);
                position = position + 1;
            },
            Token::Identifier(identifier) => {
                let name = identifier.clone();
                proof {
                    assert(texts(identifiers@.push(name)) =~= front.push(identifier@));
                    if rest is Ok {
                        assert(front + (seq![identifier@] + rest->Ok_0.identifiers) =~= front.push(
                            identifier@,
                        ) + rest->Ok_0.identifiers);
                    }
                }
                identifiers.push(name);
                position = position + 1;
            },
            Token::FromKeyword => {
                assert(front + Seq::<Seq<char>>::empty() =~= front);
                complete = true;
            },
            other => {
                return Err(Error::UnexpectedToken { actual: other.duplicate() });
            },
        }
    }
    let end: usize = position + 1;
    let table_name = match identifier_of(&tokens, end) {
        Ok(table_name) => table_name,
        Err(error) => {
            return Err(error);
        },
    };
    let mut where_conditions: Vec<ConditionExpression> = Vec::new();
    assert(condition_views(where_conditions@) =~= Seq::<ConditionView>::empty());
    if end + 1 < tokens.len() && tokens[end + 1].same(&Token::WhereKeyword) {
        match parse_condition_expression(tokens_after(&tokens, end + 2)) {
            Some(condition) => {
                where_conditions.push(condition);
                assert(condition_views(where_conditions@) =~= seq![condition@]);
            },
            None => {},
        }
    }
    Ok(Command::Select { identifiers, table_name, where_conditions })
}

/// The tokens of the first statement: those before the first semicolon.
pub fn first_statement(tokens: &Vec<Token>) -> (statement: Vec<Token>)
    ensures
        token_views(statement@) == statement_tokens(token_views(tokens@)),
{
    let ghost views = token_views(tokens@);
    let mut statement: Vec<Token> = Vec::new();
    let mut index: usize = 0;
    while index < tokens.len() && !tokens[index].same(&Token::Semicolon)
        invariant
            views == token_views(tokens@),
            index <= tokens@.len(),
            statement@.len() == index,
            forall|i: int| 0 <= i < index ==> (#[trigger] statement@[i])@ == views[i],
            forall|i: int| 0 <= i < index ==> #[trigger] views[i] != TokenView::Semicolon,
        decreases tokens@.len() - index,
    {
        statement.push(tokens[index].duplicate());
        index = index + 1;
    }
    proof {
        crate::parser::grammar::lemma_statement_ends(views, index as int);
        assert(token_views(statement@) =~= statement_tokens(views));
    }
    statement
}

/// Reads the first statement of a query: what stands before the first
/// semicolon. What follows it is ignored.
pub fn parse(input: &str) -> (command: Result<Command, Error>)
    ensures
        outcome(command) == parsed(tokens_of(input@)),
{
    let tokens = tokenize(input);
    let command_tokens = first_statement(&tokens);
    if command_tokens.len() == 0 {
        return Err(Error::MissingToken);
    }
    match &command_tokens[0] {
        Token::CreateKeyword => parse_create_command(command_tokens),
        Token::InsertKeyword => parse_insert_command(command_tokens),
        Token::SelectKeyword => parse_select_command(command_tokens),
        other => Err(Error::UnexpectedToken { actual: other.duplicate() }),
    }
}

} // verus!
