use vstd::prelude::*;
use crate::data_type::DataType;
use crate::database::requested;
use crate::error::ErrorView;
use crate::manager::declared_columns;
use crate::parser::data_type_identifier::DataTypeIdentifier;
use crate::parser::grammar::column_list;
use crate::parser::grammar::column_of;
use crate::parser::grammar::create_command;
use crate::parser::grammar::statement_tokens;
use crate::parser::grammar::CommandView;
use crate::parser::statement::declared;
use crate::parser::statement::Command as Statement;
use crate::tokenizer::token_views;
use crate::tokenizer::tokenize;
use crate::tokenizer::tokens_of;
use crate::tokenizer::Token;
use crate::tokenizer::TokenView;

verus! {

/// A command that defines a part of the catalog.
#[derive(Debug, PartialEq)]
pub enum Command {
    /// Creates the database with the name.
    CreateDatabase(String),
    /// Creates the table with the name and the columns.
    CreateTable(String, Vec<(String, DataType)>),
}

/// What a defining command holds.
pub enum DefinitionView {
    CreateDatabase(Seq<char>),
    CreateTable(Seq<char>, Seq<(Seq<char>, DataType)>),
}

impl View for Command {
    type V = DefinitionView;

    open spec fn view(&self) -> DefinitionView {
        match self {
            Command::CreateDatabase(name) => DefinitionView::CreateDatabase(name@),
            Command::CreateTable(name, columns) => DefinitionView::CreateTable(
                name@,
                requested(columns@),
            ),
        }
    }
}

/// What an optional defining command holds.
pub open spec fn definition_view(command: Option<Command>) -> Option<DefinitionView> {
    match command {
        Some(found) => Some(found@),
        None => None,
    }
}

/// The defining command that a statement makes, if it makes one: a
/// statement that starts with `CREATE` and has no fault.
pub open spec fn definition_of(tokens: Seq<TokenView>) -> Option<DefinitionView> {
    match create_command(tokens) {
        Ok(CommandView::CreateDatabase { database_name }) => Some(
            DefinitionView::CreateDatabase(database_name),
        ),
        Ok(CommandView::CreateTable { table_name, column_definitions }) => Some(
            DefinitionView::CreateTable(table_name, declared_columns(column_definitions)),
        ),
        _ => None,
    }
}

/// The columns with the types that the names of their types stand for.
fn typed_columns(columns: Vec<(String, DataTypeIdentifier)>) -> (typed: Vec<(String, DataType)>)
    ensures
        requested(typed@) == declared_columns(declared(columns@)),
{
    let mut typed: Vec<(String, DataType)> = Vec::new();
    let mut index: usize = 0;
    while index < columns.len()
        invariant
            index <= columns@.len(),
            typed@.len() == index,
            forall|i: int|
                0 <= i < index ==> (#[trigger] typed@[i]).0@ == columns@[i].0@ && typed@[i].1
                    == columns@[i].1.data_type(),
        decreases columns@.len() - index,
    {
        let column = &columns[index];
        typed.push((column.0.clone(), column.1.into_data_type()));
        index = index + 1;
    }
    assert(requested(typed@) =~= declared_columns(declared(columns@)));
    typed
}

/// Makes a column of the token that names it and the token that names its
/// type, if the tokens are such.
pub fn parse_table_column_info(identifier_token: Token, data_type_token: Token) -> (column: Option<
    (String, DataType),
>)
    ensures
        match column {
            Some(found) => column_of(identifier_token@, data_type_token@) matches Ok(made)
                && found.0@ == made.0 && found.1 == made.1.data_type(),
            None => column_of(identifier_token@, data_type_token@) is Err,
        },
{
    match crate::parser::statement::parse_column_definition(identifier_token, data_type_token) {
        Ok(column) => Some((column.0, column.1.into_data_type())),
        Err(_) => None,
    }
}

/// Reads a list of columns in parentheses, if the tokens make one.
pub fn parse_table_column_info_list(tokens: Vec<Token>) -> (columns: Option<Vec<(String, DataType)>>)
    ensures
        match columns {
            Some(found) => column_list(token_views(tokens@), 0) matches Ok(listed)
                && requested(found@) == declared_columns(listed),
            None => column_list(token_views(tokens@), 0) is Err,
        },
{
    match crate::parser::statement::parse_column_definitions(tokens) {
        Ok(columns) => Some(typed_columns(columns)),
        Err(_) => None,
    }
}

/// Makes the command that creates a table of its name and the tokens that
/// list its columns, if they list columns.
pub fn parse_create_table_command(identifier: String, tokens: Vec<Token>) -> (command: Option<
    Command,
>)
    ensures
        match command {
            Some(found) => column_list(token_views(tokens@), 0) matches Ok(listed) && found@
                == DefinitionView::CreateTable(identifier@, declared_columns(listed)),
            None => column_list(token_views(tokens@), 0) is Err,
        },
{
    match parse_table_column_info_list(tokens) {
        Some(columns) => Some(Command::CreateTable(identifier, columns)),
        None => None,
    }
}

/// Reads a statement that starts with `CREATE`, if the tokens make one.
pub fn parse_create_command(tokens: Vec<Token>) -> (command: Option<Command>)
    ensures
        definition_view(command) == definition_of(token_views(tokens@)),
{
    match crate::parser::statement::parse_create_command(tokens) {
        Ok(Statement::CreateDatabase { database_name }) => Some(
            Command::CreateDatabase(database_name),
        ),
        Ok(Statement::CreateTable { table_name, column_definitions }) => Some(
            Command::CreateTable(table_name, typed_columns(column_definitions)),
        ),
        _ => None,
    }
}

/// Reads the first statement of a query as a defining command, if it is one.
pub fn parse(input: &str) -> (command: Option<Command>)
    ensures
        definition_view(command) == definition_of(statement_tokens(tokens_of(input@))),
{
    let tokens = tokenize(input);
    let command_tokens = crate::parser::statement::first_statement(&tokens);
    parse_create_command(command_tokens)
}

} // verus!
