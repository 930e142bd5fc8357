use vstd::prelude::*;
use crate::tokenizer::Token;
use crate::tokenizer::TokenView;

verus! {

/// Why a command failed.
#[derive(Debug, PartialEq)]
pub enum Error {
    /// The query ended where a token was expected.
    MissingToken,
    /// The query holds a token that cannot stand where it does.
    UnexpectedToken { actual: Token },
    DatabaseDoesNotExist(String),
    DatabaseAlreadyExists(String),
    DatabaseNameTooLong,
    TableDoesNotExist(String),
    TableAlreadyExists(String),
    TableNameTooLong,
    ColumnDoesNotExist(String),
    ColumnAlreadyExist(String),
    /// The table cannot take another column.
    TooManyColumnsInUse,
    /// The row does not fit the table, or the table cannot take another row.
    InsertFailed,
}

/// What an error holds.
pub enum ErrorView {
    MissingToken,
    UnexpectedToken { actual: TokenView },
    DatabaseDoesNotExist(Seq<char>),
    DatabaseAlreadyExists(Seq<char>),
    DatabaseNameTooLong,
    TableDoesNotExist(Seq<char>),
    TableAlreadyExists(Seq<char>),
    TableNameTooLong,
    ColumnDoesNotExist(Seq<char>),
    ColumnAlreadyExist(Seq<char>),
    TooManyColumnsInUse,
    InsertFailed,
}

impl View for Error {
    type V = ErrorView;

    open spec fn view(&self) -> ErrorView {
        match self {
            Error::MissingToken => ErrorView::MissingToken,
            Error::UnexpectedToken { actual } => ErrorView::UnexpectedToken { actual: actual@ },
            Error::DatabaseDoesNotExist(name) => ErrorView::DatabaseDoesNotExist(name@),
            Error::DatabaseAlreadyExists(name) => ErrorView::DatabaseAlreadyExists(name@),
            Error::DatabaseNameTooLong => ErrorView::DatabaseNameTooLong,
            Error::TableDoesNotExist(name) => ErrorView::TableDoesNotExist(name@),
            Error::TableAlreadyExists(name) => ErrorView::TableAlreadyExists(name@),
            Error::TableNameTooLong => ErrorView::TableNameTooLong,
            Error::ColumnDoesNotExist(name) => ErrorView::ColumnDoesNotExist(name@),
            Error::ColumnAlreadyExist(name) => ErrorView::ColumnAlreadyExist(name@),
            Error::TooManyColumnsInUse => ErrorView::TooManyColumnsInUse,
            Error::InsertFailed => ErrorView::InsertFailed,
        }
    }
}

} // verus!
