use vstd::prelude::*;
use crate::data_type::DataType;
use crate::tokenizer::Token;
use crate::tokenizer::TokenView;

verus! {

/// The name of a type in a query.
#[derive(Debug, Clone, Copy, PartialEq, Eq, Structural)]
pub enum DataTypeIdentifier {
    Integer,
}

/// The type that a token names, if it names one.
pub open spec fn type_of(token: TokenView) -> Option<DataTypeIdentifier> {
    match token {
        TokenView::IntegerKeyword => Some(DataTypeIdentifier::Integer),
        _ => None,
    }
}

impl DataTypeIdentifier {
    /// The type that the token names, if it names one.
    pub fn from_token(token: &Token) -> (identifier: Option<DataTypeIdentifier>)
        ensures
            identifier == type_of(token@),
    {
        match token {
            Token::IntegerKeyword => Some(DataTypeIdentifier::Integer),
            _ => None,
        }
    }

    /// The type of a column that the name stands for.
    pub open spec fn data_type(self) -> DataType {
        match self {
            DataTypeIdentifier::Integer => DataType::Integer,
        }
    }

    /// The type of a column that the name stands for.
    pub fn into_data_type(self) -> (data_type: DataType)
        ensures
            data_type == self.data_type(),
    {
        match self {
            DataTypeIdentifier::Integer => DataType::Integer,
        }
    }
}

} // verus!
