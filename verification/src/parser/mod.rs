pub mod data_type_identifier;
pub mod definition;
pub mod grammar;
pub mod literal_value;
pub mod simple;
pub mod statement;

pub use crate::tokenizer::Token;
pub use data_type_identifier::DataTypeIdentifier;
pub use grammar::CompareOperation;
pub use literal_value::LiteralValue;
pub use statement::parse;
pub use statement::Command;
pub use statement::ConditionExpression;
