use vstd::prelude::*;
use crate::value::Value;

verus! {

/// The type of a column.
#[derive(Debug, Clone, Copy, PartialEq, Eq, Structural)]
pub enum DataType {
    /// An unsigned integer of one byte.
    Integer,
}

impl DataType {
    /// The type that a type id stands for, if any.
    pub open spec fn of_type_id(type_id: u8) -> Option<DataType> {
        if type_id == 1 {
            Some(DataType::Integer)
        } else {
            None
        }
    }

    /// The id under which the type is stored.
    pub open spec fn type_id(self) -> u8 {
        match self {
            DataType::Integer => 1,
        }
    }

    /// The number of bytes a value of the type takes in a record.
    pub open spec fn size(self) -> nat {
        match self {
            DataType::Integer => 1,
        }
    }

    /// The value of this type that `data` starts with, if `data` is long enough.
    pub open spec fn decode(self, data: Seq<u8>) -> Option<Value> {
        match self {
            DataType::Integer => if data.len() >= 1 {
                Some(Value::Integer(data[0]))
            } else {
                None
            },
        }
    }

    /// The type stored under `type_id`.
    pub fn from_type_id(type_id: u8) -> (data_type: Option<Self>)
        ensures
            data_type == Self::of_type_id(type_id),
    {
        if type_id == 1 {
            Some(DataType::Integer)
        } else {
            None
        }
    }

    /// Decodes the value of type `data_type` at the start of `data`.
    pub fn to_bsql_value(data_type: &Self, data: &[u8]) -> (value: Option<Value>)
        ensures
            value == data_type.decode(data@),
    {
        match data_type {
            DataType::Integer => {
                if data.len() >= 1 {
                    Some(Value::Integer(data[0]))
                } else {
                    None
                }
            },
        }
    }

    /// The id under which the type is stored.
    pub fn bsql_type_id(&self) -> (type_id: u8)
        ensures
            type_id == self.type_id(),
    {
        match self {
            DataType::Integer => 1,
        }
    }

    /// The number of bytes a value of the type takes in a record.
    pub fn bsql_size(&self) -> (size: u8)
        ensures
            size == self.size(),
    {
        match self {
            DataType::Integer => 1,
        }
    }

    /// The name of the type as it is written in a query.
    pub fn to_string(&self) -> (name: String)
        ensures
            name@ == "integer"@,
    {
        match self {
            DataType::Integer => "integer".to_string(),
        }
    }
}

/// A type id read back from a type's own id is that type.
pub proof fn lemma_type_id_round_trip(data_type: DataType)
    ensures
        DataType::of_type_id(data_type.type_id()) == Some(data_type),
{
}

/// A value decoded from its own encoding is that value, and the encoding
/// has the size of the type.
pub proof fn lemma_value_round_trip(value: Value)
    ensures
        DataType::Integer.decode(value.encoding()) == Some(value),
        value.encoding().len() == DataType::Integer.size(),
{
}

} // verus!
