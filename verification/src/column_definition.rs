use vstd::prelude::*;
use vstd::string::StringSliceAdditionalSpecFns;
use vstd::utf8::decode_utf8;
use vstd::utf8::encode_utf8;
use vstd::utf8::valid_utf8;
use crate::data_type::DataType;
use crate::text::copy_range;
use crate::text::string_from_utf8;

verus! {

/// The longest column name, in bytes, that a stored definition can hold.
pub const MAX_COLUMN_NAME_BYTES: usize = 253;

/// What a column definition holds.
pub struct ColumnView {
    pub column_id: u8,
    pub data_type: DataType,
    pub name: Seq<char>,
}

impl ColumnView {
    /// What is stored for the column after the size byte: its id, its type
    /// id, and its name in UTF-8.
    pub open spec fn body(self) -> Seq<u8> {
        seq![self.column_id, self.data_type.type_id()] + encode_utf8(self.name)
    }

    /// The stored form of the column: one byte that holds the size of the
    /// body, then the body.
    pub open spec fn encoding(self) -> Seq<u8> {
        seq![(self.body().len() % 256) as u8] + self.body()
    }

    /// The name is short enough for the size byte to hold the body's size.
    pub open spec fn is_storable(self) -> bool {
        encode_utf8(self.name).len() <= MAX_COLUMN_NAME_BYTES
    }

    /// The column that a body stands for, if it is one.
    pub open spec fn of_body(body: Seq<u8>) -> Option<ColumnView> {
        if body.len() < 2 {
            None
        } else if DataType::of_type_id(body[1]) is None {
            None
        } else if !valid_utf8(body.skip(2)) {
            None
        } else {
            Some(
                ColumnView {
                    column_id: body[0],
                    data_type: DataType::of_type_id(body[1])->0,
                    name: decode_utf8(body.skip(2)),
                },
            )
        }
    }
}

/// What a list of column definitions holds.
pub open spec fn column_views(columns: Seq<ColumnDefinition>) -> Seq<ColumnView> {
    columns.map_values(|column: ColumnDefinition| column@)
}

/// A body decodes to the column it was made from.
pub proof fn lemma_column_body_round_trip(column: ColumnView)
    ensures
        ColumnView::of_body(column.body()) == Some(column),
{
    let body = column.body();
    assert(body.skip(2) =~= encode_utf8(column.name));
    vstd::utf8::encode_utf8_valid_utf8(column.name);
    vstd::utf8::encode_utf8_decode_utf8(column.name);
}

/// A column of a table: the id it was given, its type and its name.
#[derive(Debug, Clone, PartialEq)]
pub struct ColumnDefinition {
    column_id: u8,
    data_type: DataType,
    name: String,
}

impl View for ColumnDefinition {
    type V = ColumnView;

    closed spec fn view(&self) -> ColumnView {
        ColumnView { column_id: self.column_id, data_type: self.data_type, name: self.name@ }
    }
}

impl ColumnDefinition {
    pub fn new(column_id: u8, data_type: DataType, name: String) -> (column: Self)
        ensures
            column@ == (ColumnView { column_id, data_type, name: name@ }),
    {
        Self { column_id, data_type, name }
    }

    /// Reads a definition from its stored body. Fails when the body is
    /// shorter than two bytes, names no known type, or holds a name that is
    /// not UTF-8.
    pub fn from_raw_bytes(bytes: &[u8]) -> (column: Option<ColumnDefinition>)
        ensures
            match column {
                Some(found) => ColumnView::of_body(bytes@) == Some(found@),
                None => ColumnView::of_body(bytes@) is None,
            },
    {
        if bytes.len() < 2 {
            return None;
        }
        let data_type = match DataType::from_type_id(bytes[1]) {
            Some(data_type) => data_type,
            None => {
                return None;
            },
        };
        let name_bytes = copy_range(bytes, 2, bytes.len());
        assert(name_bytes@ == bytes@.skip(2));
        match string_from_utf8(name_bytes) {
            Some(name) => Some(Self { column_id: bytes[0], data_type, name }),
            None => None,
        }
    }

    /// The stored form of the definition: the size of the body in one byte,
    /// then the column id, the type id and the name.
    pub fn to_raw_bytes(&self) -> (bytes: Vec<u8>)
        ensures
            bytes@ == self@.encoding(),
    {
        let name_bytes = self.name.as_str().as_bytes();
        let mut bytes: Vec<u8> = Vec::new();
        bytes.push(((2 + name_bytes.len() % 256) % 256) as u8);
        bytes.push(self.column_id);
        bytes.push(self.data_type.bsql_type_id());
        let mut index: usize = 0;
        while index < name_bytes.len()
            invariant
                index <= name_bytes@.len(),
                bytes@ == seq![
                    ((2 + name_bytes@.len()) % 256) as u8,
                    self.column_id,
                    self.data_type.type_id(),
                ] + name_bytes@.take(index as int),
            decreases name_bytes@.len() - index,
        {
            bytes.push(name_bytes[index]);
            index = index + 1;
            assert(name_bytes@.take(index as int) == name_bytes@.take(index - 1).push(
                name_bytes@[index - 1],
            ));
        }
        assert(name_bytes@.take(index as int) == name_bytes@);
        assert(bytes@ =~= self@.encoding());
        bytes
    }

    pub fn column_id(&self) -> (column_id: u8)
        ensures
            column_id == self@.column_id,
    {
        self.column_id
    }

    pub fn data_type(&self) -> (data_type: &DataType)
        ensures
            *data_type == self@.data_type,
    {
        &self.data_type
    }

    pub fn name(&self) -> (name: &String)
        ensures
            name@ == self@.name,
    {
        &self.name
    }

    /// A copy of the definition.
    pub fn duplicate(&self) -> (column: Self)
        ensures
            column@ == self@,
    {
        Self { column_id: self.column_id, data_type: self.data_type, name: self.name.clone() }
    }
}

} // verus!
