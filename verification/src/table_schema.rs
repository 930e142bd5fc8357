use vstd::prelude::*;
use crate::column_definition::column_views;
use crate::column_definition::ColumnDefinition;
use crate::column_definition::ColumnView;
use crate::data_type::DataType;
use crate::table_manager::find_column;
use crate::table_manager::has_column;
use crate::table_manager::names_of;

verus! {

/// The number of column ids a schema can hand out.
pub const SCHEMA_COLUMN_IDS: usize = 256;

/// The columns of a table that lives in memory only. Each new column gets
/// the next id; the id of a column that was dropped is not handed out again.
#[derive(Debug, PartialEq)]
pub struct TableSchema {
    name: String,
    next_column_index: usize,
    column_definitions: Vec<ColumnDefinition>,
}

impl TableSchema {
    #[verifier::type_invariant]
    closed spec fn distinct_names(&self) -> bool {
        &&& names_of(column_views(self.column_definitions@)).no_duplicates()
        &&& self.next_column_index <= SCHEMA_COLUMN_IDS
        &&& self.column_definitions@.len() <= self.next_column_index
    }

    /// The name of the table.
    pub closed spec fn table_name(&self) -> Seq<char> {
        self.name@
    }

    /// The columns, in the order they were added.
    pub closed spec fn columns(&self) -> Seq<ColumnView> {
        column_views(self.column_definitions@)
    }

    /// The id that the next column gets; 256 when none is left.
    pub closed spec fn next_id(&self) -> int {
        self.next_column_index as int
    }

    /// A schema without a name and without columns.
    pub fn new() -> (schema: Self)
        ensures
            schema.table_name() == Seq::<char>::empty(),
            schema.columns() == Seq::<ColumnView>::empty(),
            schema.next_id() == 0,
    {
        let schema = Self {
            name: String::new(),
            next_column_index: 0,
            column_definitions: Vec::new(),
        };
        assert(schema.columns() =~= Seq::<ColumnView>::empty());
        schema
    }

    /// A schema with a name and without columns.
    pub fn named(name: String) -> (schema: Self)
        ensures
            schema.table_name() == name@,
            schema.columns() == Seq::<ColumnView>::empty(),
            schema.next_id() == 0,
    {
        let schema = Self { name, next_column_index: 0, column_definitions: Vec::new() };
        assert(schema.columns() =~= Seq::<ColumnView>::empty());
        schema
    }

    /// The name of the table.
    pub fn name(&self) -> (name: &String)
        ensures
            name@ == self.table_name(),
    {
        &self.name
    }

    /// The number of columns.
    pub fn column_definitions_len(&self) -> (count: usize)
        ensures
            count == self.columns().len(),
    {
        self.column_definitions.len()
    }

    /// Adds a column under the next id. Refuses, changing nothing, when a
    /// column has the name already or no id is left.
    pub fn add_column(&mut self, column_name: &str, data_type: DataType) -> (added: bool)
        ensures
            added == (!has_column(old(self).columns(), column_name@) && old(self).next_id()
                < SCHEMA_COLUMN_IDS),
            final(self).table_name() == old(self).table_name(),
            added ==> final(self).columns() == old(self).columns().push(
                ColumnView {
                    column_id: old(self).next_id() as u8,
                    data_type,
                    name: column_name@,
                },
            ) && final(self).next_id() == old(self).next_id() + 1,
            !added ==> final(self).columns() == old(self).columns() && final(self).next_id()
                == old(self).next_id(),
    {
        proof {
            use_type_invariant(&*self);
        }
        if find_column(&self.column_definitions, column_name).is_some()
            || self.next_column_index >= SCHEMA_COLUMN_IDS {
            return false;
        }
        let ghost before = column_views(self.column_definitions@);
        let mut taken = Self::new();
        core::mem::swap(self, &mut taken);
        let Self { name, next_column_index, column_definitions } = taken;
        let mut column_definitions = column_definitions;
        let column = ColumnDefinition::new(next_column_index as u8, data_type, column_name.to_string());
        column_definitions.push(column);
        proof {
            assert(column_views(column_definitions@) =~= before.push(column@));
            assert(names_of(before.push(column@)) =~= names_of(before).push(column_name@));
            assert(!names_of(before).contains(column_name@)) by {
                if names_of(before).contains(column_name@) {
                    let i = choose|i: int|
                        0 <= i < names_of(before).len() && names_of(before)[i] == column_name@;
                    assert(before[i].name == column_name@);
                }
            }
            crate::names::lemma_push_keeps_names_distinct(names_of(before), column_name@);
        }
        *self = Self { name, next_column_index: next_column_index + 1, column_definitions };
        true
    }

    /// Drops the column with the name. Refuses when no column has it.
    pub fn drop_column(&mut self, column_name: &str) -> (dropped: bool)
        ensures
            dropped == has_column(old(self).columns(), column_name@),
            final(self).table_name() == old(self).table_name(),
            final(self).next_id() == old(self).next_id(),
            !has_column(final(self).columns(), column_name@),
            dropped ==> exists|position: int|
                0 <= position < old(self).columns().len() && (#[trigger] old(
                    self,
                ).columns()[position]).name == column_name@ && final(self).columns() == old(
                    self,
                ).columns().remove(position),
            !dropped ==> final(self).columns() == old(self).columns(),
    {
        proof {
            use_type_invariant(&*self);
        }
        match find_column(&self.column_definitions, column_name) {
            Some(position) => {
                let ghost before = column_views(self.column_definitions@);
                let mut taken = Self::new();
                core::mem::swap(self, &mut taken);
                let Self { name, next_column_index, column_definitions } = taken;
                let mut column_definitions = column_definitions;
                column_definitions.remove(position);
                proof {
                    let after = column_views(column_definitions@);
                    assert(after =~= before.remove(position as int));
                    assert(names_of(after) =~= names_of(before).remove(position as int));
                    crate::names::lemma_remove_keeps_names_distinct(
                        names_of(before),
                        position as int,
                    );
                    if has_column(after, column_name@) {
                        let i = choose|i: int|
                            0 <= i < after.len() && (#[trigger] after[i]).name == column_name@;
                        assert(names_of(after)[i] == column_name@);
                    }
                }
                *self = Self { name, next_column_index, column_definitions };
                true
            },
            None => false,
        }
    }

    /// A copy of the schema.
    pub fn duplicate(&self) -> (schema: Self)
        ensures
            schema.table_name() == self.table_name(),
            schema.columns() == self.columns(),
            schema.next_id() == self.next_id(),
    {
        proof {
            use_type_invariant(self);
        }
        Self {
            name: self.name.clone(),
            next_column_index: self.next_column_index,
            column_definitions: crate::table_manager::duplicate_columns(&self.column_definitions),
        }
    }
}

} // verus!
