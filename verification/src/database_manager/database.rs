use vstd::prelude::*;
use crate::names::copy_names;
use crate::names::find_name;
use crate::row_result::texts;
use crate::table_schema::TableSchema;

verus! {

/// The tables of a database that lives in memory only: a schema under the
/// name that the schema carries.
pub struct Database {
    names: Vec<String>,
    schemas: Vec<TableSchema>,
}

impl Database {
    #[verifier::type_invariant]
    closed spec fn distinct_names(&self) -> bool {
        &&& texts(self.names@).no_duplicates()
        &&& self.schemas@.len() == self.names@.len()
    }

    /// The names of the tables, in the order they were created.
    pub closed spec fn tables(&self) -> Seq<Seq<char>> {
        texts(self.names@)
    }

    /// A database without tables.
    pub fn new() -> (database: Self)
        ensures
            database.tables() == Seq::<Seq<char>>::empty(),
    {
        let database = Self { names: Vec::new(), schemas: Vec::new() };
        assert(database.tables() =~= Seq::<Seq<char>>::empty());
        database
    }

    /// The names of the tables, in the order they were created.
    pub fn table_names(&self) -> (names: Vec<String>)
        ensures
            texts(names@) == self.tables(),
    {
        copy_names(&self.names)
    }

    /// Creates a table with a copy of the schema, under the schema's name.
    /// Refuses, changing nothing, when the database has a table of that
    /// name.
    pub fn create_table(&mut self, table_schema: &TableSchema) -> (created: Option<()>)
        ensures
            created is Some <==> !old(self).tables().contains(table_schema.table_name()),
            created is Some ==> final(self).tables() == old(self).tables().push(
                table_schema.table_name(),
            ),
            created is None ==> final(self).tables() == old(self).tables(),
    {
        proof {
            use_type_invariant(&*self);
        }
        if self.table_exists(table_schema.name().as_str()) {
            return None;
        }
        let ghost before = texts(self.names@);
        let mut taken = Self::new();
        core::mem::swap(self, &mut taken);
        let Self { names, schemas } = taken;
        let mut names = names;
        let mut schemas = schemas;
        names.push(table_schema.name().clone());
        schemas.push(table_schema.duplicate());
        proof {
            assert(texts(names@) =~= before.push(table_schema.table_name()));
            crate::names::lemma_push_keeps_names_distinct(before, table_schema.table_name());
        }
        *self = Self { names, schemas };
        Some(())
    }

    /// Whether the database has a table with the name.
    pub fn table_exists(&self, table_name: &str) -> (exists: bool)
        ensures
            exists == self.tables().contains(table_name@),
    {
        find_name(&self.names, table_name).is_some()
    }
}

} // verus!
