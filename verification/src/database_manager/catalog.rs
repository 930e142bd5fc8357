use vstd::prelude::*;
use crate::database_definition::DatabaseDefinition;
use crate::names::copy_names;
use crate::names::find_name;
use crate::row_result::texts;

verus! {

/// The databases of a catalog that lives in memory only: a database for
/// each name.
pub struct DatabaseManager {
    names: Vec<String>,
    databases: Vec<DatabaseDefinition>,
}

impl DatabaseManager {
    #[verifier::type_invariant]
    closed spec fn distinct_names(&self) -> bool {
        &&& texts(self.names@).no_duplicates()
        &&& self.databases@.len() == self.names@.len()
    }

    /// The names of the databases, in the order they were created.
    pub closed spec fn databases(&self) -> Seq<Seq<char>> {
        texts(self.names@)
    }

    /// The names of the tables of the database at `position`.
    pub closed spec fn tables_at(&self, position: int) -> Seq<Seq<char>> {
        self.databases@[position].tables()
    }

    /// The names of the tables of the database with the name.
    pub open spec fn tables_of(&self, database_name: Seq<char>) -> Seq<Seq<char>> {
        self.tables_at(self.databases().index_of(database_name))
    }

    /// A catalog without databases.
    pub fn new() -> (manager: Self)
        ensures
            manager.databases() == Seq::<Seq<char>>::empty(),
    {
        let manager = Self { names: Vec::new(), databases: Vec::new() };
        assert(manager.databases() =~= Seq::<Seq<char>>::empty());
        manager
    }

    /// The names of the databases, in the order they were created.
    pub fn database_names(&self) -> (names: Vec<String>)
        ensures
            texts(names@) == self.databases(),
    {
        copy_names(&self.names)
    }

    /// The position of the database with the name.
    fn position_of(&self, database_name: &str) -> (found: Option<usize>)
        ensures
            match found {
                Some(position) => {
                    &&& self.databases().contains(database_name@)
                    &&& position == self.databases().index_of(database_name@)
                    &&& position < self.databases().len()
                },
                None => !self.databases().contains(database_name@),
            },
    {
        proof {
            use_type_invariant(self);
        }
        let found = find_name(&self.names, database_name);
        proof {
            if found is Some {
                let names = self.databases();
                let position = found->0 as int;
                assert(names.contains(database_name@));
                let chosen = names.index_of(database_name@);
                assert(names[chosen] == database_name@);
                assert(chosen == position);
            }
        }
        found
    }

    /// The names of the tables of the database with the name, if there is
    /// such a database.
    pub fn database_table_names(&self, database_name: &str) -> (names: Option<Vec<String>>)
        ensures
            names is Some <==> self.databases().contains(database_name@),
            names is Some ==> texts(names->0@) == self.tables_of(database_name@),
    {
        proof {
            use_type_invariant(self);
        }
        match self.position_of(database_name) {
            Some(position) => Some(self.databases[position].table_names()),
            None => None,
        }
    }

    /// Whether the catalog has a database with the name.
    pub fn database_exists(&self, key: &str) -> (exists: bool)
        ensures
            exists == self.databases().contains(key@),
    {
        self.position_of(key).is_some()
    }

    /// Creates a table without columns in the database with the name.
    /// Refuses, changing nothing, when there is no such database or it has a
    /// table of that name.
    pub fn create_table(&mut self, database_name: &str, table_name: &str) -> (created: bool)
        ensures
            final(self).databases() == old(self).databases(),
            created == (old(self).databases().contains(database_name@) && !old(self).tables_of(
                database_name@,
            ).contains(table_name@)),
            created ==> final(self).tables_of(database_name@) == old(self).tables_of(
                database_name@,
            ).push(table_name@),
            forall|position: int|
                0 <= position < old(self).databases().len() && !(created && position == old(
                    self,
                ).databases().index_of(database_name@)) ==> final(self).tables_at(position) == old(
                    self,
                ).tables_at(position),
    {
        proof {
            use_type_invariant(&*self);
        }
        match self.position_of(database_name) {
            Some(position) => {
                let mut taken = Self::new();
                core::mem::swap(self, &mut taken);
                let Self { names, databases } = taken;
                let mut databases = databases;
                let created = databases[position].create_table(table_name).is_some();
                *self = Self { names, databases };
                created
            },
            None => false,
        }
    }

    /// Creates a database without tables. Refuses, changing nothing, when
    /// the catalog has a database of that name.
    pub fn create_database(&mut self, name: &str) -> (created: Option<()>)
        ensures
            created is Some <==> !old(self).databases().contains(name@),
            created is Some ==> {
                &&& final(self).databases() == old(self).databases().push(name@)
                &&& final(self).tables_of(name@) == Seq::<Seq<char>>::empty()
            },
            created is None ==> final(self).databases() == old(self).databases(),
            forall|position: int|
                0 <= position < old(self).databases().len() ==> final(self).tables_at(position)
                    == old(self).tables_at(position),
    {
        proof {
            use_type_invariant(&*self);
        }
        if self.position_of(name).is_some() {
            return None;
        }
        let ghost before = texts(self.names@);
        let mut taken = Self::new();
        core::mem::swap(self, &mut taken);
        let Self { names, databases } = taken;
        let mut names = names;
        let mut databases = databases;
        names.push(name.to_string());
        databases.push(DatabaseDefinition::new());
        proof {
            let after = texts(names@);
            assert(after =~= before.push(name@));
            crate::names::lemma_push_keeps_names_distinct(before, name@);
            assert(after[before.len() as int] == name@);
            assert(after.contains(name@));
            let chosen = after.index_of(name@);
            assert(after[chosen] == name@);
            assert(chosen == before.len());
        }
        *self = Self { names, databases };
        Some(())
    }
}

} // verus!
