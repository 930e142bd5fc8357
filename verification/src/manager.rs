use vstd::prelude::*;
use vstd::string::StringSliceAdditionalSpecFns;
use vstd::utf8::encode_utf8;
use crate::catalog_fields::read_id_list;
use crate::catalog_fields::stored_id_list;
use crate::catalog_fields::stored_name;
use crate::catalog_fields::write_id_list;
use crate::catalog_fields::MAX_LISTED_PAGES;
use crate::catalog_fields::MAX_NAME_BYTES;
use crate::column_definition::column_views;
use crate::column_definition::ColumnDefinition;
use crate::data_type::DataType;
use crate::database::names_of_tables;
use crate::database::requested;
use crate::database::Database;
use crate::database::DATABASE_NAME_OFFSET;
use crate::error::Error;
use crate::error::ErrorView;
use crate::page::InternalPage;
use crate::page_manager::PageId;
use crate::page_manager::PageManager;
use crate::parser::data_type_identifier::DataTypeIdentifier;
use crate::parser::grammar::parsed;
use crate::parser::grammar::CommandView;
use crate::parser::literal_value::LiteralValue;
use crate::parser::statement::declared;
use crate::parser::statement::parse;
use crate::parser::statement::Command;
use crate::query_result::QueryResult;
use crate::row_result::texts;
use crate::table_manager::str_views;
use crate::text::str_eq;
use crate::tokenizer::tokens_of;
use crate::value::Value;

verus! {

/// Where the list of databases starts in the metadata region of the root page.
pub const DATABASE_LIST_OFFSET: usize = 0;

/// The page exists and holds the name of a database.
pub open spec fn holds_database(pages: Seq<InternalPage>, page_id: PageId) -> bool {
    page_id < pages.len() && stored_name(
        pages[page_id as int].metadata@,
        DATABASE_NAME_OFFSET as int,
    ) is Some
}

/// The page holds a database with the name.
pub open spec fn is_database_named(pages: Seq<InternalPage>, page_id: PageId, name: Seq<char>) -> bool {
    page_id < pages.len() && stored_name(
        pages[page_id as int].metadata@,
        DATABASE_NAME_OFFSET as int,
    ) == Some(name)
}

/// Some page of the list holds a database with the name.
pub open spec fn has_database(pages: Seq<InternalPage>, page_ids: Seq<PageId>, name: Seq<char>) -> bool {
    exists|k: int| 0 <= k < page_ids.len() && is_database_named(pages, #[trigger] page_ids[k], name)
}

/// `position` is where the first page stands that holds a database with the name.
pub open spec fn is_first_database(
    pages: Seq<InternalPage>,
    page_ids: Seq<PageId>,
    name: Seq<char>,
    position: int,
) -> bool {
    &&& 0 <= position < page_ids.len()
    &&& is_database_named(pages, page_ids[position], name)
    &&& forall|j: int| 0 <= j < position ==> !is_database_named(pages, #[trigger] page_ids[j], name)
}

/// The first database of the list with the name.
pub open spec fn database_named(pages: Seq<InternalPage>, page_ids: Seq<PageId>, name: Seq<char>) -> Database {
    Database {
        page_id: page_ids[choose|position: int| is_first_database(pages, page_ids, name, position)],
    }
}

/// The names of the databases that the pages of the list hold, in order. A
/// page that holds no name contributes none.
pub open spec fn names_of_databases(pages: Seq<InternalPage>, page_ids: Seq<PageId>) -> Seq<Seq<char>>
    decreases page_ids.len(),
{
    if page_ids.len() == 0 {
        Seq::empty()
    } else if holds_database(pages, page_ids.last()) {
        names_of_databases(pages, page_ids.drop_last()).push(
            stored_name(pages[page_ids.last() as int].metadata@, DATABASE_NAME_OFFSET as int)->0,
        )
    } else {
        names_of_databases(pages, page_ids.drop_last())
    }
}

/// The pages of the list that hold a database, in order.
pub open spec fn databases_listed(pages: Seq<InternalPage>, page_ids: Seq<PageId>) -> Seq<PageId>
    decreases page_ids.len(),
{
    if page_ids.len() == 0 {
        Seq::empty()
    } else if holds_database(pages, page_ids.last()) {
        databases_listed(pages, page_ids.drop_last()).push(page_ids.last())
    } else {
        databases_listed(pages, page_ids.drop_last())
    }
}

/// The columns that a command declares, with the types their names stand for.
pub open spec fn declared_columns(columns: Seq<(Seq<char>, DataTypeIdentifier)>) -> Seq<
    (Seq<char>, DataType),
> {
    columns.map_values(|column: (Seq<char>, DataTypeIdentifier)| (column.0, column.1.data_type()))
}

/// The values that the literals of a command stand for.
pub open spec fn literal_values(literals: Seq<LiteralValue>) -> Seq<Value> {
    literals.map_values(|literal: LiteralValue| literal.value())
}

/// The root of the catalog. It owns the arena of pages; its own page lists
/// the pages of the databases. Commands are carried out on the database
/// whose name the caller gives.
pub struct Manager {
    page_manager: PageManager,
    page_id: PageId,
}

impl Manager {
    /// The pages of the arena.
    pub closed spec fn pages(&self) -> Seq<InternalPage> {
        self.page_manager@
    }

    /// The id of the root page.
    pub closed spec fn root(&self) -> PageId {
        self.page_id
    }

    /// The root page exists.
    pub open spec fn wf(&self) -> bool {
        self.root() < self.pages().len()
    }

    /// Another page can be created.
    pub open spec fn has_room(&self) -> bool {
        self.pages().len() < u32::MAX
    }

    /// The ids of the pages that the root lists as databases.
    pub open spec fn database_ids(&self) -> Seq<PageId> {
        stored_id_list(self.pages()[self.root() as int].metadata@, DATABASE_LIST_OFFSET as int)
    }

    /// The catalog has a database with the name.
    pub open spec fn has_database(&self, name: Seq<char>) -> bool {
        has_database(self.pages(), self.database_ids(), name)
    }

    /// The first database of the catalog with the name.
    pub open spec fn database(&self, name: Seq<char>) -> Database {
        database_named(self.pages(), self.database_ids(), name)
    }

    /// Takes over an arena and creates the root page in it, which lists no
    /// database.
    pub fn new(page_manager: PageManager) -> (manager: Self)
        requires
            page_manager.has_room(),
        ensures
            manager.wf(),
            manager.root() == page_manager@.len(),
            manager.pages().len() == page_manager@.len() + 1,
            forall|i: int| 0 <= i < page_manager@.len() ==> manager.pages()[i] == page_manager@[i],
            manager.database_ids() == Seq::<PageId>::empty(),
    {
        let mut page_manager = page_manager;
        let page_id = page_manager.create_page();
        let no_databases: Vec<PageId> = Vec::new();
        let written = Self::write_metadata_page(&mut page_manager, page_id, &no_databases);
        assert(written);
        Manager { page_manager, page_id }
    }

    /// Takes over an arena whose page `page_id` is the root page. Fails
    /// when the arena has no such page.
    pub fn load(page_manager: PageManager, page_id: PageId) -> (manager: Option<Self>)
        ensures
            manager is Some <==> page_id < page_manager@.len(),
            manager is Some ==> manager->0.wf() && manager->0.root() == page_id
                && manager->0.pages() == page_manager@,
    {
        if (page_id as usize) < page_manager.page_count() {
            Some(Manager { page_manager, page_id })
        } else {
            None
        }
    }

    /// The arena of pages.
    pub fn page_manager(&self) -> (page_manager: &PageManager)
        ensures
            page_manager@ == self.pages(),
    {
        &self.page_manager
    }

    /// The id of the root page.
    pub fn root_page_id(&self) -> (page_id: PageId)
        ensures
            page_id == self.root(),
    {
        self.page_id
    }

    /// Whether another page can be created.
    pub fn can_grow(&self) -> (room: bool)
        ensures
            room == self.has_room(),
    {
        self.page_manager.can_create_page()
    }

    /// Writes the list of databases into the root page. Nothing is written
    /// where the page does not exist or the list has more than 255 entries.
    pub fn write_metadata_page(
        page_manager: &mut PageManager,
        page_id: PageId,
        database_page_ids: &Vec<PageId>,
    ) -> (written: bool)
        ensures
            written == (page_id < old(page_manager)@.len() && database_page_ids@.len()
                <= MAX_LISTED_PAGES),
            !written ==> final(page_manager)@ == old(page_manager)@,
            written ==> {
                &&& final(page_manager)@.len() == old(page_manager)@.len()
                &&& forall|i: int|
                    0 <= i < old(page_manager)@.len() && i != page_id ==> final(page_manager)@[i]
                        == old(page_manager)@[i]
                &&& final(page_manager)@[page_id as int].data == old(
                    page_manager,
                )@[page_id as int].data
                &&& stored_id_list(
                    final(page_manager)@[page_id as int].metadata@,
                    DATABASE_LIST_OFFSET as int,
                ) == database_page_ids@
            },
    {
        if database_page_ids.len() > MAX_LISTED_PAGES {
            return false;
        }
        match page_manager.fetch_page_mut(page_id) {
            Some(page) => {
                write_id_list(&mut page.metadata, DATABASE_LIST_OFFSET, database_page_ids);
                true
            },
            None => false,
        }
    }

    /// The ids of the pages that the root lists as databases.
    pub fn database_page_ids(&self) -> (page_ids: Vec<PageId>)
        requires
            self.wf(),
        ensures
            page_ids@ == self.database_ids(),
    {
        match self.page_manager.fetch_page(self.page_id) {
            Some(page) => read_id_list(&page.metadata, DATABASE_LIST_OFFSET),
            None => Vec::new(),
        }
    }

    /// The catalogs of the databases, in the order of the list. A listed
    /// page that holds no database is left out.
    pub fn databases(&self) -> (databases: Vec<Database>)
        requires
            self.wf(),
        ensures
            forall|i: int|
                0 <= i < databases@.len() ==> holds_database(
                    self.pages(),
                    (#[trigger] databases@[i]).page_id(),
                ),
            databases@.map_values(|database: Database| database.page_id()) == databases_listed(
                self.pages(),
                self.database_ids(),
            ),
            databases@.map_values(|database: Database| database.name_in(self.pages())->0)
                == names_of_databases(self.pages(), self.database_ids()),
    {
        let page_ids = self.database_page_ids();
        let ghost pages = self.pages();
        let mut databases: Vec<Database> = Vec::new();
        let mut index: usize = 0;
        assert(databases@.map_values(|database: Database| database.name_in(pages)->0)
            =~= names_of_databases(pages, page_ids@.take(0)));
        assert(databases@.map_values(|database: Database| database.page_id())
            =~= databases_listed(pages, page_ids@.take(0)));
        while index < page_ids.len()
            invariant
                pages == self.pages(),
                index <= page_ids@.len(),
                forall|i: int|
                    0 <= i < databases@.len() ==> holds_database(
                        pages,
                        (#[trigger] databases@[i]).page_id(),
                    ),
                databases@.map_values(|database: Database| database.page_id())
                    == databases_listed(pages, page_ids@.take(index as int)),
                databases@.map_values(|database: Database| database.name_in(pages)->0)
                    == names_of_databases(pages, page_ids@.take(index as int)),
            decreases page_ids@.len() - index,
        {
            let ghost before = databases@;
            proof {
                let listed = page_ids@.take(index + 1);
                assert(listed.drop_last() =~= page_ids@.take(index as int));
                assert(listed.last() == page_ids@[index as int]);
            }
            match Database::load(&self.page_manager, page_ids[index]) {
                Ok(database) => {
                    databases.push(database);
                    assert(databases@.map_values(|database: Database| database.name_in(pages)->0)
                        =~= before.map_values(|database: Database| database.name_in(pages)->0).push(
                        database.name_in(pages)->0,
                    ));
                    assert(databases@.map_values(|database: Database| database.page_id())
                        =~= before.map_values(|database: Database| database.page_id()).push(
                        database.page_id(),
                    ));
                },
                Err(_) => {},
            }
            index = index + 1;
        }
        assert(page_ids@.take(index as int) =~= page_ids@);
        databases
    }

    /// The names of the databases, in the order of the list.
    pub fn database_names(&self) -> (names: Vec<String>)
        requires
            self.wf(),
        ensures
            texts(names@) == names_of_databases(self.pages(), self.database_ids()),
    {
        let databases = self.databases();
        let mut names: Vec<String> = Vec::new();
        let mut index: usize = 0;
        while index < databases.len()
            invariant
                index <= databases@.len(),
                forall|i: int|
                    0 <= i < databases@.len() ==> holds_database(
                        self.pages(),
                        (#[trigger] databases@[i]).page_id(),
                    ),
                names@.len() == index,
                forall|i: int|
                    0 <= i < index ==> (#[trigger] names@[i])@ == databases@[i].name_in(
                        self.pages(),
                    )->0,
            decreases databases@.len() - index,
        {
            assert(holds_database(self.pages(), databases@[index as int].page_id()));
            match databases[index].name(&self.page_manager) {
                Some(name) => {
                    names.push(name);
                },
                None => {
                    names.push(String::new());
                },
            }
            index = index + 1;
        }
        assert(texts(names@) =~= databases@.map_values(
            |database: Database| database.name_in(self.pages())->0,
        ));
        names
    }

    /// The first database with the name, if there is one.
    pub fn find_database(&self, database_name: &str) -> (found: Option<Database>)
        requires
            self.wf(),
        ensures
            match found {
                Some(database) => {
                    &&& self.has_database(database_name@)
                    &&& database == self.database(database_name@)
                    &&& database.exists_in(self.pages())
                },
                None => !self.has_database(database_name@),
            },
    {
        let page_ids = self.database_page_ids();
        let ghost pages = self.pages();
        let mut index: usize = 0;
        while index < page_ids.len()
            invariant
                pages == self.pages(),
                page_ids@ == self.database_ids(),
                index <= page_ids@.len(),
                forall|j: int|
                    0 <= j < index ==> !is_database_named(pages, #[trigger] page_ids@[j], database_name@),
            decreases page_ids@.len() - index,
        {
            match Database::load(&self.page_manager, page_ids[index]) {
                Ok(database) => {
                    let matches = match database.name(&self.page_manager) {
                        Some(name) => str_eq(name.as_str(), database_name),
                        None => false,
                    };
                    if matches {
                        proof {
                            assert(is_first_database(pages, page_ids@, database_name@, index as int));
                            let chosen = choose|position: int|
                                is_first_database(pages, page_ids@, database_name@, position);
                            if chosen < index {
                                assert(!is_database_named(pages, page_ids@[chosen], database_name@));
                            }
                            if index < chosen {
                                assert(!is_database_named(
                                    pages,
                                    page_ids@[index as int],
                                    database_name@,
                                ));
                            }
                        }
                        return Some(database);
                    }
                },
                Err(_) => {},
            }
            index = index + 1;
        }
        None
    }

    /// Whether the catalog has a database with the name.
    pub fn database_exists(&self, key: &str) -> (exists: bool)
        requires
            self.wf(),
        ensures
            exists == self.has_database(key@),
    {
        self.find_database(key).is_some()
    }

    /// The names of the tables of the database with the name. Fails with
    /// `DatabaseDoesNotExist` when the catalog has no such database.
    pub fn database_table_names(&self, database_name: &str) -> (names: Result<Vec<String>, Error>)
        requires
            self.wf(),
        ensures
            match names {
                Ok(found) => {
                    &&& self.has_database(database_name@)
                    &&& texts(found@) == names_of_tables(
                        self.pages(),
                        self.database(database_name@).table_ids(self.pages()),
                    )
                },
                Err(error) => {
                    &&& !self.has_database(database_name@)
                    &&& error@ == ErrorView::DatabaseDoesNotExist(database_name@)
                },
            },
    {
        match self.find_database(database_name) {
            Some(database) => Ok(database.table_names(&self.page_manager)),
            None => Err(Error::DatabaseDoesNotExist(database_name.to_string())),
        }
    }

    /// The columns of a table of a database. Fails with
    /// `DatabaseDoesNotExist` when the catalog has no such database, and with
    /// `TableDoesNotExist` when the database has no such table.
    pub fn table_definition(&self, database_name: &str, table_name: &str) -> (columns: Result<
        Vec<ColumnDefinition>,
        Error,
    >)
        requires
            self.wf(),
        ensures
            match columns {
                Ok(found) => {
                    let database = self.database(database_name@);
                    &&& self.has_database(database_name@)
                    &&& database.has_table(self.pages(), table_name@)
                    &&& column_views(found@) == database.table(self.pages(), table_name@).table(
                        self.pages(),
                    ).columns
                },
                Err(error) => if self.has_database(database_name@) {
                    &&& !self.database(database_name@).has_table(self.pages(), table_name@)
                    &&& error@ == ErrorView::TableDoesNotExist(table_name@)
                } else {
                    error@ == ErrorView::DatabaseDoesNotExist(database_name@)
                },
            },
    {
        match self.find_database(database_name) {
            Some(database) => database.column_definitions(&self.page_manager, table_name),
            None => Err(Error::DatabaseDoesNotExist(database_name.to_string())),
        }
    }

    /// Why a database with the name cannot be created, if it cannot: the
    /// catalog has a database of that name; the name takes 63 bytes or more;
    /// or the root already lists 255 pages.
    pub open spec fn create_database_error(&self, name: Seq<char>) -> Option<ErrorView> {
        if self.has_database(name) {
            Some(ErrorView::DatabaseAlreadyExists(name))
        } else if encode_utf8(name).len() > MAX_NAME_BYTES {
            Some(ErrorView::DatabaseNameTooLong)
        } else if self.database_ids().len() >= MAX_LISTED_PAGES {
            Some(ErrorView::InsertFailed)
        } else {
            None
        }
    }

    /// What creating a database gives, where `self` is the catalog before
    /// and `after` the catalog after. Where it succeeds, a new page holds
    /// the database, without tables, and the root lists that page last.
    pub open spec fn is_create_database_outcome(
        &self,
        after: Manager,
        name: Seq<char>,
        result: Result<QueryResult, Error>,
    ) -> bool {
        &&& after.root() == self.root()
        &&& match result {
            Ok(QueryResult::CommandSuccessMessage(message)) => {
                let created = Database { page_id: self.pages().len() as u32 };
                &&& message@ == "CREATE DATABASE"@
                &&& self.create_database_error(name) is None
                &&& after.pages().len() == self.pages().len() + 1
                &&& forall|i: int|
                    0 <= i < self.pages().len() && i != self.root() ==> #[trigger] after.pages()[i]
                        == self.pages()[i]
                &&& after.pages()[self.root() as int].data == self.pages()[self.root() as int].data
                &&& after.database_ids() == self.database_ids().push(self.pages().len() as u32)
                &&& created.name_in(after.pages()) == Some(name)
                &&& created.table_ids(after.pages()) == Seq::<PageId>::empty()
            },
            Ok(_) => false,
            Err(error) => {
                &&& after.pages() == self.pages()
                &&& self.create_database_error(name) == Some(error@)
            },
        }
    }

    /// Creates a database without tables, and gives the message `CREATE
    /// DATABASE`. Everything is checked before anything is written: a
    /// failure leaves every page as it is and creates none.
    pub fn create_database(&mut self, name: &str) -> (result: Result<QueryResult, Error>)
        requires
            old(self).wf(),
            old(self).has_room(),
        ensures
            final(self).wf(),
            old(self).is_create_database_outcome(*final(self), name@, result),
    {
        if self.find_database(name).is_some() {
            return Err(Error::DatabaseAlreadyExists(name.to_string()));
        }
        if name.as_bytes().len() > MAX_NAME_BYTES {
            return Err(Error::DatabaseNameTooLong);
        }
        let mut page_ids = self.database_page_ids();
        if page_ids.len() >= MAX_LISTED_PAGES {
            return Err(Error::InsertFailed);
        }
        match Database::new(&mut self.page_manager, name) {
            Ok(database) => {
                page_ids.push(database.id());
                let written = Self::write_metadata_page(
                    &mut self.page_manager,
                    self.page_id,
                    &page_ids,
                );
                assert(written);
                Ok(QueryResult::CommandSuccessMessage("CREATE DATABASE".to_string()))
            },
            Err(error) => Err(error),
        }
    }

    /// What creating a table in the database with the name gives.
    pub open spec fn is_create_table_outcome(
        &self,
        after: Manager,
        database_name: Seq<char>,
        table_name: Seq<char>,
        wanted: Seq<(Seq<char>, DataType)>,
        result: Result<QueryResult, Error>,
    ) -> bool {
        let database = self.database(database_name);
        &&& after.root() == self.root()
        &&& if self.has_database(database_name) {
            match result {
                Ok(QueryResult::CommandSuccessMessage(message)) => {
                    &&& message@ == "CREATE TABLE"@
                    &&& database.is_create_outcome(
                        self.pages(),
                        after.pages(),
                        table_name,
                        wanted,
                        Ok(database.table_ids(self.pages()).len() as u64),
                    )
                },
                Ok(_) => false,
                Err(error) => database.is_create_outcome(
                    self.pages(),
                    after.pages(),
                    table_name,
                    wanted,
                    Err(error),
                ),
            }
        } else {
            &&& after.pages() == self.pages()
            &&& result matches Err(error) && error@ == ErrorView::DatabaseDoesNotExist(
                database_name,
            )
        }
    }

    /// Creates a table in the database with the name, and gives the message
    /// `CREATE TABLE`. Fails with `DatabaseDoesNotExist` when the catalog has
    /// no such database, and as `Database::create_table` does otherwise.
    pub fn create_table(
        &mut self,
        database_name: &str,
        table_name: &str,
        columns: Vec<(String, DataType)>,
    ) -> (result: Result<QueryResult, Error>)
        requires
            old(self).wf(),
            old(self).has_room(),
        ensures
            final(self).wf(),
            old(self).is_create_table_outcome(
                *final(self),
                database_name@,
                table_name@,
                requested(columns@),
                result,
            ),
    {
        let database = match self.find_database(database_name) {
            Some(database) => database,
            None => {
                return Err(Error::DatabaseDoesNotExist(database_name.to_string()));
            },
        };
        match database.create_table(&mut self.page_manager, table_name, columns) {
            Ok(_) => Ok(QueryResult::CommandSuccessMessage("CREATE TABLE".to_string())),
            Err(error) => Err(error),
        }
    }

    /// What adding a column to a table of the database with the name gives.
    pub open spec fn is_add_column_outcome(
        &self,
        after: Manager,
        database_name: Seq<char>,
        table_name: Seq<char>,
        column_name: Seq<char>,
        data_type: DataType,
        result: Result<QueryResult, Error>,
    ) -> bool {
        let database = self.database(database_name);
        &&& after.root() == self.root()
        &&& if self.has_database(database_name) {
            match result {
                Ok(QueryResult::CommandSuccessMessage(message)) => database.is_column_outcome(
                    self.pages(),
                    after.pages(),
                    table_name,
                    column_name,
                    data_type,
                    Ok(message),
                ),
                Ok(_) => false,
                Err(error) => database.is_column_outcome(
                    self.pages(),
                    after.pages(),
                    table_name,
                    column_name,
                    data_type,
                    Err(error),
                ),
            }
        } else {
            &&& after.pages() == self.pages()
            &&& result matches Err(error) && error@ == ErrorView::DatabaseDoesNotExist(
                database_name,
            )
        }
    }

    /// Adds a column to a table of the database with the name, and gives the
    /// message `ALTER TABLE`. Fails with `DatabaseDoesNotExist` when the
    /// catalog has no such database, and as `Database::add_column` does
    /// otherwise.
    pub fn add_column(
        &mut self,
        database_name: &str,
        table_name: &str,
        column_name: &str,
        data_type: DataType,
    ) -> (result: Result<QueryResult, Error>)
        requires
            old(self).wf(),
        ensures
            final(self).wf(),
            old(self).is_add_column_outcome(
                *final(self),
                database_name@,
                table_name@,
                column_name@,
                data_type,
                result,
            ),
    {
        let database = match self.find_database(database_name) {
            Some(database) => database,
            None => {
                return Err(Error::DatabaseDoesNotExist(database_name.to_string()));
            },
        };
        match database.add_column(&mut self.page_manager, table_name, column_name, data_type) {
            Ok(message) => Ok(QueryResult::CommandSuccessMessage(message)),
            Err(error) => Err(error),
        }
    }

    /// What storing a row in a table of the database with the name gives.
    pub open spec fn is_insert_outcome(
        &self,
        after: Manager,
        database_name: Seq<char>,
        table_name: Seq<char>,
        values: Seq<Value>,
        result: Result<QueryResult, Error>,
    ) -> bool {
        let database = self.database(database_name);
        &&& after.root() == self.root()
        &&& if self.has_database(database_name) {
            match result {
                Ok(QueryResult::InsertSuccess { count }) => {
                    &&& count == 1
                    &&& exists|id: u64|
                        database.is_insert_outcome(
                            self.pages(),
                            after.pages(),
                            table_name,
                            values,
                            Ok(id),
                        )
                },
                Ok(_) => false,
                Err(error) => database.is_insert_outcome(
                    self.pages(),
                    after.pages(),
                    table_name,
                    values,
                    Err(error),
                ),
            }
        } else {
            &&& after.pages() == self.pages()
            &&& result matches Err(error) && error@ == ErrorView::DatabaseDoesNotExist(
                database_name,
            )
        }
    }

    /// Stores a row in a table of the database with the name, and gives the
    /// number of rows stored, which is 1. Fails with `DatabaseDoesNotExist`
    /// when the catalog has no such database, and as `Database::insert_row`
    /// does otherwise.
    pub fn insert_row(&mut self, database_name: &str, table_name: &str, values: Vec<Value>) -> (result:
        Result<QueryResult, Error>)
        requires
            old(self).wf(),
        ensures
            final(self).wf(),
            old(self).is_insert_outcome(*final(self), database_name@, table_name@, values@, result),
    {
        let database = match self.find_database(database_name) {
            Some(database) => database,
            None => {
                return Err(Error::DatabaseDoesNotExist(database_name.to_string()));
            },
        };
        match database.insert_row(&mut self.page_manager, table_name, values) {
            Ok(id) => {
                assert(database.is_insert_outcome(
                    old(self).pages(),
                    self.pages(),
                    table_name@,
                    values@,
                    Ok(id),
                ));
                Ok(QueryResult::InsertSuccess { count: 1 })
            },
            Err(error) => Err(error),
        }
    }

    /// What selecting all columns of a table of the database with the name gives.
    pub open spec fn is_select_all_outcome(
        &self,
        database_name: Seq<char>,
        table_name: Seq<char>,
        result: Result<QueryResult, Error>,
    ) -> bool {
        let database = self.database(database_name);
        if self.has_database(database_name) {
            match result {
                Ok(QueryResult::RowResult(rows)) => database.is_select_all_outcome(
                    self.pages(),
                    table_name,
                    Ok(rows),
                ),
                Ok(_) => false,
                Err(error) => database.is_select_all_outcome(self.pages(), table_name, Err(error)),
            }
        } else {
            result matches Err(error) && error@ == ErrorView::DatabaseDoesNotExist(database_name)
        }
    }

    /// All rows of a table of the database with the name. Fails with
    /// `DatabaseDoesNotExist` when the catalog has no such database, and with
    /// `TableDoesNotExist` when the database has no such table.
    pub fn select_all(&self, database_name: &str, table_name: &str) -> (result: Result<
        QueryResult,
        Error,
    >)
        requires
            self.wf(),
        ensures
            self.is_select_all_outcome(database_name@, table_name@, result),
    {
        let database = match self.find_database(database_name) {
            Some(database) => database,
            None => {
                return Err(Error::DatabaseDoesNotExist(database_name.to_string()));
            },
        };
        match database.select_all_columns(&self.page_manager, table_name) {
            Ok(rows) => Ok(QueryResult::RowResult(rows)),
            Err(error) => Err(error),
        }
    }

    /// What selecting columns of a table of the database with the name gives.
    pub open spec fn is_select_outcome(
        &self,
        database_name: Seq<char>,
        table_name: Seq<char>,
        columns: Seq<Seq<char>>,
        result: Result<QueryResult, Error>,
    ) -> bool {
        let database = self.database(database_name);
        if self.has_database(database_name) {
            match result {
                Ok(QueryResult::RowResult(rows)) => database.is_select_outcome(
                    self.pages(),
                    table_name,
                    columns,
                    Ok(rows),
                ),
                Ok(_) => false,
                Err(error) => database.is_select_outcome(
                    self.pages(),
                    table_name,
                    columns,
                    Err(error),
                ),
            }
        } else {
            result matches Err(error) && error@ == ErrorView::DatabaseDoesNotExist(database_name)
        }
    }

    /// The rows of a table of the database with the name, reduced to the
    /// columns with the given names. Fails with `DatabaseDoesNotExist` when
    /// the catalog has no such database, with `TableDoesNotExist` when the
    /// database has no such table, and with `ColumnDoesNotExist` for the
    /// first of the names that no column of the table has.
    pub fn select(&self, database_name: &str, table_name: &str, columns: Vec<String>) -> (result:
        Result<QueryResult, Error>)
        requires
            self.wf(),
        ensures
            self.is_select_outcome(database_name@, table_name@, texts(columns@), result),
    {
        let database = match self.find_database(database_name) {
            Some(database) => database,
            None => {
                return Err(Error::DatabaseDoesNotExist(database_name.to_string()));
            },
        };
        let mut names: Vec<&str> = Vec::new();
        let mut index: usize = 0;
        while index < columns.len()
            invariant
                index <= columns@.len(),
                names@.len() == index,
                forall|i: int| 0 <= i < index ==> (#[trigger] names@[i])@ == columns@[i]@,
            decreases columns@.len() - index,
        {
            names.push(columns[index].as_str());
            index = index + 1;
        }
        assert(str_views(names@) =~= texts(columns@));
        match database.select_columns_by_name(&self.page_manager, table_name, names) {
            Ok(rows) => Ok(QueryResult::RowResult(rows)),
            Err(error) => Err(error),
        }
    }

    /// What carrying out a command gives, where `self` is the catalog
    /// before and `after` the catalog after. A query that is no command
    /// gives the error of the parser and changes nothing; a `SELECT` changes
    /// nothing either. `SELECT *` selects all columns. Conditions after
    /// `WHERE` are not applied.
    pub open spec fn is_execute_outcome(
        &self,
        after: Manager,
        database_name: Seq<char>,
        command: Result<CommandView, ErrorView>,
        result: Result<QueryResult, Error>,
    ) -> bool {
        match command {
            Err(failure) => {
                &&& after.root() == self.root()
                &&& after.pages() == self.pages()
                &&& result matches Err(error) && error@ == failure
            },
            Ok(CommandView::CreateDatabase { database_name: created }) => self.is_create_database_outcome(
                after,
                created,
                result,
            ),
            Ok(
                CommandView::CreateTable { table_name, column_definitions },
            ) => self.is_create_table_outcome(
                after,
                database_name,
                table_name,
                declared_columns(column_definitions),
                result,
            ),
            Ok(CommandView::InsertInto { table_name, values }) => self.is_insert_outcome(
                after,
                database_name,
                table_name,
                literal_values(values),
                result,
            ),
            Ok(CommandView::Select { identifiers, table_name, where_conditions }) => {
                &&& after.root() == self.root()
                &&& after.pages() == self.pages()
                &&& if identifiers == seq!["*"@] {
                    self.is_select_all_outcome(database_name, table_name, result)
                } else {
                    self.is_select_outcome(database_name, table_name, identifiers, result)
                }
            },
        }
    }

    /// Reads the first statement of the query and carries it out on the
    /// database with the given name.
    pub fn execute(&mut self, database_name: &str, query: &str) -> (result: Result<
        QueryResult,
        Error,
    >)
        requires
            old(self).wf(),
            old(self).has_room(),
        ensures
            final(self).wf(),
            old(self).is_execute_outcome(
                *final(self),
                database_name@,
                parsed(tokens_of(query@)),
                result,
            ),
    {
        let command = match parse(query) {
            Ok(command) => command,
            Err(error) => {
                return Err(error);
            },
        };
        match command {
            Command::CreateDatabase { database_name: created } => self.create_database(
                created.as_str(),
            ),
            Command::CreateTable { table_name, column_definitions } => {
                let mut columns: Vec<(String, DataType)> = Vec::new();
                let mut index: usize = 0;
                while index < column_definitions.len()
                    invariant
                        index <= column_definitions@.len(),
                        columns@.len() == index,
                        forall|i: int|
                            0 <= i < index ==> (#[trigger] columns@[i]).0@
                                == column_definitions@[i].0@ && columns@[i].1
                                == column_definitions@[i].1.data_type(),
                    decreases column_definitions@.len() - index,
                {
                    let column = &column_definitions[index];
                    columns.push((column.0.clone(), column.1.into_data_type()));
                    index = index + 1;
                }
                assert(requested(columns@) =~= declared_columns(declared(column_definitions@)));
                self.create_table(database_name, table_name.as_str(), columns)
            },
            Command::InsertInto { table_name, values } => {
                let mut row: Vec<Value> = Vec::new();
                let mut index: usize = 0;
                while index < values.len()
                    invariant
                        index <= values@.len(),
                        row@.len() == index,
                        forall|i: int| 0 <= i < index ==> #[trigger] row@[i] == values@[i].value(),
                    decreases values@.len() - index,
                {
                    row.push(values[index].into_value());
                    index = index + 1;
                }
                assert(row@ =~= literal_values(values@));
                self.insert_row(database_name, table_name.as_str(), row)
            },
            Command::Select { identifiers, table_name, where_conditions } => {
                let all = identifiers.len() == 1 && str_eq(identifiers[0].as_str(), "*");
                proof {
                    if all {
                        assert(texts(identifiers@) =~= seq!["*"@]);
                    } else if texts(identifiers@) == seq!["*"@] {
                        assert(texts(identifiers@)[0] == "*"@);
                        assert(texts(identifiers@).len() == 1);
                    }
                }
                if all {
                    self.select_all(database_name, table_name.as_str())
                } else {
                    self.select(database_name, table_name.as_str(), identifiers)
                }
            },
        }
    }
}

} // verus!
