use vstd::prelude::*;
use vstd::string::StringSliceAdditionalSpecFns;
use vstd::utf8::encode_utf8;
use crate::bitmap_index::flag_at;
use crate::bitmap_index::flag_count;
use crate::bitmap_index::flags_below;
use crate::bitmap_index::mark_flag;
use crate::bitmap_index::BITMAP_CAPACITY;
use crate::catalog_fields::read_id_list;
use crate::catalog_fields::read_name;
use crate::catalog_fields::stored_id_list;
use crate::catalog_fields::stored_name;
use crate::catalog_fields::write_id_list;
use crate::catalog_fields::write_name;
use crate::catalog_fields::MAX_LISTED_PAGES;
use crate::catalog_fields::MAX_NAME_BYTES;
use crate::column_definition::column_views;
use crate::column_definition::ColumnDefinition;
use crate::column_definition::ColumnView;
use crate::data_type::DataType;
use crate::error::Error;
use crate::error::ErrorView;
use crate::page::InternalPage;
use crate::page::PAGE_SIZE;
use crate::page_manager::PageId;
use crate::page_manager::PageManager;
use crate::row_result::texts;
use crate::row_result::RowResult;
use crate::table_catalog::is_storable;
use crate::table_catalog::stored_table;
use crate::table_catalog::write_table;
use crate::table_catalog::TableMeta;
use crate::table_catalog::MAX_COLUMNS;
use crate::table_manager::find_column;
use crate::table_manager::has_column;
use crate::table_manager::is_table;
use crate::table_manager::str_views;
use crate::table_manager::TableManager;
use crate::text::str_eq;
use crate::value::Value;

verus! {

/// Where the name of a database starts in its metadata region.
pub const DATABASE_NAME_OFFSET: usize = 0;

/// Where the list of a database's tables starts in its metadata region.
pub const TABLE_LIST_OFFSET: usize = 64;

/// The page exists and holds a well-formed table.
pub open spec fn holds_table(pages: Seq<InternalPage>, page_id: PageId) -> bool {
    page_id < pages.len() && is_table(pages[page_id as int].metadata@)
}

/// The page holds a well-formed table with the name.
pub open spec fn is_named(pages: Seq<InternalPage>, page_id: PageId, name: Seq<char>) -> bool {
    holds_table(pages, page_id) && stored_table(pages[page_id as int].metadata@)->0.name == name
}

/// Some page of the list holds a table with the name.
pub open spec fn has_table(pages: Seq<InternalPage>, page_ids: Seq<PageId>, name: Seq<char>) -> bool {
    exists|k: int| 0 <= k < page_ids.len() && is_named(pages, #[trigger] page_ids[k], name)
}

/// `position` is where the first page stands that holds a table with the name.
pub open spec fn is_first_table(
    pages: Seq<InternalPage>,
    page_ids: Seq<PageId>,
    name: Seq<char>,
    position: int,
) -> bool {
    &&& 0 <= position < page_ids.len()
    &&& is_named(pages, page_ids[position], name)
    &&& forall|j: int| 0 <= j < position ==> !is_named(pages, #[trigger] page_ids[j], name)
}

/// The first table of the list with the name.
pub open spec fn table_named(pages: Seq<InternalPage>, page_ids: Seq<PageId>, name: Seq<char>) -> TableManager {
    TableManager {
        page_id: page_ids[choose|position: int| is_first_table(pages, page_ids, name, position)],
    }
}

/// The names of the tables that the pages of the list hold, in order. A
/// page that holds no well-formed table contributes none.
pub open spec fn names_of_tables(pages: Seq<InternalPage>, page_ids: Seq<PageId>) -> Seq<Seq<char>>
    decreases page_ids.len(),
{
    if page_ids.len() == 0 {
        Seq::empty()
    } else if holds_table(pages, page_ids.last()) {
        names_of_tables(pages, page_ids.drop_last()).push(
            stored_table(pages[page_ids.last() as int].metadata@)->0.name,
        )
    } else {
        names_of_tables(pages, page_ids.drop_last())
    }
}

/// The pages of the list that hold a well-formed table, in order.
pub open spec fn tables_listed(pages: Seq<InternalPage>, page_ids: Seq<PageId>) -> Seq<PageId>
    decreases page_ids.len(),
{
    if page_ids.len() == 0 {
        Seq::empty()
    } else if holds_table(pages, page_ids.last()) {
        tables_listed(pages, page_ids.drop_last()).push(page_ids.last())
    } else {
        tables_listed(pages, page_ids.drop_last())
    }
}

/// The names and types that were asked for.
pub open spec fn requested(columns: Seq<(String, DataType)>) -> Seq<(Seq<char>, DataType)> {
    columns.map_values(|column: (String, DataType)| (column.0@, column.1))
}

/// The first `count` columns of a new table: they get the ids 0, 1, 2 and
/// so on, in the order they were asked for.
pub open spec fn fresh_columns(wanted: Seq<(Seq<char>, DataType)>, count: int) -> Seq<ColumnView> {
    Seq::new(
        count as nat,
        |i: int| ColumnView { column_id: i as u8, data_type: wanted[i].1, name: wanted[i].0 },
    )
}

/// Why the column at `position` cannot be added to a new table after
/// those before it, if it cannot: an earlier column has its name; or else it
/// would be the 257th column, or the catalog's page cannot hold it.
pub open spec fn column_failure(
    table_name: Seq<char>,
    wanted: Seq<(Seq<char>, DataType)>,
    position: int,
) -> Option<ErrorView> {
    if has_column(fresh_columns(wanted, position), wanted[position].0) {
        Some(ErrorView::ColumnAlreadyExist(wanted[position].0))
    } else if position >= MAX_COLUMNS || !is_storable(
        TableMeta {
            name: table_name,
            columns: fresh_columns(wanted, position + 1),
            page_ids: Seq::empty(),
        },
    ) {
        Some(ErrorView::TooManyColumnsInUse)
    } else {
        None
    }
}

/// `position` is where the first column stands that cannot be added.
pub open spec fn is_first_failure(
    table_name: Seq<char>,
    wanted: Seq<(Seq<char>, DataType)>,
    position: int,
) -> bool {
    &&& 0 <= position < wanted.len()
    &&& column_failure(table_name, wanted, position) is Some
    &&& forall|j: int| 0 <= j < position ==> column_failure(table_name, wanted, j) is None
}

/// Every column can be added.
pub open spec fn no_failure(table_name: Seq<char>, wanted: Seq<(Seq<char>, DataType)>) -> bool {
    forall|j: int| 0 <= j < wanted.len() ==> column_failure(table_name, wanted, j) is None
}

/// Where exactly the flags below `count` are set, `count` flags are set.
pub proof fn lemma_flags_prefix(bytes: Seq<u8>, count: int, n: int)
    requires
        0 <= count,
        0 <= n <= BITMAP_CAPACITY,
        forall|j: int| 0 <= j < BITMAP_CAPACITY ==> (flag_at(bytes, j) <==> j < count),
    ensures
        flags_below(bytes, n) == if n < count {
            n
        } else {
            count
        },
    decreases n,
{
    if n > 0 {
        lemma_flags_prefix(bytes, count, n - 1);
    }
}

/// Writes a table without pages into the zeroed metadata region of a new
/// page, and marks the ids of its columns as in use.
fn write_new_table(metadata: &mut [u8; 4096], name: &str, columns: &Vec<ColumnDefinition>)
    requires
        forall|i: int| 0 <= i < PAGE_SIZE ==> old(metadata)@[i] == 0u8,
        columns@.len() <= MAX_COLUMNS,
        forall|i: int| 0 <= i < columns@.len() ==> (#[trigger] columns@[i])@.column_id == i,
        is_storable(
            TableMeta { name: name@, columns: column_views(columns@), page_ids: Seq::empty() },
        ),
    ensures
        is_table(final(metadata)@),
        stored_table(final(metadata)@) == Some(
            TableMeta { name: name@, columns: column_views(columns@), page_ids: Seq::empty() },
        ),
{
    let ghost meta = TableMeta {
        name: name@,
        columns: column_views(columns@),
        page_ids: Seq::empty(),
    };
    let page_ids: Vec<PageId> = Vec::new();
    proof {
        crate::bitmap_index::lemma_zero_flags(metadata@);
        crate::table_catalog::lemma_table_round_trip(metadata@, meta);
    }
    let ghost zeroed = metadata@;
    let written = write_table(metadata, name, columns, &page_ids);
    assert(written);
    assert forall|j: int| 0 <= j < BITMAP_CAPACITY implies !flag_at(metadata@, j) by {
        assert(!flag_at(zeroed, j));
        assert(flag_at(crate::table_catalog::with_table(zeroed, meta), j) == flag_at(zeroed, j));
    }
    let mut index: usize = 0;
    while index < columns.len()
        invariant
            columns@.len() <= MAX_COLUMNS,
            index <= columns@.len(),
            metadata@.len() == PAGE_SIZE,
            stored_table(metadata@) == Some(meta),
            forall|j: int| 0 <= j < BITMAP_CAPACITY ==> (flag_at(metadata@, j) <==> j < index),
        decreases columns@.len() - index,
    {
        let ghost before = metadata@;
        proof {
            crate::table_manager::lemma_flag_keeps_table(before, index as int, true);
            crate::bitmap_index::lemma_with_flag(before, index as int, true);
        }
        mark_flag(metadata, index as u8, true);
        assert forall|j: int| 0 <= j < BITMAP_CAPACITY implies (flag_at(metadata@, j) <==> j
            < index + 1) by {
            if j != index {
                assert(flag_at(metadata@, j) == flag_at(before, j));
            }
        }
        index = index + 1;
    }
    proof {
        lemma_flags_prefix(metadata@, index as int, BITMAP_CAPACITY as int);
        assert forall|i: int| 0 <= i < meta.columns.len() implies flag_at(
            metadata@,
            (#[trigger] meta.columns[i]).column_id as int,
        ) by {
            assert(meta.columns[i] == columns@[i]@);
        }
        assert forall|i: int, j: int| 0 <= i < j < meta.columns.len() implies (
        #[trigger] meta.columns[i]).column_id != (#[trigger] meta.columns[j]).column_id by {
            assert(meta.columns[i] == columns@[i]@);
            assert(meta.columns[j] == columns@[j]@);
        }
    }
}

/// The catalog of one database. It lives in the metadata region of one
/// page: the name of the database and the ids of the pages that hold the
/// catalogs of its tables.
pub struct Database {
    pub page_id: PageId,
}

impl Database {
    /// The id of the page that holds the catalog.
    pub open spec fn page_id(&self) -> PageId {
        self.page_id
    }

    /// The page of the catalog exists.
    pub open spec fn exists_in(&self, pages: Seq<InternalPage>) -> bool {
        self.page_id() < pages.len()
    }

    /// The name of the database, if the page holds one.
    pub open spec fn name_in(&self, pages: Seq<InternalPage>) -> Option<Seq<char>> {
        stored_name(pages[self.page_id() as int].metadata@, DATABASE_NAME_OFFSET as int)
    }

    /// The ids of the pages that the database lists as its tables.
    pub open spec fn table_ids(&self, pages: Seq<InternalPage>) -> Seq<PageId> {
        stored_id_list(pages[self.page_id() as int].metadata@, TABLE_LIST_OFFSET as int)
    }

    /// The database has a table with the name.
    pub open spec fn has_table(&self, pages: Seq<InternalPage>, name: Seq<char>) -> bool {
        has_table(pages, self.table_ids(pages), name)
    }

    /// The first table of the database with the name.
    pub open spec fn table(&self, pages: Seq<InternalPage>, name: Seq<char>) -> TableManager {
        table_named(pages, self.table_ids(pages), name)
    }

    /// Every page but the catalog's own is the same in both arenas, and the
    /// catalog's own page has the same data region and the same name.
    pub open spec fn only_list_differs(
        &self,
        before: Seq<InternalPage>,
        after: Seq<InternalPage>,
    ) -> bool {
        &&& forall|i: int|
            0 <= i < before.len() && i != self.page_id() ==> #[trigger] after[i] == before[i]
        &&& after[self.page_id() as int].data == before[self.page_id() as int].data
        &&& self.name_in(after) == self.name_in(before)
    }

    /// The id of the page that holds the catalog.
    pub fn id(&self) -> (page_id: PageId)
        ensures
            page_id == self.page_id(),
    {
        self.page_id
    }

    /// Creates a page and initializes a database without tables on it.
    /// Fails with `DatabaseNameTooLong`, creating nothing, when the name
    /// takes 63 bytes or more.
    pub fn new(page_manager: &mut PageManager, name: &str) -> (database: Result<Self, Error>)
        requires
            old(page_manager).has_room(),
        ensures
            match database {
                Ok(created) => {
                    &&& encode_utf8(name@).len() <= MAX_NAME_BYTES
                    &&& created.page_id() == old(page_manager)@.len()
                    &&& final(page_manager)@.len() == old(page_manager)@.len() + 1
                    &&& forall|i: int|
                        0 <= i < old(page_manager)@.len() ==> final(page_manager)@[i] == old(page_manager)@[i]
                    &&& created.name_in(final(page_manager)@) == Some(name@)
                    &&& created.table_ids(final(page_manager)@) == Seq::<PageId>::empty()
                },
                Err(error) => {
                    &&& error@ == ErrorView::DatabaseNameTooLong
                    &&& encode_utf8(name@).len() > MAX_NAME_BYTES
                    &&& final(page_manager)@ == old(page_manager)@
                },
            },
    {
        if name.as_bytes().len() > MAX_NAME_BYTES {
            return Err(Error::DatabaseNameTooLong);
        }
        let page_id = page_manager.create_page();
        Self::initialize(page_manager, page_id, name)
    }

    /// Initializes a database without tables on an existing page. The data
    /// region stays as it is. Fails with `DatabaseNameTooLong`, writing
    /// nothing, when the name takes 63 bytes or more.
    pub fn initialize(page_manager: &mut PageManager, page_id: PageId, name: &str) -> (database:
        Result<Self, Error>)
        requires
            page_id < old(page_manager)@.len(),
        ensures
            match database {
                Ok(created) => {
                    &&& encode_utf8(name@).len() <= MAX_NAME_BYTES
                    &&& created.page_id() == page_id
                    &&& final(page_manager)@.len() == old(page_manager)@.len()
                    &&& forall|i: int|
                        0 <= i < old(page_manager)@.len() && i != page_id ==> final(page_manager)@[i] == old(page_manager)@[i]
                    &&& final(page_manager)@[page_id as int].data == old(page_manager)@[page_id as int].data
                    &&& created.name_in(final(page_manager)@) == Some(name@)
                    &&& created.table_ids(final(page_manager)@) == Seq::<PageId>::empty()
                },
                Err(error) => {
                    &&& error@ == ErrorView::DatabaseNameTooLong
                    &&& encode_utf8(name@).len() > MAX_NAME_BYTES
                    &&& final(page_manager)@ == old(page_manager)@
                },
            },
    {
        if name.as_bytes().len() > MAX_NAME_BYTES {
            return Err(Error::DatabaseNameTooLong);
        }
        let page_ids: Vec<PageId> = Vec::new();
        let written = Self::write_metadata_page(page_manager, page_id, name, &page_ids);
        assert(written);
        Ok(Self { page_id })
    }

    /// Takes the database on an existing page. Fails with
    /// `DatabaseDoesNotExist` and an empty name when the page does not exist
    /// or holds no name.
    pub fn load(page_manager: &PageManager, page_id: PageId) -> (database: Result<Self, Error>)
        ensures
            match database {
                Ok(found) => {
                    &&& found.page_id() == page_id
                    &&& found.exists_in(page_manager@)
                    &&& found.name_in(page_manager@) is Some
                },
                Err(error) => {
                    &&& error@ == ErrorView::DatabaseDoesNotExist(Seq::empty())
                    &&& !(page_id < page_manager@.len() && stored_name(
                        page_manager@[page_id as int].metadata@,
                        DATABASE_NAME_OFFSET as int,
                    ) is Some)
                },
            },
    {
        let named = match page_manager.fetch_page(page_id) {
            Some(page) => read_name(&page.metadata, DATABASE_NAME_OFFSET).is_some(),
            None => false,
        };
        if named {
            Ok(Self { page_id })
        } else {
            Err(Error::DatabaseDoesNotExist(String::new()))
        }
    }

    /// The name of the database, if its page holds one.
    pub fn name(&self, page_manager: &PageManager) -> (name: Option<String>)
        requires
            self.exists_in(page_manager@),
        ensures
            match name {
                Some(text) => self.name_in(page_manager@) == Some(text@),
                None => self.name_in(page_manager@) is None,
            },
    {
        match page_manager.fetch_page(self.page_id) {
            Some(page) => read_name(&page.metadata, DATABASE_NAME_OFFSET),
            None => None,
        }
    }

    /// The ids of the pages that the database lists as its tables.
    pub fn table_manager_page_ids(&self, page_manager: &PageManager) -> (page_ids: Vec<PageId>)
        requires
            self.exists_in(page_manager@),
        ensures
            page_ids@ == self.table_ids(page_manager@),
    {
        match page_manager.fetch_page(self.page_id) {
            Some(page) => read_id_list(&page.metadata, TABLE_LIST_OFFSET),
            None => Vec::new(),
        }
    }

    /// The catalogs of the database's tables, in the order of the list. A
    /// listed page that holds no well-formed table is left out.
    pub fn table_managers(&self, page_manager: &PageManager) -> (tables: Vec<TableManager>)
        requires
            self.exists_in(page_manager@),
        ensures
            forall|i: int| 0 <= i < tables@.len() ==> (#[trigger] tables@[i]).wf(page_manager@),
            tables@.map_values(|table: TableManager| table.page_id()) == tables_listed(
                page_manager@,
                self.table_ids(page_manager@),
            ),
            tables@.map_values(|table: TableManager| table.table(page_manager@).name)
                == names_of_tables(page_manager@, self.table_ids(page_manager@)),
    {
        let page_ids = self.table_manager_page_ids(page_manager);
        let ghost pages = page_manager@;
        let mut tables: Vec<TableManager> = Vec::new();
        let mut index: usize = 0;
        assert(tables@.map_values(|table: TableManager| table.table(pages).name)
            =~= names_of_tables(pages, page_ids@.take(0)));
        assert(tables@.map_values(|table: TableManager| table.page_id()) =~= tables_listed(
            pages,
            page_ids@.take(0),
        ));
        while index < page_ids.len()
            invariant
                pages == page_manager@,
                index <= page_ids@.len(),
                forall|i: int| 0 <= i < tables@.len() ==> (#[trigger] tables@[i]).wf(pages),
                tables@.map_values(|table: TableManager| table.page_id()) == tables_listed(
                    pages,
                    page_ids@.take(index as int),
                ),
                tables@.map_values(|table: TableManager| table.table(pages).name)
                    == names_of_tables(pages, page_ids@.take(index as int)),
            decreases page_ids@.len() - index,
        {
            let ghost before = tables@;
            proof {
                let listed = page_ids@.take(index + 1);
                assert(listed.drop_last() =~= page_ids@.take(index as int));
                assert(listed.last() == page_ids@[index as int]);
            }
            match TableManager::load(page_manager, page_ids[index]) {
                Ok(table) => {
                    tables.push(table);
                    assert(tables@.map_values(|table: TableManager| table.table(pages).name)
                        =~= before.map_values(|table: TableManager| table.table(pages).name).push(
                        table.table(pages).name,
                    ));
                    assert(tables@.map_values(|table: TableManager| table.page_id())
                        =~= before.map_values(|table: TableManager| table.page_id()).push(
                        table.page_id(),
                    ));
                },
                Err(_) => {},
            }
            index = index + 1;
        }
        assert(page_ids@.take(index as int) =~= page_ids@);
        tables
    }

    /// The names of the database's tables, in the order of the list.
    pub fn table_names(&self, page_manager: &PageManager) -> (names: Vec<String>)
        requires
            self.exists_in(page_manager@),
        ensures
            texts(names@) == names_of_tables(page_manager@, self.table_ids(page_manager@)),
    {
        let tables = self.table_managers(page_manager);
        let mut names: Vec<String> = Vec::new();
        let mut index: usize = 0;
        while index < tables.len()
            invariant
                index <= tables@.len(),
                forall|i: int| 0 <= i < tables@.len() ==> (#[trigger] tables@[i]).wf(page_manager@),
                names@.len() == index,
                forall|i: int|
                    0 <= i < index ==> (#[trigger] names@[i])@ == tables@[i].table(
                        page_manager@,
                    ).name,
            decreases tables@.len() - index,
        {
            names.push(tables[index].name(page_manager));
            index = index + 1;
        }
        assert(texts(names@) =~= tables@.map_values(
            |table: TableManager| table.table(page_manager@).name,
        ));
        names
    }

    /// The first table of the database with the name, if there is one.
    pub fn find_table(&self, page_manager: &PageManager, table_name: &str) -> (found: Option<
        TableManager,
    >)
        requires
            self.exists_in(page_manager@),
        ensures
            match found {
                Some(table) => {
                    &&& self.has_table(page_manager@, table_name@)
                    &&& table == self.table(page_manager@, table_name@)
                    &&& table.wf(page_manager@)
                    &&& table.table(page_manager@).name == table_name@
                },
                None => !self.has_table(page_manager@, table_name@),
            },
    {
        let page_ids = self.table_manager_page_ids(page_manager);
        let ghost pages = page_manager@;
        let mut index: usize = 0;
        while index < page_ids.len()
            invariant
                pages == page_manager@,
                page_ids@ == self.table_ids(pages),
                index <= page_ids@.len(),
                forall|j: int| 0 <= j < index ==> !is_named(pages, #[trigger] page_ids@[j], table_name@),
            decreases page_ids@.len() - index,
        {
            match TableManager::load(page_manager, page_ids[index]) {
                Ok(table) => {
                    let name = table.name(page_manager);
                    if str_eq(name.as_str(), table_name) {
                        proof {
                            assert(is_first_table(pages, page_ids@, table_name@, index as int));
                            let chosen = choose|position: int|
                                is_first_table(pages, page_ids@, table_name@, position);
                            if chosen < index {
                                assert(!is_named(pages, page_ids@[chosen], table_name@));
                            }
                            if index < chosen {
                                assert(!is_named(pages, page_ids@[index as int], table_name@));
                            }
                        }
                        return Some(table);
                    }
                },
                Err(_) => {},
            }
            index = index + 1;
        }
        None
    }

    /// Whether the database has a table with the name.
    pub fn table_exists(&self, page_manager: &PageManager, table_name: &str) -> (exists: bool)
        requires
            self.exists_in(page_manager@),
        ensures
            exists == self.has_table(page_manager@, table_name@),
    {
        self.find_table(page_manager, table_name).is_some()
    }

    /// Writes the name and the list of tables into a database's page. The
    /// data region stays as it is. Nothing is written where the page does
    /// not exist, the name takes 63 bytes or more, or the list has more than
    /// 255 entries.
    pub fn write_metadata_page(
        page_manager: &mut PageManager,
        page_id: PageId,
        name: &str,
        page_ids: &Vec<PageId>,
    ) -> (written: bool)
        ensures
            written == (page_id < old(page_manager)@.len() && encode_utf8(name@).len()
                <= MAX_NAME_BYTES && page_ids@.len() <= MAX_LISTED_PAGES),
            !written ==> final(page_manager)@ == old(page_manager)@,
            written ==> {
                &&& final(page_manager)@.len() == old(page_manager)@.len()
                &&& forall|i: int|
                    0 <= i < old(page_manager)@.len() && i != page_id ==> final(page_manager)@[i]
                        == old(page_manager)@[i]
                &&& final(page_manager)@[page_id as int].data == old(page_manager)@[page_id as int].data
                &&& stored_name(
                    final(page_manager)@[page_id as int].metadata@,
                    DATABASE_NAME_OFFSET as int,
                ) == Some(name@)
                &&& stored_id_list(
                    final(page_manager)@[page_id as int].metadata@,
                    TABLE_LIST_OFFSET as int,
                ) == page_ids@
            },
    {
        if name.as_bytes().len() > MAX_NAME_BYTES || page_ids.len() > MAX_LISTED_PAGES {
            return false;
        }
        match page_manager.fetch_page_mut(page_id) {
            Some(page) => {
                write_name(&mut page.metadata, DATABASE_NAME_OFFSET, name);
                let ghost named = page.metadata@;
                write_id_list(&mut page.metadata, TABLE_LIST_OFFSET, page_ids);
                proof {
                    lemma_list_keeps_name(named, page_ids@);
                }
                true
            },
            None => false,
        }
    }

    /// The columns of the table with the name. Fails with
    /// `TableDoesNotExist` when the database has no such table.
    pub fn column_definitions(&self, page_manager: &PageManager, table_name: &str) -> (columns: Result<
        Vec<ColumnDefinition>,
        Error,
    >)
        requires
            self.exists_in(page_manager@),
        ensures
            match columns {
                Ok(found) => {
                    &&& self.has_table(page_manager@, table_name@)
                    &&& column_views(found@) == self.table(page_manager@, table_name@).table(
                        page_manager@,
                    ).columns
                },
                Err(error) => {
                    &&& !self.has_table(page_manager@, table_name@)
                    &&& error@ == ErrorView::TableDoesNotExist(table_name@)
                },
            },
    {
        match self.find_table(page_manager, table_name) {
            Some(table) => Ok(table.column_definitions(page_manager)),
            None => Err(Error::TableDoesNotExist(table_name.to_string())),
        }
    }

    /// Why a table with the name and the columns cannot be created, if it
    /// cannot: the database has a table of that name; the name takes 63
    /// bytes or more; a column cannot be added after those before it; or the
    /// database already lists 255 pages.
    pub open spec fn create_error(
        &self,
        pages: Seq<InternalPage>,
        table_name: Seq<char>,
        wanted: Seq<(Seq<char>, DataType)>,
    ) -> Option<ErrorView> {
        if self.has_table(pages, table_name) {
            Some(ErrorView::TableAlreadyExists(table_name))
        } else if encode_utf8(table_name).len() > MAX_NAME_BYTES {
            Some(ErrorView::TableNameTooLong)
        } else if !no_failure(table_name, wanted) {
            column_failure(
                table_name,
                wanted,
                choose|position: int| is_first_failure(table_name, wanted, position),
            )
        } else if self.table_ids(pages).len() >= MAX_LISTED_PAGES {
            Some(ErrorView::InsertFailed)
        } else {
            None
        }
    }

    /// What creating a table gives. Where it succeeds, a new page holds the
    /// table, with the columns that were asked for under the ids 0, 1, 2 and
    /// so on, and the database lists that page last. The result is the
    /// number of pages that the database listed before.
    pub open spec fn is_create_outcome(
        &self,
        before: Seq<InternalPage>,
        after: Seq<InternalPage>,
        table_name: Seq<char>,
        wanted: Seq<(Seq<char>, DataType)>,
        created: Result<u64, Error>,
    ) -> bool {
        match created {
            Ok(id) => {
                &&& self.create_error(before, table_name, wanted) is None
                &&& id == self.table_ids(before).len()
                &&& after.len() == before.len() + 1
                &&& self.only_list_differs(before, after)
                &&& self.table_ids(after) == self.table_ids(before).push(before.len() as u32)
                &&& holds_table(after, before.len() as u32)
                &&& stored_table(after[before.len() as int].metadata@) == Some(
                    TableMeta {
                        name: table_name,
                        columns: fresh_columns(wanted, wanted.len() as int),
                        page_ids: Seq::empty(),
                    },
                )
            },
            Err(error) => {
                &&& after == before
                &&& self.create_error(before, table_name, wanted) == Some(error@)
            },
        }
    }

    /// Creates a table with the given columns. The columns get the ids 0, 1,
    /// 2 and so on. Everything is checked before anything is written: a
    /// failure leaves every page as it is and creates none.
    pub fn create_table(
        &self,
        page_manager: &mut PageManager,
        table_name: &str,
        columns: Vec<(String, DataType)>,
    ) -> (created: Result<u64, Error>)
        requires
            self.exists_in(old(page_manager)@),
            old(page_manager).has_room(),
        ensures
            self.is_create_outcome(
                old(page_manager)@,
                final(page_manager)@,
                table_name@,
                requested(columns@),
                created,
            ),
    {
        let ghost before = page_manager@;
        let ghost wanted = requested(columns@);
        if self.find_table(page_manager, table_name).is_some() {
            return Err(Error::TableAlreadyExists(table_name.to_string()));
        }
        if table_name.as_bytes().len() > MAX_NAME_BYTES {
            return Err(Error::TableNameTooLong);
        }
        let no_pages: Vec<PageId> = Vec::new();
        let mut definitions: Vec<ColumnDefinition> = Vec::new();
        let mut index: usize = 0;
        assert(column_views(definitions@) =~= fresh_columns(wanted, 0));
        while index < columns.len()
            invariant
                page_manager@ == before,
                wanted == requested(columns@),
                !self.has_table(before, table_name@),
                encode_utf8(table_name@).len() <= MAX_NAME_BYTES,
                no_pages@.len() == 0,
                index <= columns@.len(),
                index <= MAX_COLUMNS,
                definitions@.len() == index,
                column_views(definitions@) == fresh_columns(wanted, index as int),
                forall|j: int| 0 <= j < index ==> column_failure(table_name@, wanted, j) is None,
            decreases columns@.len() - index,
        {
            let column = &columns[index];
            assert(wanted[index as int] == (column.0@, column.1));
            let ghost failure = column_failure(table_name@, wanted, index as int);
            if find_column(&definitions, column.0.as_str()).is_some() {
                let error = Error::ColumnAlreadyExist(column.0.clone());
                proof {
                    assert(failure == Some(error@));
                    lemma_first_failure(table_name@, wanted, index as int);
                }
                return Err(error);
            }
            if index >= MAX_COLUMNS {
                proof {
                    lemma_first_failure(table_name@, wanted, index as int);
                }
                return Err(Error::TooManyColumnsInUse);
            }
            let ghost earlier = definitions@;
            let name = column.0.clone();
            let definition = ColumnDefinition::new(index as u8, column.1, name);
            assert(definition@ == fresh_columns(wanted, index + 1)[index as int]);
            definitions.push(definition);
            assert(column_views(definitions@) =~= fresh_columns(wanted, index + 1)) by {
                assert forall|i: int| 0 <= i < index + 1 implies column_views(definitions@)[i]
                    == fresh_columns(wanted, index + 1)[i] by {
                    if i < index {
                        assert(column_views(earlier)[i] == fresh_columns(wanted, index as int)[i]);
                    }
                }
            }
            let mut scratch: [u8; 4096] = [0u8; 4096];
            if !write_table(&mut scratch, table_name, &definitions, &no_pages) {
                proof {
                    assert(no_pages@ =~= Seq::<PageId>::empty());
                    lemma_first_failure(table_name@, wanted, index as int);
                }
                return Err(Error::TooManyColumnsInUse);
            }
            assert(no_pages@ =~= Seq::<PageId>::empty());
            index = index + 1;
        }
        let mut page_ids = self.table_manager_page_ids(page_manager);
        if page_ids.len() >= MAX_LISTED_PAGES {
            return Err(Error::InsertFailed);
        }
        let ghost meta = TableMeta {
            name: table_name@,
            columns: column_views(definitions@),
            page_ids: Seq::empty(),
        };
        proof {
            if index == 0 {
                assert(crate::table_catalog::columns_bytes(meta.columns) =~= Seq::<u8>::empty());
                assert(is_storable(meta));
            } else {
                assert(column_failure(table_name@, wanted, index - 1) is None);
            }
            assert forall|i: int| 0 <= i < definitions@.len() implies (
            #[trigger] definitions@[i])@.column_id == i by {
                assert(column_views(definitions@)[i] == fresh_columns(wanted, index as int)[i]);
            }
        }
        let position: u64 = page_ids.len() as u64;
        let created = page_manager.create_page();
        match page_manager.fetch_page_mut(created) {
            Some(page) => {
                write_new_table(&mut page.metadata, table_name, &definitions);
            },
            None => {},
        }
        page_ids.push(created);
        match page_manager.fetch_page_mut(self.page_id) {
            Some(page) => {
                proof {
                    lemma_list_keeps_name(page.metadata@, page_ids@);
                }
                write_id_list(&mut page.metadata, TABLE_LIST_OFFSET, &page_ids);
            },
            None => {},
        }
        Ok(position)
    }

    /// Adds a column to the table with the name, and gives the message
    /// `ALTER TABLE`. Fails with `TableDoesNotExist` when the database has no
    /// such table, and as `TableManager::add_column` does when the table
    /// refuses the column. A failure leaves every page as it is.
    pub fn add_column(
        &self,
        page_manager: &mut PageManager,
        table_name: &str,
        column_name: &str,
        data_type: DataType,
    ) -> (added: Result<String, Error>)
        requires
            self.exists_in(old(page_manager)@),
        ensures
            self.is_column_outcome(
                old(page_manager)@,
                final(page_manager)@,
                table_name@,
                column_name@,
                data_type,
                added,
            ),
    {
        let table = match self.find_table(page_manager, table_name) {
            Some(table) => table,
            None => {
                return Err(Error::TableDoesNotExist(table_name.to_string()));
            },
        };
        match table.add_column(page_manager, column_name, data_type) {
            Ok(()) => Ok("ALTER TABLE".to_string()),
            Err(error) => Err(error),
        }
    }

    /// What adding a column to the table with the name gives.
    pub open spec fn is_column_outcome(
        &self,
        before: Seq<InternalPage>,
        after: Seq<InternalPage>,
        table_name: Seq<char>,
        column_name: Seq<char>,
        data_type: DataType,
        added: Result<String, Error>,
    ) -> bool {
        match added {
            Ok(message) => {
                &&& message@ == "ALTER TABLE"@
                &&& self.has_table(before, table_name)
                &&& self.table(before, table_name).added_column(
                    before,
                    after,
                    column_name,
                    data_type,
                )
            },
            Err(error) => {
                &&& after == before
                &&& if self.has_table(before, table_name) {
                    self.table(before, table_name).refused_column(
                        before,
                        column_name,
                        data_type,
                        error@,
                    )
                } else {
                    error@ == ErrorView::TableDoesNotExist(table_name)
                }
            },
        }
    }

    /// Stores a row in the table with the name and gives the id of the
    /// record. Fails with `TableDoesNotExist` when the database has no such
    /// table, and with `InsertFailed` when the table refuses the record. A
    /// failure leaves every page as it is.
    pub fn insert_row(&self, page_manager: &mut PageManager, table_name: &str, values: Vec<Value>) -> (inserted:
        Result<u64, Error>)
        requires
            self.exists_in(old(page_manager)@),
        ensures
            self.is_insert_outcome(
                old(page_manager)@,
                final(page_manager)@,
                table_name@,
                values@,
                inserted,
            ),
    {
        let table = match self.find_table(page_manager, table_name) {
            Some(table) => table,
            None => {
                return Err(Error::TableDoesNotExist(table_name.to_string()));
            },
        };
        match table.insert_record(page_manager, values) {
            Some(id) => Ok(id),
            None => Err(Error::InsertFailed),
        }
    }

    /// What storing a row in the table with the name gives.
    pub open spec fn is_insert_outcome(
        &self,
        before: Seq<InternalPage>,
        after: Seq<InternalPage>,
        table_name: Seq<char>,
        values: Seq<Value>,
        inserted: Result<u64, Error>,
    ) -> bool {
        match inserted {
            Ok(id) => {
                &&& self.has_table(before, table_name)
                &&& self.table(before, table_name).stored_record(before, after, values, id)
            },
            Err(error) => {
                &&& after == before
                &&& if self.has_table(before, table_name) {
                    &&& error@ == ErrorView::InsertFailed
                    &&& self.table(before, table_name).refuses_record(before, values)
                } else {
                    error@ == ErrorView::TableDoesNotExist(table_name)
                }
            },
        }
    }

    /// All rows of the table with the name. Fails with `TableDoesNotExist`
    /// when the database has no such table.
    pub fn select_all_columns(&self, page_manager: &PageManager, table_name: &str) -> (selected:
        Result<RowResult, Error>)
        requires
            self.exists_in(page_manager@),
        ensures
            self.is_select_all_outcome(page_manager@, table_name@, selected),
    {
        match self.find_table(page_manager, table_name) {
            Some(table) => Ok(table.get_records(page_manager)),
            None => Err(Error::TableDoesNotExist(table_name.to_string())),
        }
    }

    /// What selecting all columns of the table with the name gives.
    pub open spec fn is_select_all_outcome(
        &self,
        pages: Seq<InternalPage>,
        table_name: Seq<char>,
        selected: Result<RowResult, Error>,
    ) -> bool {
        match selected {
            Ok(result) => {
                &&& self.has_table(pages, table_name)
                &&& self.table(pages, table_name).is_all_records(pages, result)
            },
            Err(error) => {
                &&& !self.has_table(pages, table_name)
                &&& error@ == ErrorView::TableDoesNotExist(table_name)
            },
        }
    }

    /// The rows of the table with the name, reduced to the columns with the
    /// given names. Fails with `TableDoesNotExist` when the database has no
    /// such table, and with `ColumnDoesNotExist` for the first of the names
    /// that no column of the table has.
    pub fn select_columns_by_name(
        &self,
        page_manager: &PageManager,
        table_name: &str,
        column_names: Vec<&str>,
    ) -> (selected: Result<RowResult, Error>)
        requires
            self.exists_in(page_manager@),
        ensures
            self.is_select_outcome(page_manager@, table_name@, str_views(column_names@), selected),
    {
        match self.find_table(page_manager, table_name) {
            Some(table) => table.get_records_for_columns(page_manager, &column_names),
            None => Err(Error::TableDoesNotExist(table_name.to_string())),
        }
    }

    /// What selecting the columns with the given names from the table with
    /// the name gives.
    pub open spec fn is_select_outcome(
        &self,
        pages: Seq<InternalPage>,
        table_name: Seq<char>,
        column_names: Seq<Seq<char>>,
        selected: Result<RowResult, Error>,
    ) -> bool {
        if self.has_table(pages, table_name) {
            self.table(pages, table_name).is_selection(pages, column_names, selected)
        } else {
            selected matches Err(error) && error@ == ErrorView::TableDoesNotExist(table_name)
        }
    }
}

/// Writing the list of tables leaves the name of the database as it is.
pub proof fn lemma_list_keeps_name(metadata: Seq<u8>, page_ids: Seq<PageId>)
    requires
        metadata.len() == PAGE_SIZE,
        page_ids.len() <= MAX_LISTED_PAGES,
    ensures
        stored_name(
            crate::codec::overwritten(
                metadata,
                TABLE_LIST_OFFSET as int,
                crate::catalog_fields::id_list_bytes(page_ids),
            ),
            DATABASE_NAME_OFFSET as int,
        ) == stored_name(metadata, DATABASE_NAME_OFFSET as int),
{
    let written = crate::codec::overwritten(
        metadata,
        TABLE_LIST_OFFSET as int,
        crate::catalog_fields::id_list_bytes(page_ids),
    );
    let length = metadata[0] as int;
    if length <= MAX_NAME_BYTES {
        assert(written.subrange(1, 1 + length) =~= metadata.subrange(1, 1 + length));
    }
}


/// A column that cannot be added, while all before it can, is the first
/// that cannot be added, and the only one that is.
pub proof fn lemma_first_failure(
    table_name: Seq<char>,
    wanted: Seq<(Seq<char>, DataType)>,
    position: int,
)
    requires
        0 <= position < wanted.len(),
        column_failure(table_name, wanted, position) is Some,
        forall|j: int| 0 <= j < position ==> column_failure(table_name, wanted, j) is None,
    ensures
        !no_failure(table_name, wanted),
        (choose|first: int| is_first_failure(table_name, wanted, first)) == position,
{
    assert(is_first_failure(table_name, wanted, position));
    let chosen = choose|first: int| is_first_failure(table_name, wanted, first);
    if chosen < position {
        assert(column_failure(table_name, wanted, chosen) is None);
    }
    if position < chosen {
        assert(column_failure(table_name, wanted, position) is None);
    }
}

} // verus!
