use vstd::prelude::*;
use vstd::string::StringSliceAdditionalSpecFns;
use vstd::utf8::encode_utf8;
use crate::bitmap_index::all_set;
use crate::bitmap_index::count_flags;
use crate::bitmap_index::flag_at;
use crate::bitmap_index::flag_count;
use crate::bitmap_index::flag_is_set;
use crate::bitmap_index::is_lowest_clear;
use crate::bitmap_index::lowest_clear_flag;
use crate::bitmap_index::mark_flag;
use crate::bitmap_index::with_flag;
use crate::bitmap_index::BITMAP_CAPACITY;
use crate::codec::write_bytes;
use crate::column_definition::column_views;
use crate::column_definition::ColumnDefinition;
use crate::column_definition::ColumnView;
use crate::data_type::DataType;
use crate::error::Error;
use crate::error::ErrorView;
use crate::page::InternalPage;
use crate::page::PAGE_SIZE;
use crate::page_manager::PageId;
use crate::page_manager::PageManager;
use crate::table_catalog::is_storable;
use crate::table_catalog::read_table;
use crate::table_catalog::stored_table;
use crate::table_catalog::with_table;
use crate::table_catalog::write_table;
use crate::table_catalog::TableCatalog;
use crate::table_catalog::TableMeta;
use crate::table_catalog::MAX_COLUMNS;
use crate::table_catalog::MAX_TABLE_NAME_BYTES;
use crate::table_catalog::MAX_TABLE_PAGES;
use crate::table_page::epoch_of;
use crate::table_page::is_free_slot;
use crate::table_page::is_full_of;
use crate::table_page::page_with_record;
use crate::table_page::stored_epoch;
use crate::table_page::EpochColumn;
use crate::table_page::TablePage;
use crate::text::str_eq;
use crate::value::Value;

verus! {

/// Some column of the list has the name.
pub open spec fn has_column(columns: Seq<ColumnView>, name: Seq<char>) -> bool {
    exists|i: int| 0 <= i < columns.len() && (#[trigger] columns[i]).name == name
}

/// `position` is where the first column with the name stands.
pub open spec fn is_first_named(columns: Seq<ColumnView>, name: Seq<char>, position: int) -> bool {
    &&& 0 <= position < columns.len()
    &&& columns[position].name == name
    &&& forall|j: int| 0 <= j < position ==> (#[trigger] columns[j]).name != name
}

/// The names of the columns, in order.
pub open spec fn names_of(columns: Seq<ColumnView>) -> Seq<Seq<char>> {
    columns.map_values(|column: ColumnView| column.name)
}

/// The metadata region holds a table whose columns have ids that differ
/// from each other, and the bitmap marks exactly those ids as in use.
pub open spec fn is_table(metadata: Seq<u8>) -> bool {
    &&& stored_table(metadata) is Some
    &&& forall|i: int|
        0 <= i < stored_table(metadata)->0.columns.len() ==> flag_at(
            metadata,
            (#[trigger] stored_table(metadata)->0.columns[i]).column_id as int,
        )
    &&& forall|i: int, j: int|
        0 <= i < j < stored_table(metadata)->0.columns.len() ==> (#[trigger] stored_table(
            metadata,
        )->0.columns[i]).column_id != (#[trigger] stored_table(metadata)->0.columns[j]).column_id
    &&& flag_count(metadata) == stored_table(metadata)->0.columns.len()
}

/// A page of records that the next record of the epoch can go to: it
/// exists, is not the table's own page, holds the epoch, and is not full.
pub open spec fn is_writable(
    pages: Seq<InternalPage>,
    own: PageId,
    epoch: Seq<EpochColumn>,
    page_id: PageId,
) -> bool {
    &&& page_id < pages.len()
    &&& page_id != own
    &&& stored_epoch(pages[page_id as int].metadata@) == Some(epoch)
    &&& !is_full_of(pages[page_id as int], epoch)
}

/// The id of the record in `slot` of the page that stands at `index` in the
/// table's list of pages: the index in the upper 32 bits, the slot in the
/// lower.
pub open spec fn record_id(index: int, slot: int) -> int {
    index * 4294967296 + slot
}

/// `position` is where the first column with the id stands in the epoch.
pub open spec fn is_first_with_id(epoch: Seq<EpochColumn>, column_id: u8, position: int) -> bool {
    &&& 0 <= position < epoch.len()
    &&& epoch[position].column_id == column_id
    &&& forall|j: int| 0 <= j < position ==> (#[trigger] epoch[j]).column_id != column_id
}

/// The value that a record of an epoch has for the column with the id, if
/// the epoch has that column.
pub open spec fn value_of_column(epoch: Seq<EpochColumn>, values: Seq<Value>, column_id: u8) -> Option<
    Value,
> {
    if exists|k: int| is_first_with_id(epoch, column_id, k) && k < values.len() {
        Some(values[choose|k: int| is_first_with_id(epoch, column_id, k) && k < values.len()])
    } else {
        None
    }
}

/// A record of an epoch as a row of the schema: for each column of the
/// schema the record's value for it, and `None` where the epoch has no such
/// column.
pub open spec fn normalize(schema: Seq<ColumnView>, epoch: Seq<EpochColumn>, values: Seq<Value>) -> Seq<
    Option<Value>,
> {
    Seq::new(schema.len(), |j: int| value_of_column(epoch, values, schema[j].column_id))
}

/// The records of a list, each as a row of the schema.
pub open spec fn normalized(
    schema: Seq<ColumnView>,
    epoch: Seq<EpochColumn>,
    records: Seq<Seq<Value>>,
) -> Seq<Seq<Option<Value>>> {
    records.map_values(|values: Seq<Value>| normalize(schema, epoch, values))
}

/// The rows that one page contributes: its records in ascending order of
/// slot, each as a row of the schema. A page that does not exist or holds no
/// epoch contributes none.
pub open spec fn page_rows(pages: Seq<InternalPage>, schema: Seq<ColumnView>, page_id: PageId) -> Seq<
    Seq<Option<Value>>,
> {
    if page_id < pages.len() && stored_epoch(pages[page_id as int].metadata@) is Some {
        let epoch = stored_epoch(pages[page_id as int].metadata@)->0;
        normalized(
            schema,
            epoch,
            crate::table_page::records_below(pages[page_id as int], epoch, BITMAP_CAPACITY as int),
        )
    } else {
        Seq::empty()
    }
}

/// The rows of the pages of a list, page after page.
pub open spec fn table_rows(
    pages: Seq<InternalPage>,
    schema: Seq<ColumnView>,
    page_ids: Seq<PageId>,
) -> Seq<Seq<Option<Value>>>
    decreases page_ids.len(),
{
    if page_ids.len() == 0 {
        Seq::empty()
    } else {
        table_rows(pages, schema, page_ids.drop_last()) + page_rows(pages, schema, page_ids.last())
    }
}

/// What a list of string slices holds.
pub open spec fn str_views(names: Seq<&str>) -> Seq<Seq<char>> {
    names.map_values(|name: &str| name@)
}

/// Where the first column with the name stands.
pub open spec fn position_of(columns: Seq<ColumnView>, name: Seq<char>) -> int {
    choose|position: int| is_first_named(columns, name, position)
}

/// A row reduced to the columns with the given names, in the order of the names.
pub open spec fn project(schema: Seq<ColumnView>, names: Seq<Seq<char>>, row: Seq<Option<Value>>) -> Seq<
    Option<Value>,
> {
    Seq::new(names.len(), |c: int| row[position_of(schema, names[c])])
}

/// Rows reduced to the columns with the given names.
pub open spec fn projected(
    schema: Seq<ColumnView>,
    names: Seq<Seq<char>>,
    rows: Seq<Seq<Option<Value>>>,
) -> Seq<Seq<Option<Value>>> {
    rows.map_values(|row: Seq<Option<Value>>| project(schema, names, row))
}

/// `position` is where the first name stands that no column has.
pub open spec fn is_first_missing(columns: Seq<ColumnView>, names: Seq<Seq<char>>, position: int) -> bool {
    &&& 0 <= position < names.len()
    &&& !has_column(columns, names[position])
    &&& forall|c: int| 0 <= c < position ==> has_column(columns, #[trigger] names[c])
}

/// Every name is the name of a column.
pub open spec fn all_present(columns: Seq<ColumnView>, names: Seq<Seq<char>>) -> bool {
    forall|c: int| 0 <= c < names.len() ==> has_column(columns, #[trigger] names[c])
}

/// The catalog of one table. It lives in the metadata region of one page:
/// the name of the table, its columns, the ids of its pages of records, and
/// a bitmap of the column ids in use. Every fact is read from the page each
/// time it is asked for.
pub struct TableManager {
    pub page_id: PageId,
}

impl TableManager {
    /// The id of the page that holds the catalog.
    pub open spec fn page_id(&self) -> PageId {
        self.page_id
    }

    /// The page of the catalog exists and holds a well-formed table.
    pub open spec fn wf(&self, pages: Seq<InternalPage>) -> bool {
        &&& self.page_id() < pages.len()
        &&& is_table(pages[self.page_id() as int].metadata@)
    }

    /// The table that the page of the catalog holds.
    pub open spec fn table(&self, pages: Seq<InternalPage>) -> TableMeta {
        stored_table(pages[self.page_id() as int].metadata@)->0
    }

    /// The epoch that records inserted now belong to.
    pub open spec fn epoch(&self, pages: Seq<InternalPage>) -> Seq<EpochColumn> {
        epoch_of(self.table(pages).columns)
    }

    /// Every page but the catalog's own is the same in both arenas.
    pub open spec fn only_catalog_differs(
        &self,
        before: Seq<InternalPage>,
        after: Seq<InternalPage>,
    ) -> bool {
        &&& after.len() == before.len()
        &&& forall|i: int|
            0 <= i < before.len() && i != self.page_id() ==> #[trigger] after[i] == before[i]
    }

    /// The id of the page that holds the catalog.
    pub fn id(&self) -> (page_id: PageId)
        ensures
            page_id == self.page_id(),
    {
        self.page_id
    }

    /// Creates a page and initializes an empty table with the given name on it.
    /// Fails with `TableNameTooLong`, creating nothing, when the name takes
    /// 63 bytes or more.
    pub fn new(page_manager: &mut PageManager, table_name: &str) -> (table: Result<Self, Error>)
        requires
            old(page_manager).has_room(),
        ensures
            match table {
                Ok(manager) => {
                    &&& encode_utf8(table_name@).len() <= MAX_TABLE_NAME_BYTES
                    &&& manager.page_id() == old(page_manager)@.len()
                    &&& final(page_manager)@.len() == old(page_manager)@.len() + 1
                    &&& forall|i: int|
                        0 <= i < old(page_manager)@.len() ==> final(page_manager)@[i] == old(page_manager)@[i]
                    &&& manager.wf(final(page_manager)@)
                    &&& manager.table(final(page_manager)@) == (TableMeta {
                        name: table_name@,
                        columns: Seq::empty(),
                        page_ids: Seq::empty(),
                    })
                },
                Err(error) => {
                    &&& error@ == ErrorView::TableNameTooLong
                    &&& encode_utf8(table_name@).len() > MAX_TABLE_NAME_BYTES
                    &&& final(page_manager)@ == old(page_manager)@
                },
            },
    {
        if table_name.as_bytes().len() > MAX_TABLE_NAME_BYTES {
            return Err(Error::TableNameTooLong);
        }
        let page_id = page_manager.create_page();
        Self::initialize(page_manager, page_id, table_name)
    }

    /// Initializes an empty table with the given name on an existing page:
    /// clears the bitmap of column ids and writes the name, no columns and
    /// no pages. The data region stays as it is. Fails with
    /// `TableNameTooLong`, writing nothing, when the name takes 63 bytes or
    /// more.
    pub fn initialize(page_manager: &mut PageManager, page_id: PageId, table_name: &str) -> (table:
        Result<Self, Error>)
        requires
            page_id < old(page_manager)@.len(),
        ensures
            match table {
                Ok(manager) => {
                    &&& encode_utf8(table_name@).len() <= MAX_TABLE_NAME_BYTES
                    &&& manager.page_id() == page_id
                    &&& manager.only_catalog_differs(old(page_manager)@, final(page_manager)@)
                    &&& final(page_manager)@[page_id as int].data == old(page_manager)@[page_id as int].data
                    &&& manager.wf(final(page_manager)@)
                    &&& manager.table(final(page_manager)@) == (TableMeta {
                        name: table_name@,
                        columns: Seq::empty(),
                        page_ids: Seq::empty(),
                    })
                },
                Err(error) => {
                    &&& error@ == ErrorView::TableNameTooLong
                    &&& encode_utf8(table_name@).len() > MAX_TABLE_NAME_BYTES
                    &&& final(page_manager)@ == old(page_manager)@
                },
            },
    {
        if table_name.as_bytes().len() > MAX_TABLE_NAME_BYTES {
            return Err(Error::TableNameTooLong);
        }
        let columns: Vec<ColumnDefinition> = Vec::new();
        let page_ids: Vec<PageId> = Vec::new();
        let ghost meta = TableMeta {
            name: table_name@,
            columns: Seq::empty(),
            page_ids: Seq::empty(),
        };
        match page_manager.fetch_page_mut(page_id) {
            Some(page) => {
                let cleared: [u8; 32] = [0u8; 32];
                write_bytes(&mut page.metadata, 0, &cleared);
                proof {
                    assert(column_views(columns@) =~= Seq::<ColumnView>::empty());
                    assert(crate::table_catalog::columns_bytes(meta.columns) =~= Seq::<u8>::empty());
                    assert(is_storable(meta));
                    crate::table_catalog::lemma_table_round_trip(page.metadata@, meta);
                    assert forall|id: int| 0 <= id < BITMAP_CAPACITY implies !flag_at(
                        page.metadata@,
                        id,
                    ) by {
                        assert(page.metadata@[id / 8] == 0u8);
                        let bit = (id % 8) as u8;
                        assert(0u8 & (1u8 << bit) == 0) by (bit_vector);
                    }
                    crate::bitmap_index::lemma_no_flags_below(
                        page.metadata@,
                        BITMAP_CAPACITY as int,
                    );
                    crate::bitmap_index::lemma_flags_below_agree(
                        page.metadata@,
                        with_table(page.metadata@, meta),
                        BITMAP_CAPACITY as int,
                    );
                }
                let written = write_table(&mut page.metadata, table_name, &columns, &page_ids);
                assert(written);
            },
            None => {},
        }
        Ok(Self { page_id })
    }

    /// Takes the table on an existing page. Fails with `TableDoesNotExist`
    /// and an empty name when the page does not exist or holds no
    /// well-formed table.
    pub fn load(page_manager: &PageManager, page_id: PageId) -> (table: Result<Self, Error>)
        ensures
            match table {
                Ok(manager) => manager.page_id() == page_id && manager.wf(page_manager@),
                Err(error) => {
                    &&& error@ == ErrorView::TableDoesNotExist(Seq::empty())
                    &&& !(page_id < page_manager@.len() && is_table(
                        page_manager@[page_id as int].metadata@,
                    ))
                },
            },
    {
        let valid = match page_manager.fetch_page(page_id) {
            Some(page) => holds_table(&page.metadata),
            None => false,
        };
        if valid {
            Ok(Self { page_id })
        } else {
            Err(Error::TableDoesNotExist(String::new()))
        }
    }

    /// Reads the catalog from its page.
    fn read(&self, page_manager: &PageManager) -> (table: TableCatalog)
        requires
            self.wf(page_manager@),
        ensures
            table@ == self.table(page_manager@),
    {
        match page_manager.fetch_page(self.page_id) {
            Some(page) => match read_table(&page.metadata) {
                Some(table) => table,
                None => TableCatalog { name: String::new(), columns: Vec::new(), page_ids: Vec::new() },
            },
            None => TableCatalog { name: String::new(), columns: Vec::new(), page_ids: Vec::new() },
        }
    }

    /// The name of the table.
    pub fn name(&self, page_manager: &PageManager) -> (name: String)
        requires
            self.wf(page_manager@),
        ensures
            name@ == self.table(page_manager@).name,
    {
        self.read(page_manager).name
    }

    /// The columns of the table, in the order they were added.
    pub fn column_definitions(&self, page_manager: &PageManager) -> (columns: Vec<ColumnDefinition>)
        requires
            self.wf(page_manager@),
        ensures
            column_views(columns@) == self.table(page_manager@).columns,
    {
        self.read(page_manager).columns
    }

    /// The ids of the table's pages of records, in the order they were created.
    pub fn page_ids(&self, page_manager: &PageManager) -> (page_ids: Vec<PageId>)
        requires
            self.wf(page_manager@),
        ensures
            page_ids@ == self.table(page_manager@).page_ids,
    {
        self.read(page_manager).page_ids
    }

    /// The names of the columns, in order.
    pub fn column_names(&self, page_manager: &PageManager) -> (names: Vec<String>)
        requires
            self.wf(page_manager@),
        ensures
            crate::row_result::texts(names@) == names_of(self.table(page_manager@).columns),
    {
        let columns = self.column_definitions(page_manager);
        names_of_columns(&columns)
    }

    /// Whether the table has a column with the name.
    pub fn column_exists(&self, page_manager: &PageManager, column_name: &str) -> (exists: bool)
        requires
            self.wf(page_manager@),
        ensures
            exists == has_column(self.table(page_manager@).columns, column_name@),
    {
        let columns = self.column_definitions(page_manager);
        find_column(&columns, column_name).is_some()
    }

    /// Writes name, columns and page ids into the catalog's page, provided
    /// they fit. The bitmap of column ids and the data region stay as they
    /// are. Where they do not fit, or the page does not exist, nothing is
    /// written.
    pub fn write_metadata_page(
        page_manager: &mut PageManager,
        page_id: PageId,
        table_name: &str,
        column_definitions: &Vec<ColumnDefinition>,
        page_ids: &Vec<PageId>,
    ) -> (written: bool)
        ensures
            written == (page_id < old(page_manager)@.len() && is_storable(
                TableMeta {
                    name: table_name@,
                    columns: column_views(column_definitions@),
                    page_ids: page_ids@,
                },
            )),
            !written ==> final(page_manager)@ == old(page_manager)@,
            written ==> {
                &&& final(page_manager)@.len() == old(page_manager)@.len()
                &&& forall|i: int|
                    0 <= i < old(page_manager)@.len() && i != page_id ==> final(page_manager)@[i]
                        == old(page_manager)@[i]
                &&& final(page_manager)@[page_id as int].data == old(page_manager)@[page_id as int].data
                &&& final(page_manager)@[page_id as int].metadata@ == with_table(
                    old(page_manager)@[page_id as int].metadata@,
                    TableMeta {
                        name: table_name@,
                        columns: column_views(column_definitions@),
                        page_ids: page_ids@,
                    },
                )
                &&& stored_table(final(page_manager)@[page_id as int].metadata@) == Some(
                    TableMeta {
                        name: table_name@,
                        columns: column_views(column_definitions@),
                        page_ids: page_ids@,
                    },
                )
            },
    {
        proof {
            if page_id < page_manager@.len() {
                let meta = TableMeta {
                    name: table_name@,
                    columns: column_views(column_definitions@),
                    page_ids: page_ids@,
                };
                if is_storable(meta) {
                    crate::table_catalog::lemma_table_round_trip(
                        page_manager@[page_id as int].metadata@,
                        meta,
                    );
                }
            }
        }
        let mut metadata: [u8; 4096] = match page_manager.fetch_page(page_id) {
            Some(page) => page.metadata,
            None => {
                return false;
            },
        };
        if !write_table(&mut metadata, table_name, column_definitions, page_ids) {
            return false;
        }
        match page_manager.fetch_page_mut(page_id) {
            Some(page) => {
                page.metadata = metadata;
            },
            None => {},
        }
        true
    }

    /// A column with the name and type was added: the table has one column
    /// more, which stands last and has the column id that was the lowest free
    /// one. Nothing else of the table changed, and no other page.
    pub open spec fn added_column(
        &self,
        before: Seq<InternalPage>,
        after: Seq<InternalPage>,
        column_name: Seq<char>,
        data_type: DataType,
    ) -> bool {
        let old_table = self.table(before);
        let new_table = self.table(after);
        let metadata = before[self.page_id() as int].metadata@;
        &&& self.wf(after)
        &&& !has_column(old_table.columns, column_name)
        &&& new_table.name == old_table.name
        &&& new_table.page_ids == old_table.page_ids
        &&& new_table.columns.len() == old_table.columns.len() + 1
        &&& new_table.columns.drop_last() == old_table.columns
        &&& new_table.columns.last().name == column_name
        &&& new_table.columns.last().data_type == data_type
        &&& is_lowest_clear(metadata, new_table.columns.last().column_id as int)
        &&& self.only_catalog_differs(before, after)
        &&& after[self.page_id() as int].data == before[self.page_id() as int].data
    }

    /// Why a column with the name and type cannot be added: the table has a
    /// column of that name; or else no column id is free, or the catalog's
    /// page cannot hold the column.
    pub open spec fn refused_column(
        &self,
        pages: Seq<InternalPage>,
        column_name: Seq<char>,
        data_type: DataType,
        error: ErrorView,
    ) -> bool {
        let table = self.table(pages);
        let metadata = pages[self.page_id() as int].metadata@;
        if has_column(table.columns, column_name) {
            error == ErrorView::ColumnAlreadyExist(column_name)
        } else {
            &&& error == ErrorView::TooManyColumnsInUse
            &&& (all_set(metadata) || exists|column_id: u8|
                is_lowest_clear(metadata, column_id as int) && !is_storable(
                    TableMeta {
                        name: table.name,
                        columns: table.columns.push(
                            ColumnView { column_id, data_type, name: column_name },
                        ),
                        page_ids: table.page_ids,
                    },
                ))
        }
    }

    /// Why a record cannot be stored: it has not one value for each column
    /// of the table, or the table has no writable page and cannot get one.
    pub open spec fn refuses_record(&self, pages: Seq<InternalPage>, values: Seq<Value>) -> bool {
        values.len() != self.table(pages).columns.len() || self.cannot_grow(pages)
    }

    /// The record `values` was stored under the id.
    pub open spec fn stored_record(
        &self,
        before: Seq<InternalPage>,
        after: Seq<InternalPage>,
        values: Seq<Value>,
        id: u64,
    ) -> bool {
        &&& self.wf(after)
        &&& self.table(after).name == self.table(before).name
        &&& self.table(after).columns == self.table(before).columns
        &&& values.len() == self.table(before).columns.len()
        &&& self.is_inserted(before, after, id as int / 4294967296, id as int % 4294967296, values)
    }

    /// Adds a column with the lowest free column id. Fails with
    /// `ColumnAlreadyExist` when the table has a column of that name, and
    /// with `TooManyColumnsInUse` when no column id is free or the catalog's
    /// page cannot hold the new column. A failure leaves every page as it is.
    pub fn add_column(&self, page_manager: &mut PageManager, column_name: &str, data_type: DataType) -> (added:
        Result<(), Error>)
        requires
            self.wf(old(page_manager)@),
        ensures
            self.wf(final(page_manager)@),
            match added {
                Ok(()) => self.added_column(
                    old(page_manager)@,
                    final(page_manager)@,
                    column_name@,
                    data_type,
                ),
                Err(error) => {
                    &&& final(page_manager)@ == old(page_manager)@
                    &&& self.refused_column(old(page_manager)@, column_name@, data_type, error@)
                },
            },
    {
        let table = self.read(page_manager);
        let mut columns = table.columns;
        if find_column(&columns, column_name).is_some() {
            return Err(Error::ColumnAlreadyExist(column_name.to_string()));
        }
        let mut metadata: [u8; 4096] = match page_manager.fetch_page(self.page_id) {
            Some(page) => page.metadata,
            None => {
                return Err(Error::TooManyColumnsInUse);
            },
        };
        let ghost before = self.table(page_manager@);
        let ghost initial = metadata@;
        let column_id: u8 = match lowest_clear_flag(&metadata) {
            Some(column_id) => column_id,
            None => {
                return Err(Error::TooManyColumnsInUse);
            },
        };
        let ghost added = ColumnView { column_id, data_type, name: column_name@ };
        let ghost after = TableMeta {
            name: before.name,
            columns: before.columns.push(added),
            page_ids: before.page_ids,
        };
        columns.push(ColumnDefinition::new(column_id, data_type, column_name.to_string()));
        assert(column_views(columns@) =~= before.columns.push(added));
        if !write_table(&mut metadata, table.name.as_str(), &columns, &table.page_ids) {
            return Err(Error::TooManyColumnsInUse);
        }
        let ghost written = metadata@;
        mark_flag(&mut metadata, column_id, true);
        proof {
            crate::table_catalog::lemma_table_round_trip(initial, after);
            crate::bitmap_index::lemma_with_flag(written, column_id as int, true);
            lemma_flag_keeps_table(written, column_id as int, true);
            crate::bitmap_index::lemma_flags_below_with_flag(
                written,
                column_id as int,
                true,
                BITMAP_CAPACITY as int,
            );
            crate::bitmap_index::lemma_flags_below_agree(
                initial,
                written,
                BITMAP_CAPACITY as int,
            );
            assert(after.columns.drop_last() =~= before.columns);
            assert(is_table(metadata@)) by {
                assert(stored_table(metadata@) == Some(after));
                assert forall|i: int| 0 <= i < after.columns.len() implies flag_at(
                    metadata@,
                    (#[trigger] after.columns[i]).column_id as int,
                ) by {
                    if i < before.columns.len() {
                        assert(after.columns[i] == before.columns[i]);
                    }
                }
                assert forall|i: int, j: int| 0 <= i < j < after.columns.len() implies (
                #[trigger] after.columns[i]).column_id != (#[trigger] after.columns[j]).column_id by {
                    assert(after.columns[i] == before.columns[i]);
                    if j < before.columns.len() {
                        assert(after.columns[j] == before.columns[j]);
                    }
                }
            }
        }
        match page_manager.fetch_page_mut(self.page_id) {
            Some(page) => {
                page.metadata = metadata;
            },
            None => {},
        }
        Ok(())
    }

    /// Finds the page that the next record goes to, or creates it: the page
    /// that stands last in the table's list among those that are writable
    /// for the current epoch; where there is none, a new page, whose id is
    /// appended to the list. Fails, changing nothing, when a page is needed
    /// and the arena has no room for one or the catalog's page cannot hold
    /// another page id.
    pub fn get_writable_page(&self, page_manager: &mut PageManager) -> (found: Option<
        (usize, TablePage),
    >)
        requires
            self.wf(old(page_manager)@),
        ensures
            self.wf(final(page_manager)@),
            self.table(final(page_manager)@).name == self.table(old(page_manager)@).name,
            self.table(final(page_manager)@).columns == self.table(old(page_manager)@).columns,
            match found {
                Some(target) => self.is_target(
                    old(page_manager)@,
                    final(page_manager)@,
                    target.0 as int,
                    target.1.page_id(),
                ) && target.1.epoch() == self.epoch(old(page_manager)@),
                None => {
                    &&& final(page_manager)@ == old(page_manager)@
                    &&& self.cannot_grow(old(page_manager)@)
                },
            },
    {
        let table = self.read(page_manager);
        let ghost pages = page_manager@;
        let ghost epoch = self.epoch(pages);
        let mut index: usize = table.page_ids.len();
        while index > 0
            invariant
                page_manager@ == pages,
                self.wf(pages),
                table@ == self.table(pages),
                epoch == self.epoch(pages),
                index <= table.page_ids@.len(),
                forall|j: int|
                    index <= j < table.page_ids@.len() ==> !is_writable(
                        pages,
                        self.page_id(),
                        epoch,
                        #[trigger] table.page_ids@[j],
                    ),
            decreases index,
        {
            index = index - 1;
            let page_id = table.page_ids[index];
            if page_id != self.page_id {
                match TablePage::load(page_manager, page_id) {
                    Some(page) => {
                        if same_epoch(page.column_definitions(), &table.columns) && !page.is_full(
                            page_manager,
                        ) {
                            return Some((index, page));
                        }
                    },
                    None => {},
                }
            }
        }
        if !page_manager.can_create_page() {
            return None;
        }
        let mut metadata: [u8; 4096] = match page_manager.fetch_page(self.page_id) {
            Some(page) => page.metadata,
            None => {
                return None;
            },
        };
        let ghost initial = metadata@;
        let created: PageId = page_manager.page_count() as u32;
        let mut page_ids = table.page_ids;
        page_ids.push(created);
        if !write_table(&mut metadata, table.name.as_str(), &table.columns, &page_ids) {
            return None;
        }
        let ghost after = TableMeta {
            name: table@.name,
            columns: table@.columns,
            page_ids: table@.page_ids.push(created),
        };
        let columns = duplicate_columns(&table.columns);
        let page_id = page_manager.create_page();
        proof {
            crate::bitmap_index::lemma_zero_flags(page_manager@[page_id as int].metadata@);
        }
        let page = match TablePage::initialize(page_manager, page_id, columns) {
            Some(page) => page,
            None => {
                return None;
            },
        };
        match page_manager.fetch_page_mut(self.page_id) {
            Some(own) => {
                own.metadata = metadata;
            },
            None => {},
        }
        proof {
            crate::table_catalog::lemma_table_round_trip(initial, after);
            crate::bitmap_index::lemma_flags_below_agree(
                initial,
                metadata@,
                BITMAP_CAPACITY as int,
            );
            let fresh = page_manager@[page_id as int];
            assert(is_free_slot(fresh, epoch, 0)) by {
                crate::table_page::lemma_record_size(epoch);
                assert(epoch.len() == table@.columns.len());
                assert(table@.columns.len() <= MAX_COLUMNS);
                assert(crate::table_page::record_size(epoch) <= MAX_COLUMNS);
                assert(crate::table_page::slot_fits(epoch, 0));
                assert(!flag_at(fresh.metadata@, 0));
                assert(is_lowest_clear(fresh.metadata@, 0));
            }
        }
        Some((page_ids.len() - 1, page))
    }

    /// No page of the table is writable for the current epoch.
    pub open spec fn none_writable(&self, pages: Seq<InternalPage>) -> bool {
        forall|j: int|
            0 <= j < self.table(pages).page_ids.len() ==> !is_writable(
                pages,
                self.page_id(),
                self.epoch(pages),
                #[trigger] self.table(pages).page_ids[j],
            )
    }

    /// The table has no writable page and cannot get one: the arena has no
    /// room for a page, or the catalog's page cannot hold another page id.
    pub open spec fn cannot_grow(&self, pages: Seq<InternalPage>) -> bool {
        &&& self.none_writable(pages)
        &&& (pages.len() >= u32::MAX || !is_storable(
            TableMeta {
                name: self.table(pages).name,
                columns: self.table(pages).columns,
                page_ids: self.table(pages).page_ids.push(pages.len() as u32),
            },
        ))
    }

    /// The page `page_id`, which stands at `index` in the table's list
    /// after the call, is where the next record goes. Either it was the last
    /// writable page of the list and nothing changed, or no page was
    /// writable and it is a new page without records, appended to the list.
    pub open spec fn is_target(
        &self,
        before: Seq<InternalPage>,
        after: Seq<InternalPage>,
        index: int,
        page_id: PageId,
    ) -> bool {
        let epoch = self.epoch(before);
        let listed = self.table(before).page_ids;
        &&& 0 <= index < self.table(after).page_ids.len()
        &&& self.table(after).page_ids[index] == page_id
        &&& is_writable(after, self.page_id(), epoch, page_id)
        &&& if self.none_writable(before) {
            &&& page_id == before.len()
            &&& index == listed.len()
            &&& self.table(after).page_ids == listed.push(page_id)
            &&& after.len() == before.len() + 1
            &&& forall|i: int|
                0 <= i < before.len() && i != self.page_id() ==> #[trigger] after[i] == before[i]
            &&& after[self.page_id() as int].data == before[self.page_id() as int].data
            &&& forall|slot: int|
                0 <= slot < BITMAP_CAPACITY ==> !flag_at(after[page_id as int].metadata@, slot)
        } else {
            &&& after == before
            &&& forall|j: int|
                index < j < listed.len() ==> !is_writable(
                    before,
                    self.page_id(),
                    epoch,
                    #[trigger] listed[j],
                )
        }
    }

    /// The record `values` went into `slot` of the page that stands at
    /// `index` in the table's list: it reads back from there, and nothing
    /// else changed but what `is_target` allows.
    pub open spec fn is_inserted(
        &self,
        before: Seq<InternalPage>,
        after: Seq<InternalPage>,
        index: int,
        slot: int,
        values: Seq<Value>,
    ) -> bool {
        let epoch = self.epoch(before);
        let listed = self.table(before).page_ids;
        let page_id = self.table(after).page_ids[index];
        &&& 0 <= index < self.table(after).page_ids.len()
        &&& 0 <= slot < BITMAP_CAPACITY
        &&& page_id < after.len()
        &&& page_id != self.page_id()
        &&& stored_epoch(after[page_id as int].metadata@) == Some(epoch)
        &&& crate::table_page::record_at(after[page_id as int], epoch, slot) == Some(values)
        &&& if self.none_writable(before) {
            &&& page_id == before.len()
            &&& index == listed.len()
            &&& slot == 0
            &&& self.table(after).page_ids == listed.push(page_id)
            &&& after.len() == before.len() + 1
            &&& forall|i: int|
                0 <= i < before.len() && i != self.page_id() ==> #[trigger] after[i] == before[i]
            &&& after[self.page_id() as int].data == before[self.page_id() as int].data
            &&& forall|other: int|
                0 < other < BITMAP_CAPACITY ==> !flag_at(after[page_id as int].metadata@, other)
        } else {
            &&& self.table(after).page_ids == listed
            &&& after.len() == before.len()
            &&& forall|i: int| 0 <= i < before.len() && i != page_id ==> #[trigger] after[i] == before[i]
            &&& forall|j: int|
                index < j < listed.len() ==> !is_writable(
                    before,
                    self.page_id(),
                    epoch,
                    #[trigger] listed[j],
                )
            &&& is_free_slot(before[page_id as int], epoch, slot)
            &&& page_with_record(before[page_id as int], after[page_id as int], epoch, slot, values)
        }
    }

    /// Stores a record in the table and returns its id, which holds the
    /// position of the record's page in the table's list in its upper 32
    /// bits and the record's slot in its lower 32 bits. Fails, changing
    /// nothing, when the record has not one value for each column of the
    /// table, or when the table has no writable page and cannot get one.
    pub fn insert_record(&self, page_manager: &mut PageManager, values: Vec<Value>) -> (id: Option<
        u64,
    >)
        requires
            self.wf(old(page_manager)@),
        ensures
            self.wf(final(page_manager)@),
            self.table(final(page_manager)@).name == self.table(old(page_manager)@).name,
            self.table(final(page_manager)@).columns == self.table(old(page_manager)@).columns,
            values@.len() != self.table(old(page_manager)@).columns.len() ==> id is None
                && final(page_manager)@ == old(page_manager)@,
            match id {
                Some(id) => self.stored_record(
                    old(page_manager)@,
                    final(page_manager)@,
                    values@,
                    id,
                ),
                None => {
                    &&& final(page_manager)@ == old(page_manager)@
                    &&& self.refuses_record(old(page_manager)@, values@)
                },
            },
    {
        let columns = self.column_definitions(page_manager);
        if values.len() != columns.len() {
            return None;
        }
        let ghost before = page_manager@;
        let ghost epoch = self.epoch(before);
        let (index, page) = match self.get_writable_page(page_manager) {
            Some(target) => target,
            None => {
                return None;
            },
        };
        let ghost middle = page_manager@;
        let ghost page_id = page.page_id();
        proof {
            assert(column_views(columns@).len() == epoch.len());
            assert(page.columns().len() == page.epoch().len());
        }
        let slot: u8 = match page.insert_record(page_manager, values) {
            Some(slot) => slot,
            None => {
                return None;
            },
        };
        proof {
            let after = page_manager@;
            crate::table_page::lemma_record_reads_back(
                middle[page_id as int],
                after[page_id as int],
                epoch,
                slot as int,
                values@,
            );
            lemma_flag_keeps_table(middle[page_id as int].metadata@, slot as int, true);
            assert(after[self.page_id() as int] == middle[self.page_id() as int]);
            if self.none_writable(before) {
                let fresh = middle[page_id as int].metadata@;
                assert(!flag_at(fresh, 0));
                assert(is_lowest_clear(fresh, slot as int));
                if slot > 0 {
                    assert(flag_at(fresh, 0));
                }
                assert(slot == 0);
                crate::bitmap_index::lemma_with_flag(fresh, slot as int, true);
                assert forall|other: int| 0 < other < BITMAP_CAPACITY implies !flag_at(
                    after[page_id as int].metadata@,
                    other,
                ) by {
                    assert(!flag_at(fresh, other));
                }
            }
            assert((index * 4294967296 + slot) / 4294967296 == index as int);
            assert((index * 4294967296 + slot) % 4294967296 == slot as int);
        }
        proof {
            crate::table_catalog::lemma_page_count(
                page_manager@[self.page_id() as int].metadata@,
            );
        }
        Some(index as u64 * 4294967296 + slot as u64)
    }

    /// The record with the given id as a row of the current schema. Fails
    /// when the id names no page of the table's list, no slot of a page, a
    /// page that does not exist or holds no epoch, or a slot without a record.
    pub fn get_record(&self, page_manager: &PageManager, record_id: u64) -> (record: Option<
        crate::row_result::RowResult,
    >)
        requires
            self.wf(page_manager@),
        ensures
            match record {
                Some(result) => {
                    let index = record_id as int / 4294967296;
                    let slot = record_id as int % 4294967296;
                    let table = self.table(page_manager@);
                    let page_id = table.page_ids[index];
                    let page = page_manager@[page_id as int];
                    &&& self.names_record(page_manager@, record_id)
                    &&& result.column_names() == names_of(table.columns)
                    &&& result.row_values() == seq![
                        normalize(
                            table.columns,
                            stored_epoch(page.metadata@)->0,
                            crate::table_page::record_at(page, stored_epoch(page.metadata@)->0, slot)->0,
                        ),
                    ]
                    &&& result.recorded_count() == 1
                },
                None => !self.names_record(page_manager@, record_id),
            },
    {
        let index: u64 = record_id / 4294967296;
        let slot: u64 = record_id % 4294967296;
        let table = self.read(page_manager);
        if index >= table.page_ids.len() as u64 || slot >= BITMAP_CAPACITY as u64 {
            return None;
        }
        let page = match TablePage::load(page_manager, table.page_ids[index as usize]) {
            Some(page) => page,
            None => {
                return None;
            },
        };
        let values = match page.get_record(page_manager, slot as u8) {
            Some(values) => values,
            None => {
                return None;
            },
        };
        let row = normalize_page_record(&table.columns, page.column_definitions(), &values);
        let mut rows: Vec<crate::row_result::RowValues> = Vec::new();
        rows.push(row);
        assert(crate::row_result::row_views(rows@) =~= seq![row@]);
        Some(crate::row_result::RowResult::new(names_of_columns(&table.columns), rows))
    }

    /// The id names a record of the table: a page of the table's list that
    /// exists and holds an epoch, and an occupied slot of it whose record
    /// lies within the data region.
    pub open spec fn names_record(&self, pages: Seq<InternalPage>, record_id: u64) -> bool {
        let index = record_id as int / 4294967296;
        let slot = record_id as int % 4294967296;
        let table = self.table(pages);
        &&& index < table.page_ids.len()
        &&& slot < BITMAP_CAPACITY
        &&& table.page_ids[index] < pages.len()
        &&& stored_epoch(pages[table.page_ids[index] as int].metadata@) is Some
        &&& crate::table_page::record_at(
            pages[table.page_ids[index] as int],
            stored_epoch(pages[table.page_ids[index] as int].metadata@)->0,
            slot,
        ) is Some
    }

    /// The result holds all records of the table as rows of the current
    /// schema, under the names of the table's columns.
    pub open spec fn is_all_records(
        &self,
        pages: Seq<InternalPage>,
        records: crate::row_result::RowResult,
    ) -> bool {
        &&& records.column_names() == names_of(self.table(pages).columns)
        &&& records.row_values() == table_rows(
            pages,
            self.table(pages).columns,
            self.table(pages).page_ids,
        )
        &&& records.recorded_count() == records.row_values().len()
    }

    /// The result is what selecting the columns with the given names
    /// gives: all records of the table reduced to those columns, or the
    /// error `ColumnDoesNotExist` with the first name that no column has.
    pub open spec fn is_selection(
        &self,
        pages: Seq<InternalPage>,
        names: Seq<Seq<char>>,
        records: Result<crate::row_result::RowResult, Error>,
    ) -> bool {
        let table = self.table(pages);
        match records {
            Ok(result) => {
                &&& all_present(table.columns, names)
                &&& result.column_names() == names
                &&& result.row_values() == projected(
                    table.columns,
                    names,
                    table_rows(pages, table.columns, table.page_ids),
                )
                &&& result.recorded_count() == result.row_values().len()
            },
            Err(error) => exists|position: int|
                #![trigger names[position]]
                is_first_missing(table.columns, names, position) && error@
                    == ErrorView::ColumnDoesNotExist(names[position]),
        }
    }

    /// All records of the table as rows of the current schema: page after
    /// page in the order of the table's list, and within a page in ascending
    /// order of slot.
    pub fn get_records(&self, page_manager: &PageManager) -> (records: crate::row_result::RowResult)
        requires
            self.wf(page_manager@),
        ensures
            self.is_all_records(page_manager@, records),
    {
        let table = self.read(page_manager);
        let ghost schema = table@.columns;
        let ghost pages = page_manager@;
        let mut rows: Vec<crate::row_result::RowValues> = Vec::new();
        let mut index: usize = 0;
        assert(crate::row_result::row_views(rows@) =~= table_rows(
            pages,
            schema,
            table.page_ids@.take(0),
        ));
        while index < table.page_ids.len()
            invariant
                pages == page_manager@,
                schema == table@.columns,
                index <= table.page_ids@.len(),
                crate::row_result::row_views(rows@) == table_rows(
                    pages,
                    schema,
                    table.page_ids@.take(index as int),
                ),
            decreases table.page_ids@.len() - index,
        {
            let page_id = table.page_ids[index];
            let ghost base = crate::row_result::row_views(rows@);
            proof {
                let listed = table.page_ids@.take(index + 1);
                assert(listed.drop_last() =~= table.page_ids@.take(index as int));
                assert(listed.last() == page_id);
            }
            match TablePage::load(page_manager, page_id) {
                Some(page) => {
                    let stored = page.get_records(page_manager);
                    let ghost epoch = page.epoch();
                    let ghost records = crate::row_result::record_views(stored@);
                    let mut position: usize = 0;
                    assert(base + normalized(schema, epoch, records.take(0)) =~= base);
                    while position < stored.len()
                        invariant
                            schema == table@.columns,
                            epoch == page.epoch(),
                            records == crate::row_result::record_views(stored@),
                            position <= stored@.len(),
                            crate::row_result::row_views(rows@) == base + normalized(
                                schema,
                                epoch,
                                records.take(position as int),
                            ),
                        decreases stored@.len() - position,
                    {
                        let ghost before = rows@;
                        let row = normalize_page_record(
                            &table.columns,
                            page.column_definitions(),
                            &stored[position],
                        );
                        rows.push(row);
                        position = position + 1;
                        proof {
                            assert(crate::row_result::row_views(rows@)
                                =~= crate::row_result::row_views(before).push(row@));
                            assert(records.take(position as int) =~= records.take(
                                position - 1,
                            ).push(records[position - 1]));
                            assert(normalized(schema, epoch, records.take(position as int))
                                =~= normalized(schema, epoch, records.take(position - 1)).push(
                                row@,
                            ));
                            assert(crate::row_result::row_views(rows@) =~= base + normalized(
                                schema,
                                epoch,
                                records.take(position as int),
                            ));
                        }
                    }
                    assert(records.take(position as int) =~= records);
                },
                None => {
                    assert(base + page_rows(pages, schema, page_id) =~= base);
                },
            }
            index = index + 1;
        }
        assert(table.page_ids@.take(index as int) =~= table.page_ids@);
        crate::row_result::RowResult::new(names_of_columns(&table.columns), rows)
    }

    /// All records of the table, reduced to the columns with the given
    /// names, in the order of the names. Fails with `ColumnDoesNotExist`,
    /// naming the first of the names that no column has.
    pub fn get_records_for_columns(&self, page_manager: &PageManager, column_names: &Vec<&str>) -> (records:
        Result<crate::row_result::RowResult, Error>)
        requires
            self.wf(page_manager@),
        ensures
            self.is_selection(page_manager@, str_views(column_names@), records),
    {
        let columns = self.column_definitions(page_manager);
        let ghost schema = column_views(columns@);
        let ghost wanted = str_views(column_names@);
        let mut positions: Vec<usize> = Vec::new();
        let mut names: Vec<String> = Vec::new();
        let mut index: usize = 0;
        while index < column_names.len()
            invariant
                schema == column_views(columns@),
                schema == self.table(page_manager@).columns,
                wanted == str_views(column_names@),
                index <= column_names@.len(),
                positions@.len() == index,
                names@.len() == index,
                forall|c: int| 0 <= c < index ==> (#[trigger] names@[c])@ == wanted[c],
                forall|c: int|
                    0 <= c < index ==> is_first_named(schema, wanted[c], #[trigger] positions@[c] as int),
                forall|c: int| 0 <= c < index ==> has_column(schema, #[trigger] wanted[c]),
            decreases column_names@.len() - index,
        {
            let name: &str = column_names[index];
            assert(wanted[index as int] == name@);
            match find_column(&columns, name) {
                Some(position) => {
                    positions.push(position);
                    names.push(name.to_string());
                },
                None => {
                    let error = Error::ColumnDoesNotExist(name.to_string());
                    assert(is_first_missing(schema, wanted, index as int) && error@
                        == ErrorView::ColumnDoesNotExist(wanted[index as int]));
                    return Err(error);
                },
            }
            index = index + 1;
        }
        assert(crate::row_result::texts(names@) =~= wanted);
        let all = self.get_records(page_manager);
        let ghost full = all.row_values();
        let source = all.rows();
        let mut rows: Vec<crate::row_result::RowValues> = Vec::new();
        let mut row: usize = 0;
        proof {
            lemma_rows_have_schema_width(
                page_manager@,
                schema,
                self.table(page_manager@).page_ids,
            );
            assert forall|c: int| 0 <= c < wanted.len() implies position_of(schema, wanted[c])
                == #[trigger] positions@[c] as int by {
                let chosen = position_of(schema, wanted[c]);
                let found = positions@[c] as int;
                assert(is_first_named(schema, wanted[c], found));
                assert(is_first_named(schema, wanted[c], chosen));
                if chosen < found {
                    assert(schema[chosen].name != wanted[c]);
                }
                if found < chosen {
                    assert(schema[found].name != wanted[c]);
                }
            }
        }
        assert(crate::row_result::row_views(rows@) =~= projected(schema, wanted, full.take(0)));
        while row < source.len()
            invariant
                full == crate::row_result::row_views(source@),
                row <= source@.len(),
                positions@.len() == wanted.len(),
                forall|r: int| 0 <= r < full.len() ==> (#[trigger] full[r]).len() == schema.len(),
                forall|c: int|
                    0 <= c < wanted.len() ==> position_of(schema, wanted[c])
                        == #[trigger] positions@[c] as int,
                forall|c: int| 0 <= c < wanted.len() ==> 0 <= #[trigger] positions@[c] < schema.len(),
                crate::row_result::row_views(rows@) == projected(schema, wanted, full.take(row as int)),
            decreases source@.len() - row,
        {
            let values = &source[row];
            assert(values@ == full[row as int]);
            let mut reduced: Vec<Option<Value>> = Vec::new();
            let mut column: usize = 0;
            while column < positions.len()
                invariant
                    values@.len() == schema.len(),
                    positions@.len() == wanted.len(),
                    column <= positions@.len(),
                    forall|c: int|
                        0 <= c < wanted.len() ==> position_of(schema, wanted[c])
                            == #[trigger] positions@[c] as int,
                    forall|c: int|
                        0 <= c < wanted.len() ==> 0 <= #[trigger] positions@[c] < schema.len(),
                    reduced@.len() == column,
                    forall|c: int|
                        0 <= c < column ==> #[trigger] reduced@[c] == values@[position_of(
                            schema,
                            wanted[c],
                        )],
                decreases positions@.len() - column,
            {
                let position = positions[column];
                reduced.push(values[position]);
                column = column + 1;
            }
            assert(reduced@ =~= project(schema, wanted, values@));
            let ghost before = rows@;
            rows.push(reduced);
            row = row + 1;
            proof {
                assert(crate::row_result::row_views(rows@) =~= crate::row_result::row_views(
                    before,
                ).push(reduced@));
                assert(full.take(row as int) =~= full.take(row - 1).push(full[row - 1]));
                assert(projected(schema, wanted, full.take(row as int)) =~= projected(
                    schema,
                    wanted,
                    full.take(row - 1),
                ).push(reduced@));
            }
        }
        assert(full.take(row as int) =~= full);
        Ok(crate::row_result::RowResult::new(names, rows))
    }
}

/// What lies after the bitmap of a region does not depend on the flags: a
/// region with one flag changed holds the same table.
pub proof fn lemma_flag_keeps_table(metadata: Seq<u8>, index: int, value: bool)
    requires
        metadata.len() == PAGE_SIZE,
        0 <= index < BITMAP_CAPACITY,
    ensures
        stored_table(with_flag(metadata, index, value)) == stored_table(metadata),
        stored_epoch(with_flag(metadata, index, value)) == stored_epoch(metadata),
{
    let changed = with_flag(metadata, index, value);
    assert forall|i: int| 32 <= i < PAGE_SIZE implies changed[i] == metadata[i] by {}
    lemma_same_table(metadata, changed);
    lemma_same_epoch(metadata, changed);
}

/// Two regions that agree from byte 32 on hold the same table.
pub proof fn lemma_same_table(first: Seq<u8>, second: Seq<u8>)
    requires
        first.len() == PAGE_SIZE,
        second.len() == PAGE_SIZE,
        forall|i: int| 32 <= i < PAGE_SIZE ==> first[i] == second[i],
    ensures
        stored_table(first) == stored_table(second),
{
    let name_length = first[32] as int;
    assert(first.subrange(33, 33 + name_length) =~= second.subrange(33, 33 + name_length));
    let count = (first[96] as int * 256 + first[97] as int) as nat;
    lemma_same_columns(first, second, 98, count);
    let run = crate::table_catalog::decode_columns(first, 98, count);
    if run is Some {
        lemma_columns_end(first, 98, count);
        let end = run->0.end;
        let one = crate::table_catalog::decode_page_ids(first, end);
        let other = crate::table_catalog::decode_page_ids(second, end);
        if one is Some {
            assert(one->0 =~= other->0) by {
                assert forall|i: int| 0 <= i < one->0.len() implies one->0[i] == other->0[i] by {
                    assert(first.subrange(end + 1 + 4 * i, end + 5 + 4 * i) =~= second.subrange(
                        end + 1 + 4 * i,
                        end + 5 + 4 * i,
                    ));
                }
            }
        }
    }
}

/// Columns are read from where they start onwards.
pub proof fn lemma_columns_end(bytes: Seq<u8>, cursor: int, count: nat)
    requires
        crate::table_catalog::decode_columns(bytes, cursor, count) is Some,
    ensures
        crate::table_catalog::decode_columns(bytes, cursor, count)->0.end >= cursor,
    decreases count,
{
    if count > 0 {
        lemma_columns_end(bytes, cursor + 1 + bytes[cursor] as int, (count - 1) as nat);
    }
}

/// Two regions that agree from `from` on hold the same columns at any
/// position from there on.
pub proof fn lemma_same_columns(first: Seq<u8>, second: Seq<u8>, cursor: int, count: nat)
    requires
        first.len() == second.len(),
        0 <= cursor,
        forall|i: int| cursor <= i < first.len() ==> first[i] == second[i],
    ensures
        crate::table_catalog::decode_columns(first, cursor, count)
            == crate::table_catalog::decode_columns(second, cursor, count),
    decreases count,
{
    if count > 0 && cursor < first.len() {
        let size = first[cursor] as int;
        if cursor + 1 + size <= first.len() {
            assert(first.subrange(cursor + 1, cursor + 1 + size) =~= second.subrange(
                cursor + 1,
                cursor + 1 + size,
            ));
            lemma_same_columns(first, second, cursor + 1 + size, (count - 1) as nat);
        }
    }
}

/// Two regions that agree from byte 32 on hold the same epoch.
pub proof fn lemma_same_epoch(first: Seq<u8>, second: Seq<u8>)
    requires
        first.len() == PAGE_SIZE,
        second.len() == PAGE_SIZE,
        forall|i: int| 32 <= i < PAGE_SIZE ==> first[i] == second[i],
    ensures
        stored_epoch(first) == stored_epoch(second),
{
    assert(first.subrange(32, 40) =~= second.subrange(32, 40));
    let length = crate::codec::be64_value(first.subrange(32, 40));
    if length % 2 == 0 && length <= 512 {
        if stored_epoch(first) is Some {
            assert(stored_epoch(second) is Some);
            assert(stored_epoch(first)->0 =~= stored_epoch(second)->0);
        } else {
            let i = choose|i: int|
                0 <= i < length / 2 && DataType::of_type_id(#[trigger] first[40 + 2 * i + 1])
                    is None;
            assert(DataType::of_type_id(second[40 + 2 * i + 1]) is None);
        }
    }
}

/// The position of the first column with the name, if there is one.
pub fn find_column(columns: &Vec<ColumnDefinition>, name: &str) -> (found: Option<usize>)
    ensures
        match found {
            Some(position) => is_first_named(column_views(columns@), name@, position as int),
            None => !has_column(column_views(columns@), name@),
        },
        found is Some <==> has_column(column_views(columns@), name@),
{
    let mut index: usize = 0;
    while index < columns.len()
        invariant
            index <= columns@.len(),
            forall|j: int| 0 <= j < index ==> (#[trigger] column_views(columns@)[j]).name != name@,
        decreases columns@.len() - index,
    {
        if str_eq(columns[index].name().as_str(), name) {
            assert(column_views(columns@)[index as int].name == name@);
            return Some(index);
        }
        index = index + 1;
    }
    None
}

/// The names of the columns, in order.
pub fn names_of_columns(columns: &Vec<ColumnDefinition>) -> (names: Vec<String>)
    ensures
        crate::row_result::texts(names@) == names_of(column_views(columns@)),
{
    let mut names: Vec<String> = Vec::new();
    let mut index: usize = 0;
    while index < columns.len()
        invariant
            index <= columns@.len(),
            names@.len() == index,
            forall|j: int| 0 <= j < index ==> (#[trigger] names@[j])@ == columns@[j]@.name,
        decreases columns@.len() - index,
    {
        names.push(columns[index].name().clone());
        index = index + 1;
    }
    assert(crate::row_result::texts(names@) =~= names_of(column_views(columns@)));
    names
}

/// Whether a metadata region holds a well-formed table.
pub fn holds_table(metadata: &[u8; 4096]) -> (valid: bool)
    ensures
        valid == is_table(metadata@),
{
    let table = match read_table(metadata) {
        Some(table) => table,
        None => {
            return false;
        },
    };
    let ghost columns = table@.columns;
    if count_flags(metadata) != table.columns.len() {
        return false;
    }
    let mut seen: [bool; 256] = [false; 256];
    let mut index: usize = 0;
    while index < table.columns.len()
        invariant
            stored_table(metadata@) == Some(table@),
            columns == table@.columns,
            flag_count(metadata@) == columns.len(),
            index <= table.columns@.len(),
            forall|i: int| 0 <= i < index ==> flag_at(metadata@, (#[trigger] columns[i]).column_id as int),
            forall|i: int| 0 <= i < index ==> seen@[(#[trigger] columns[i]).column_id as int],
            forall|id: int|
                0 <= id < 256 && #[trigger] seen@[id] ==> exists|i: int|
                    0 <= i < index && (#[trigger] columns[i]).column_id == id,
            forall|i: int, j: int|
                0 <= i < j < index ==> (#[trigger] columns[i]).column_id != (
                #[trigger] columns[j]).column_id,
        decreases table.columns@.len() - index,
    {
        let column_id: u8 = table.columns[index].column_id();
        assert(columns[index as int].column_id == column_id);
        if !flag_is_set(metadata, column_id) {
            return false;
        }
        if seen[column_id as usize] {
            proof {
                let i = choose|i: int| 0 <= i < index && (#[trigger] columns[i]).column_id == column_id;
                assert(columns[i].column_id == columns[index as int].column_id);
            }
            return false;
        }
        seen[column_id as usize] = true;
        index = index + 1;
    }
    true
}


/// Whether two lists of columns make the same epoch: the same ids and
/// types, in the same order.
pub fn same_epoch(first: &Vec<ColumnDefinition>, second: &Vec<ColumnDefinition>) -> (same: bool)
    ensures
        same == (epoch_of(column_views(first@)) == epoch_of(column_views(second@))),
{
    let ghost one = epoch_of(column_views(first@));
    let ghost other = epoch_of(column_views(second@));
    if first.len() != second.len() {
        assert(one.len() != other.len());
        return false;
    }
    let mut index: usize = 0;
    while index < first.len()
        invariant
            first@.len() == second@.len(),
            one == epoch_of(column_views(first@)),
            other == epoch_of(column_views(second@)),
            index <= first@.len(),
            forall|j: int| 0 <= j < index ==> one[j] == other[j],
        decreases first@.len() - index,
    {
        let left = &first[index];
        let right = &second[index];
        if left.column_id() != right.column_id() || left.data_type().bsql_type_id()
            != right.data_type().bsql_type_id() {
            assert(one[index as int] != other[index as int]);
            return false;
        }
        index = index + 1;
    }
    assert(one =~= other);
    true
}

/// A copy of a list of columns.
pub fn duplicate_columns(columns: &Vec<ColumnDefinition>) -> (copy: Vec<ColumnDefinition>)
    ensures
        column_views(copy@) == column_views(columns@),
{
    let mut copy: Vec<ColumnDefinition> = Vec::new();
    let mut index: usize = 0;
    while index < columns.len()
        invariant
            index <= columns@.len(),
            copy@.len() == index,
            forall|j: int| 0 <= j < index ==> (#[trigger] copy@[j])@ == columns@[j]@,
        decreases columns@.len() - index,
    {
        copy.push(columns[index].duplicate());
        index = index + 1;
    }
    assert(column_views(copy@) =~= column_views(columns@));
    copy
}


/// Every row of a table has one entry for each column of the schema.
pub proof fn lemma_rows_have_schema_width(
    pages: Seq<InternalPage>,
    schema: Seq<ColumnView>,
    page_ids: Seq<PageId>,
)
    ensures
        forall|r: int|
            0 <= r < table_rows(pages, schema, page_ids).len() ==> (#[trigger] table_rows(
                pages,
                schema,
                page_ids,
            )[r]).len() == schema.len(),
    decreases page_ids.len(),
{
    if page_ids.len() > 0 {
        lemma_rows_have_schema_width(pages, schema, page_ids.drop_last());
        let front = table_rows(pages, schema, page_ids.drop_last());
        let rows = table_rows(pages, schema, page_ids);
        assert forall|r: int| 0 <= r < rows.len() implies (#[trigger] rows[r]).len()
            == schema.len() by {
            if r < front.len() {
                assert(rows[r] == front[r]);
            } else {
                assert(rows[r] == page_rows(pages, schema, page_ids.last())[r - front.len()]);
            }
        }
    }
}

/// Turns a record of a page into a row of the schema: for each column of
/// the schema the record's value for the column with that id, and `None`
/// where the page has no such column.
pub fn normalize_page_record(
    schema: &Vec<ColumnDefinition>,
    page_columns: &Vec<ColumnDefinition>,
    page_record: &Vec<Value>,
) -> (row: Vec<Option<Value>>)
    ensures
        row@ == normalize(
            column_views(schema@),
            epoch_of(column_views(page_columns@)),
            page_record@,
        ),
{
    let ghost epoch = epoch_of(column_views(page_columns@));
    let mut row: Vec<Option<Value>> = Vec::new();
    let mut index: usize = 0;
    while index < schema.len()
        invariant
            epoch == epoch_of(column_views(page_columns@)),
            index <= schema@.len(),
            row@.len() == index,
            forall|j: int|
                0 <= j < index ==> #[trigger] row@[j] == value_of_column(
                    epoch,
                    page_record@,
                    column_views(schema@)[j].column_id,
                ),
        decreases schema@.len() - index,
    {
        let column_id: u8 = schema[index].column_id();
        let mut position: usize = 0;
        let mut value: Option<Value> = None;
        let mut found: bool = false;
        while position < page_columns.len() && !found
            invariant
                epoch == epoch_of(column_views(page_columns@)),
                position <= page_columns@.len(),
                !found ==> forall|j: int|
                    0 <= j < position ==> (#[trigger] epoch[j]).column_id != column_id,
                !found ==> value is None,
                found ==> 0 < position && is_first_with_id(epoch, column_id, position - 1) && value
                    == if position - 1 < page_record@.len() {
                    Some(page_record@[position - 1])
                } else {
                    None::<Value>
                },
            decreases page_columns@.len() - position, if found { 0int } else { 1int },
        {
            if page_columns[position].column_id() == column_id {
                assert(epoch[position as int].column_id == column_id);
                found = true;
                if position < page_record.len() {
                    value = Some(page_record[position]);
                }
            }
            position = position + 1;
        }
        proof {
            let expected = value_of_column(epoch, page_record@, column_id);
            if found {
                let first = position - 1;
                if first < page_record@.len() {
                    let chosen = choose|k: int|
                        is_first_with_id(epoch, column_id, k) && k < page_record@.len();
                    if chosen < first {
                        assert(epoch[chosen].column_id != column_id);
                    }
                    if first < chosen {
                        assert(epoch[first].column_id != column_id);
                    }
                } else {
                    if exists|k: int|
                        is_first_with_id(epoch, column_id, k) && k < page_record@.len() {
                        let other = choose|k: int|
                            is_first_with_id(epoch, column_id, k) && k < page_record@.len();
                        assert(epoch[other].column_id != column_id);
                    }
                }
            } else {
                if exists|k: int| is_first_with_id(epoch, column_id, k) && k < page_record@.len() {
                    let other = choose|k: int|
                        is_first_with_id(epoch, column_id, k) && k < page_record@.len();
                    assert(epoch[other].column_id != column_id);
                }
            }
            assert(value == expected);
        }
        row.push(value);
        index = index + 1;
    }
    assert(row@ =~= normalize(column_views(schema@), epoch, page_record@));
    row
}


/// Column ids are unique and stable: a column that was added has an id
/// that no earlier column of the table has, and every earlier column is as
/// it was, at the position where it was.
pub proof fn lemma_column_ids_are_unique_and_stable(
    table: TableManager,
    before: Seq<InternalPage>,
    after: Seq<InternalPage>,
    column_name: Seq<char>,
    data_type: DataType,
)
    requires
        table.wf(before),
        table.added_column(before, after, column_name, data_type),
    ensures
        forall|i: int|
            0 <= i < table.table(before).columns.len() ==> #[trigger] table.table(after).columns[i]
                == table.table(before).columns[i],
        forall|i: int|
            0 <= i < table.table(before).columns.len() ==> (#[trigger] table.table(
                before,
            ).columns[i]).column_id != table.table(after).columns.last().column_id,
{
    let earlier = table.table(before).columns;
    let later = table.table(after).columns;
    let metadata = before[table.page_id() as int].metadata@;
    assert forall|i: int| 0 <= i < earlier.len() implies #[trigger] later[i] == earlier[i] by {
        assert(later.drop_last()[i] == later[i]);
    }
    assert forall|i: int| 0 <= i < earlier.len() implies (#[trigger] earlier[i]).column_id
        != later.last().column_id by {
        assert(flag_at(metadata, earlier[i].column_id as int));
    }
}

/// A table with 256 columns takes no further column: whatever its name,
/// as long as no column has it, adding it is refused with
/// `TooManyColumnsInUse`, and no arena is one in which it was added.
pub proof fn lemma_full_table_takes_no_column(
    table: TableManager,
    pages: Seq<InternalPage>,
    column_name: Seq<char>,
    data_type: DataType,
)
    requires
        table.wf(pages),
        table.table(pages).columns.len() == MAX_COLUMNS,
        !has_column(table.table(pages).columns, column_name),
    ensures
        table.refused_column(pages, column_name, data_type, ErrorView::TooManyColumnsInUse),
        forall|after: Seq<InternalPage>|
            !#[trigger] table.added_column(pages, after, column_name, data_type),
{
    let metadata = pages[table.page_id() as int].metadata@;
    crate::bitmap_index::lemma_flags_below_bounds(metadata, BITMAP_CAPACITY as int);
    assert(all_set(metadata));
    assert forall|after: Seq<InternalPage>| !#[trigger] table.added_column(
        pages,
        after,
        column_name,
        data_type,
    ) by {
        if table.added_column(pages, after, column_name, data_type) {
            let column_id = table.table(after).columns.last().column_id as int;
            assert(is_lowest_clear(metadata, column_id));
            assert(flag_at(metadata, column_id));
        }
    }
}

/// A record that was stored reads back under its id, as a row that has the
/// record's values in the order of the columns.
pub proof fn lemma_stored_record_reads_back(
    table: TableManager,
    before: Seq<InternalPage>,
    after: Seq<InternalPage>,
    values: Seq<Value>,
    id: u64,
)
    requires
        table.wf(before),
        table.stored_record(before, after, values, id),
    ensures
        table.names_record(after, id),
{
}

} // verus!
