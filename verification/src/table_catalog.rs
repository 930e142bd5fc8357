use vstd::prelude::*;
use vstd::utf8::decode_utf8;
use vstd::utf8::encode_utf8;
use vstd::utf8::valid_utf8;
use crate::bitmap_index::flag_at;
use crate::bitmap_index::BITMAP_CAPACITY;
use crate::codec::be32_bytes;
use crate::codec::be32_value;
use crate::codec::overwritten;
use crate::codec::read_be32;
use crate::codec::u32_to_be;
use crate::codec::write_bytes;
use crate::column_definition::column_views;
use crate::column_definition::ColumnDefinition;
use crate::column_definition::ColumnView;
use crate::column_definition::MAX_COLUMN_NAME_BYTES;
use crate::text::copy_range;
use crate::text::string_from_utf8;
use vstd::string::StringSliceAdditionalSpecFns;
use crate::page::PAGE_SIZE;
use crate::page_manager::PageId;

verus! {

/// Where the name of a table starts in its metadata region: one byte that
/// holds the length of the name, then the name. The bytes before it hold the
/// bitmap of column ids in use.
pub const TABLE_NAME_OFFSET: usize = 32;

/// The longest name of a table, in bytes.
pub const MAX_TABLE_NAME_BYTES: usize = 62;

/// Where the columns of a table start in its metadata region: two bytes
/// that hold their number, then the columns, then the list of page ids.
pub const CATALOG_OFFSET: usize = 96;

/// The most columns a table can have.
pub const MAX_COLUMNS: usize = 256;

/// The most pages of records a table can have.
pub const MAX_TABLE_PAGES: usize = 255;

/// What the metadata region of a table holds, besides the bitmap of column
/// ids: the table's name, its columns in the order they were added, and the
/// ids of its pages of records in the order they were created.
pub struct TableMeta {
    pub name: Seq<char>,
    pub columns: Seq<ColumnView>,
    pub page_ids: Seq<PageId>,
}

/// The stored form of a name: its length in bytes, then its UTF-8 encoding.
pub open spec fn name_field(name: Seq<char>) -> Seq<u8> {
    seq![(encode_utf8(name).len() % 256) as u8] + encode_utf8(name)
}

/// The stored form of a list of columns: their stored forms, one after another.
pub open spec fn columns_bytes(columns: Seq<ColumnView>) -> Seq<u8>
    decreases columns.len(),
{
    if columns.len() == 0 {
        Seq::empty()
    } else {
        columns[0].encoding() + columns_bytes(columns.drop_first())
    }
}

/// The stored form of a list of page ids: four bytes for each, most
/// significant byte first.
pub open spec fn page_ids_bytes(page_ids: Seq<PageId>) -> Seq<u8> {
    Seq::new(4 * page_ids.len(), |i: int| be32_bytes(page_ids[i / 4])[i % 4])
}

/// The stored form of the columns and page ids of a table.
pub open spec fn catalog_bytes(meta: TableMeta) -> Seq<u8> {
    seq![(meta.columns.len() / 256) as u8, (meta.columns.len() % 256) as u8] + columns_bytes(
        meta.columns,
    ) + seq![meta.page_ids.len() as u8] + page_ids_bytes(meta.page_ids)
}

/// Every column of the list can be stored.
pub open spec fn all_storable(columns: Seq<ColumnView>) -> bool {
    forall|i: int| 0 <= i < columns.len() ==> (#[trigger] columns[i]).is_storable()
}

/// The table fits its metadata region: the name is short enough, there are
/// at most 256 columns, each with a name that can be stored, at most 255
/// pages, and all of it lies within the region.
pub open spec fn is_storable(meta: TableMeta) -> bool {
    &&& encode_utf8(meta.name).len() <= MAX_TABLE_NAME_BYTES
    &&& meta.columns.len() <= MAX_COLUMNS
    &&& all_storable(meta.columns)
    &&& meta.page_ids.len() <= MAX_TABLE_PAGES
    &&& CATALOG_OFFSET + catalog_bytes(meta).len() <= PAGE_SIZE
}

/// A metadata region with a table written into it. The bitmap of column ids
/// stays as it is.
pub open spec fn with_table(metadata: Seq<u8>, meta: TableMeta) -> Seq<u8> {
    overwritten(
        overwritten(metadata, TABLE_NAME_OFFSET as int, name_field(meta.name)),
        CATALOG_OFFSET as int,
        catalog_bytes(meta),
    )
}

/// Columns that were read, and the position after the last of them.
pub struct ColumnRun {
    pub columns: Seq<ColumnView>,
    pub end: int,
}

/// Reads `count` columns from `cursor` on. Gives the columns and the
/// position after the last of them, or nothing where the bytes hold no such
/// columns.
pub open spec fn decode_columns(bytes: Seq<u8>, cursor: int, count: nat) -> Option<ColumnRun>
    decreases count,
{
    if count == 0 {
        Some(ColumnRun { columns: Seq::empty(), end: cursor })
    } else if cursor < 0 || cursor >= bytes.len() {
        None
    } else {
        let size = bytes[cursor] as int;
        if cursor + 1 + size > bytes.len() {
            None
        } else {
            let column = ColumnView::of_body(bytes.subrange(cursor + 1, cursor + 1 + size));
            let rest = decode_columns(bytes, cursor + 1 + size, (count - 1) as nat);
            if column is Some && rest is Some {
                Some(ColumnRun { columns: seq![column->0] + rest->0.columns, end: rest->0.end })
            } else {
                None
            }
        }
    }
}

/// Reads the list of page ids that starts at `cursor`: one byte that holds
/// their number, then four bytes for each.
pub open spec fn decode_page_ids(bytes: Seq<u8>, cursor: int) -> Option<Seq<PageId>> {
    if cursor < 0 || cursor >= bytes.len() {
        None
    } else if cursor + 1 + 4 * bytes[cursor] > bytes.len() {
        None
    } else {
        Some(
            Seq::new(
                bytes[cursor] as nat,
                |i: int|
                    be32_value(bytes.subrange(cursor + 1 + 4 * i, cursor + 5 + 4 * i)) as u32,
            ),
        )
    }
}

/// The table that a metadata region holds, if it holds one.
pub open spec fn stored_table(metadata: Seq<u8>) -> Option<TableMeta> {
    let name_length = metadata[TABLE_NAME_OFFSET as int] as int;
    let name_bytes = metadata.subrange(TABLE_NAME_OFFSET + 1, TABLE_NAME_OFFSET + 1 + name_length);
    let count = metadata[CATALOG_OFFSET as int] as int * 256 + metadata[CATALOG_OFFSET + 1] as int;
    let columns = decode_columns(metadata, CATALOG_OFFSET + 2, count as nat);
    if name_length > MAX_TABLE_NAME_BYTES || !valid_utf8(name_bytes) || count > MAX_COLUMNS
        || columns is None {
        None
    } else {
        let page_ids = decode_page_ids(metadata, columns->0.end);
        if page_ids is None {
            None
        } else {
            Some(
                TableMeta {
                    name: decode_utf8(name_bytes),
                    columns: columns->0.columns,
                    page_ids: page_ids->0,
                },
            )
        }
    }
}

/// The stored form of two lists of columns put together is their stored
/// forms put together.
pub proof fn lemma_columns_bytes_concat(first: Seq<ColumnView>, second: Seq<ColumnView>)
    ensures
        columns_bytes(first + second) == columns_bytes(first) + columns_bytes(second),
    decreases first.len(),
{
    if first.len() == 0 {
        assert(first + second =~= second);
        assert(columns_bytes(first) + columns_bytes(second) =~= columns_bytes(second));
    } else {
        lemma_columns_bytes_concat(first.drop_first(), second);
        assert((first + second).drop_first() =~= first.drop_first() + second);
        assert((first + second)[0] == first[0]);
        assert(columns_bytes(first + second) =~= columns_bytes(first) + columns_bytes(second));
    }
}

/// Appending a column appends its stored form.
pub proof fn lemma_columns_bytes_push(columns: Seq<ColumnView>, column: ColumnView)
    ensures
        columns_bytes(columns.push(column)) == columns_bytes(columns) + column.encoding(),
{
    lemma_columns_bytes_concat(columns, seq![column]);
    assert(columns.push(column) =~= columns + seq![column]);
    assert(seq![column].drop_first() =~= Seq::<ColumnView>::empty());
    assert(columns_bytes(seq![column].drop_first()) =~= Seq::<u8>::empty());
    assert(seq![column][0] == column);
    assert(columns_bytes(seq![column]) =~= column.encoding());
}

/// Columns that lie in `bytes` from `cursor` on in their stored form are
/// read back as they are.
pub proof fn lemma_decode_columns(bytes: Seq<u8>, cursor: int, columns: Seq<ColumnView>)
    requires
        0 <= cursor,
        cursor + columns_bytes(columns).len() <= bytes.len(),
        bytes.subrange(cursor, cursor + columns_bytes(columns).len()) == columns_bytes(columns),
        all_storable(columns),
    ensures
        decode_columns(bytes, cursor, columns.len()) == Some(
            ColumnRun { columns, end: cursor + columns_bytes(columns).len() },
        ),
    decreases columns.len(),
{
    if columns.len() > 0 {
        let column = columns[0];
        let rest = columns.drop_first();
        let stored = columns_bytes(columns);
        let body = column.body();
        assert(column.is_storable());
        assert(body.len() == 2 + encode_utf8(column.name).len());
        assert(stored == column.encoding() + columns_bytes(rest));
        assert(bytes[cursor] == stored[0]);
        let size = bytes[cursor] as int;
        assert(size == body.len());
        assert(bytes.subrange(cursor + 1, cursor + 1 + size) =~= body) by {
            assert forall|i: int| 0 <= i < size implies bytes[cursor + 1 + i] == body[i] by {
                assert(bytes[cursor + 1 + i] == stored[1 + i]);
            }
        }
        crate::column_definition::lemma_column_body_round_trip(column);
        let next = cursor + 1 + size;
        assert(bytes.subrange(next, next + columns_bytes(rest).len()) =~= columns_bytes(rest)) by {
            assert forall|i: int| 0 <= i < columns_bytes(rest).len() implies bytes[next + i]
                == columns_bytes(rest)[i] by {
                assert(bytes[next + i] == stored[1 + size + i]);
            }
        }
        assert(all_storable(rest)) by {
            assert forall|i: int| 0 <= i < rest.len() implies (#[trigger] rest[i]).is_storable() by {
                assert(rest[i] == columns[i + 1]);
            }
        }
        lemma_decode_columns(bytes, next, rest);
        assert(seq![column] + rest =~= columns);
        assert(stored.len() == 1 + size + columns_bytes(rest).len());
        let read = decode_columns(bytes, next, rest.len());
        assert(read == Some(ColumnRun { columns: rest, end: next + columns_bytes(rest).len() }));
        assert(decode_columns(bytes, cursor, columns.len()) == Some(
            ColumnRun { columns: seq![column] + rest, end: read->0.end },
        ));
    } else {
        assert(columns =~= Seq::<ColumnView>::empty());
    }
}

/// A table that was written into a metadata region is the one it holds, and
/// the bitmap of column ids is as before.
pub proof fn lemma_table_round_trip(metadata: Seq<u8>, meta: TableMeta)
    requires
        metadata.len() == PAGE_SIZE,
        is_storable(meta),
    ensures
        with_table(metadata, meta).len() == PAGE_SIZE,
        stored_table(with_table(metadata, meta)) == Some(meta),
        forall|i: int| 0 <= i < TABLE_NAME_OFFSET ==> with_table(metadata, meta)[i] == metadata[i],
        forall|id: int|
            0 <= id < BITMAP_CAPACITY ==> flag_at(with_table(metadata, meta), id) == flag_at(
                metadata,
                id,
            ),
{
    let written = with_table(metadata, meta);
    let name = encode_utf8(meta.name);
    let catalog = catalog_bytes(meta);
    let columns = columns_bytes(meta.columns);
    let start = CATALOG_OFFSET + 2;
    let end = start + columns.len();
    assert(written[TABLE_NAME_OFFSET as int] == name_field(meta.name)[0]);
    assert(written.subrange(TABLE_NAME_OFFSET + 1, TABLE_NAME_OFFSET + 1 + name.len()) =~= name) by {
        assert forall|i: int| 0 <= i < name.len() implies written[TABLE_NAME_OFFSET + 1 + i]
            == name[i] by {
            assert(written[TABLE_NAME_OFFSET + 1 + i] == name_field(meta.name)[1 + i]);
        }
    }
    vstd::utf8::encode_utf8_valid_utf8(meta.name);
    vstd::utf8::encode_utf8_decode_utf8(meta.name);
    assert(written[CATALOG_OFFSET as int] == catalog[0]);
    assert(written[CATALOG_OFFSET + 1] == catalog[1]);
    assert(written.subrange(start, end) =~= columns) by {
        assert forall|i: int| 0 <= i < columns.len() implies written[start + i] == columns[i] by {
            assert(written[start + i] == catalog[2 + i]);
        }
    }
    lemma_decode_columns(written, start, meta.columns);
    assert(written[end] == catalog[end - CATALOG_OFFSET]);
    let decoded = decode_page_ids(written, end);
    assert(decoded is Some);
    assert(decoded->0 =~= meta.page_ids) by {
        assert forall|i: int| 0 <= i < meta.page_ids.len() implies decoded->0[i]
            == meta.page_ids[i] by {
            let stored = written.subrange(end + 1 + 4 * i, end + 5 + 4 * i);
            assert(stored =~= be32_bytes(meta.page_ids[i])) by {
                assert forall|k: int| 0 <= k < 4 implies stored[k] == be32_bytes(
                    meta.page_ids[i],
                )[k] by {
                    assert(stored[k] == catalog[end - CATALOG_OFFSET + 1 + 4 * i + k]);
                    assert(page_ids_bytes(meta.page_ids)[4 * i + k] == be32_bytes(
                        meta.page_ids[(4 * i + k) / 4],
                    )[(4 * i + k) % 4]);
                }
            }
            crate::codec::lemma_u32_round_trip(meta.page_ids[i]);
        }
    }
    assert forall|id: int| 0 <= id < BITMAP_CAPACITY implies flag_at(written, id) == flag_at(
        metadata,
        id,
    ) by {
        assert(written[id / 8] == metadata[id / 8]);
    }
}


/// A table as it is read from, or written to, a metadata region.
pub struct TableCatalog {
    pub name: String,
    pub columns: Vec<ColumnDefinition>,
    pub page_ids: Vec<PageId>,
}

impl View for TableCatalog {
    type V = TableMeta;

    open spec fn view(&self) -> TableMeta {
        TableMeta {
            name: self.name@,
            columns: column_views(self.columns@),
            page_ids: self.page_ids@,
        }
    }
}

/// The columns `front`, followed by the columns of `run`.
pub open spec fn prepend_columns(front: Seq<ColumnView>, run: Option<ColumnRun>) -> Option<
    ColumnRun,
> {
    match run {
        Some(rest) => Some(ColumnRun { columns: front + rest.columns, end: rest.end }),
        None => None,
    }
}

/// Reads the table that a metadata region holds.
pub fn read_table(metadata: &[u8; 4096]) -> (table: Option<TableCatalog>)
    ensures
        match table {
            Some(found) => stored_table(metadata@) == Some(found@),
            None => stored_table(metadata@) is None,
        },
{
    let name_length: usize = metadata[TABLE_NAME_OFFSET] as usize;
    if name_length > MAX_TABLE_NAME_BYTES {
        return None;
    }
    let name_bytes = copy_range(
        metadata,
        TABLE_NAME_OFFSET + 1,
        TABLE_NAME_OFFSET + 1 + name_length,
    );
    let name = match string_from_utf8(name_bytes) {
        Some(name) => name,
        None => {
            return None;
        },
    };
    let count: usize = metadata[CATALOG_OFFSET] as usize * 256 + metadata[CATALOG_OFFSET + 1] as usize;
    if count > MAX_COLUMNS {
        return None;
    }
    let mut columns: Vec<ColumnDefinition> = Vec::new();
    let mut cursor: usize = CATALOG_OFFSET + 2;
    let mut index: usize = 0;
    assert(column_views(columns@) =~= Seq::<ColumnView>::empty());
    assert(prepend_columns(
        column_views(columns@),
        decode_columns(metadata@, cursor as int, count as nat),
    ) =~= decode_columns(metadata@, cursor as int, count as nat)) by {
        let run = decode_columns(metadata@, cursor as int, count as nat);
        if run is Some {
            assert(column_views(columns@) + run->0.columns =~= run->0.columns);
        }
    }
    while index < count
        invariant
            index <= count <= MAX_COLUMNS,
            count == metadata@[CATALOG_OFFSET as int] as int * 256 + metadata@[CATALOG_OFFSET
                + 1] as int,
            cursor <= PAGE_SIZE,
            columns@.len() == index,
            decode_columns(metadata@, CATALOG_OFFSET + 2, count as nat) == prepend_columns(
                column_views(columns@),
                decode_columns(metadata@, cursor as int, (count - index) as nat),
            ),
        decreases count - index,
    {
        if cursor >= PAGE_SIZE {
            return None;
        }
        let size: usize = metadata[cursor] as usize;
        if cursor + 1 + size > PAGE_SIZE {
            return None;
        }
        let body = copy_range(metadata, cursor + 1, cursor + 1 + size);
        let column = match ColumnDefinition::from_raw_bytes(body.as_slice()) {
            Some(column) => column,
            None => {
                return None;
            },
        };
        proof {
            let front = column_views(columns@);
            let rest = decode_columns(metadata@, cursor + 1 + size, (count - index - 1) as nat);
            assert(column_views(columns@.push(column)) =~= front.push(column@));
            if rest is Some {
                assert(front + (seq![column@] + rest->0.columns) =~= front.push(column@)
                    + rest->0.columns);
            }
        }
        columns.push(column);
        cursor = cursor + 1 + size;
        index = index + 1;
    }
    if cursor >= PAGE_SIZE {
        return None;
    }
    let pages: usize = metadata[cursor] as usize;
    if cursor + 1 + 4 * pages > PAGE_SIZE {
        return None;
    }
    let mut page_ids: Vec<PageId> = Vec::new();
    let mut page: usize = 0;
    assert(column_views(columns@) + Seq::<ColumnView>::empty() =~= column_views(columns@));
    let ghost stored = decode_page_ids(metadata@, cursor as int)->0;
    while page < pages
        invariant
            page <= pages,
            cursor + 1 + 4 * pages <= PAGE_SIZE,
            pages == metadata@[cursor as int],
            stored == decode_page_ids(metadata@, cursor as int)->0,
            page_ids@ == stored.take(page as int),
        decreases pages - page,
    {
        let page_id = read_be32(metadata, cursor + 1 + 4 * page);
        page_ids.push(page_id);
        page = page + 1;
        assert(page_ids@ =~= stored.take(page as int));
    }
    assert(stored.take(page as int) =~= stored);
    Some(TableCatalog { name, columns, page_ids })
}

/// Writes a table into a metadata region, provided it fits. The bitmap of
/// column ids stays as it is. Where the table does not fit, nothing is
/// written.
pub fn write_table(
    metadata: &mut [u8; 4096],
    name: &str,
    columns: &Vec<ColumnDefinition>,
    page_ids: &Vec<PageId>,
) -> (written: bool)
    ensures
        written == is_storable(
            TableMeta { name: name@, columns: column_views(columns@), page_ids: page_ids@ },
        ),
        written ==> final(metadata)@ == with_table(
            old(metadata)@,
            TableMeta { name: name@, columns: column_views(columns@), page_ids: page_ids@ },
        ),
        !written ==> final(metadata)@ == old(metadata)@,
{
    let ghost meta = TableMeta {
        name: name@,
        columns: column_views(columns@),
        page_ids: page_ids@,
    };
    let name_bytes = name.as_bytes();
    if name_bytes.len() > MAX_TABLE_NAME_BYTES || columns.len() > MAX_COLUMNS || page_ids.len()
        > MAX_TABLE_PAGES {
        return false;
    }
    let mut field: Vec<u8> = Vec::new();
    field.push(name_bytes.len() as u8);
    let mut index: usize = 0;
    while index < name_bytes.len()
        invariant
            index <= name_bytes@.len(),
            name_bytes@.len() <= MAX_TABLE_NAME_BYTES,
            field@ == seq![name_bytes@.len() as u8] + name_bytes@.take(index as int),
        decreases name_bytes@.len() - index,
    {
        field.push(name_bytes[index]);
        index = index + 1;
        assert(name_bytes@.take(index as int) == name_bytes@.take(index - 1).push(
            name_bytes@[index - 1],
        ));
    }
    assert(name_bytes@.take(index as int) == name_bytes@);
    assert(field@ =~= name_field(name@));

    let mut catalog: Vec<u8> = Vec::new();
    catalog.push((columns.len() / 256) as u8);
    catalog.push((columns.len() % 256) as u8);
    let ghost head = catalog@;
    index = 0;
    assert(column_views(columns@).take(0) =~= Seq::<ColumnView>::empty());
    while index < columns.len()
        invariant
            index <= columns@.len(),
            columns@.len() <= MAX_COLUMNS,
            meta.columns == column_views(columns@),
            head.len() == 2,
            catalog@ == head + columns_bytes(meta.columns.take(index as int)),
            all_storable(meta.columns.take(index as int)),
            catalog@.len() <= 2 + index * 256,
        decreases columns@.len() - index,
    {
        let column = &columns[index];
        let mut stored = column.to_raw_bytes();
        if stored.len() > MAX_COLUMN_NAME_BYTES + 3 {
            proof {
                assert(!meta.columns[index as int].is_storable());
            }
            return false;
        }
        proof {
            let front = meta.columns.take(index as int);
            lemma_columns_bytes_push(front, column@);
            assert(meta.columns.take(index + 1) =~= front.push(column@));
            assert(all_storable(meta.columns.take(index + 1))) by {
                assert forall|i: int| 0 <= i < index + 1 implies (#[trigger] meta.columns.take(
                    index + 1,
                )[i]).is_storable() by {
                    if i < index {
                        assert(meta.columns.take(index + 1)[i] == front[i]);
                    }
                }
            }
        }
        catalog.append(&mut stored);
        index = index + 1;
    }
    assert(meta.columns.take(index as int) =~= meta.columns);
    catalog.push(page_ids.len() as u8);
    let ghost front = catalog@;
    index = 0;
    while index < page_ids.len()
        invariant
            index <= page_ids@.len(),
            page_ids@.len() <= MAX_TABLE_PAGES,
            catalog@ == front + page_ids_bytes(page_ids@.take(index as int)),
        decreases page_ids@.len() - index,
    {
        let bytes = u32_to_be(page_ids[index]);
        catalog.push(bytes[0]);
        catalog.push(bytes[1]);
        catalog.push(bytes[2]);
        catalog.push(bytes[3]);
        index = index + 1;
        assert(catalog@ =~= front + page_ids_bytes(page_ids@.take(index as int)));
    }
    assert(page_ids@.take(index as int) =~= page_ids@);
    assert(catalog@ =~= catalog_bytes(meta));
    if catalog.len() > PAGE_SIZE - CATALOG_OFFSET {
        return false;
    }
    write_bytes(metadata, TABLE_NAME_OFFSET, field.as_slice());
    write_bytes(metadata, CATALOG_OFFSET, catalog.as_slice());
    true
}


/// A table that a metadata region holds has at most 256 columns and at most
/// 255 pages.
pub proof fn lemma_page_count(metadata: Seq<u8>)
    requires
        stored_table(metadata) is Some,
    ensures
        stored_table(metadata)->0.page_ids.len() <= MAX_TABLE_PAGES,
{
}

} // verus!
