use vstd::prelude::*;
use crate::bitmap_index::all_set;
use crate::bitmap_index::flag_at;
use crate::bitmap_index::flag_count;
use crate::bitmap_index::is_lowest_clear;
use crate::bitmap_index::with_flag;
use crate::bitmap_index::count_flags;
use crate::bitmap_index::flag_is_set;
use crate::bitmap_index::lemma_zero_flags;
use crate::bitmap_index::lowest_clear_flag;
use crate::bitmap_index::mark_flag;
use crate::bitmap_index::BITMAP_BYTES;
use crate::bitmap_index::BITMAP_CAPACITY;
use crate::codec::be64_bytes;
use crate::codec::be64_value;
use crate::codec::overwritten;
use crate::codec::read_be64;
use crate::codec::u64_to_be;
use crate::codec::write_bytes;
use crate::column_definition::column_views;
use crate::column_definition::ColumnDefinition;
use crate::column_definition::ColumnView;
use crate::data_type::DataType;
use crate::page::InternalPage;
use crate::page::PAGE_SIZE;
use crate::page_manager::PageId;
use crate::page_manager::PageManager;
use crate::row_result::record_views;
use crate::value::Value;

verus! {

/// Where the length of the stored epoch starts in the metadata region. The
/// bytes before it hold the bitmap of occupied slots.
pub const EPOCH_LENGTH_OFFSET: usize = 32;

/// Where the stored epoch starts in the metadata region.
pub const EPOCH_OFFSET: usize = 40;

/// The most columns an epoch can have.
pub const MAX_EPOCH_COLUMNS: usize = 256;

/// A column as a table page knows it: by id and type, without a name.
pub struct EpochColumn {
    pub column_id: u8,
    pub data_type: DataType,
}

/// The epoch that a list of columns makes: their ids and types, in order.
pub open spec fn epoch_of(columns: Seq<ColumnView>) -> Seq<EpochColumn> {
    columns.map_values(
        |column: ColumnView|
            EpochColumn { column_id: column.column_id, data_type: column.data_type },
    )
}

/// The stored form of an epoch: for each column its id, then its type id.
pub open spec fn epoch_bytes(epoch: Seq<EpochColumn>) -> Seq<u8> {
    Seq::new(
        2 * epoch.len(),
        |i: int|
            if i % 2 == 0 {
                epoch[i / 2].column_id
            } else {
                epoch[i / 2].data_type.type_id()
            },
    )
}

/// The epoch that a metadata region holds, if it holds one: eight bytes at
/// offset 32 give the length in bytes of what follows, which is two bytes
/// for each column.
pub open spec fn stored_epoch(metadata: Seq<u8>) -> Option<Seq<EpochColumn>> {
    let length = be64_value(
        metadata.subrange(EPOCH_LENGTH_OFFSET as int, EPOCH_OFFSET as int),
    );
    if length % 2 != 0 || length > 2 * MAX_EPOCH_COLUMNS {
        None
    } else if exists|i: int|
        0 <= i < length / 2 && DataType::of_type_id(#[trigger] metadata[EPOCH_OFFSET + 2 * i + 1])
            is None {
        None
    } else {
        Some(
            Seq::new(
                (length / 2) as nat,
                |i: int|
                    EpochColumn {
                        column_id: metadata[EPOCH_OFFSET + 2 * i],
                        data_type: DataType::of_type_id(metadata[EPOCH_OFFSET + 2 * i + 1])->0,
                    },
            ),
        )
    }
}

/// A metadata region with an epoch written into it. The bitmap of occupied
/// slots stays as it is.
pub open spec fn with_epoch(metadata: Seq<u8>, epoch: Seq<EpochColumn>) -> Seq<u8> {
    overwritten(
        overwritten(metadata, EPOCH_LENGTH_OFFSET as int, be64_bytes((2 * epoch.len()) as u64)),
        EPOCH_OFFSET as int,
        epoch_bytes(epoch),
    )
}

/// An epoch that was written into a metadata region is the one it holds, and
/// the slots are as before.
pub proof fn lemma_epoch_round_trip(metadata: Seq<u8>, epoch: Seq<EpochColumn>)
    requires
        metadata.len() == PAGE_SIZE,
        epoch.len() <= MAX_EPOCH_COLUMNS,
    ensures
        with_epoch(metadata, epoch).len() == PAGE_SIZE,
        stored_epoch(with_epoch(metadata, epoch)) == Some(epoch),
        forall|i: int|
            0 <= i < EPOCH_LENGTH_OFFSET ==> with_epoch(metadata, epoch)[i] == metadata[i],
        forall|slot: int|
            0 <= slot < BITMAP_CAPACITY ==> flag_at(with_epoch(metadata, epoch), slot) == flag_at(
                metadata,
                slot,
            ),
{
    let written = with_epoch(metadata, epoch);
    let length = (2 * epoch.len()) as u64;
    crate::codec::lemma_u64_round_trip(length);
    assert(written.subrange(EPOCH_LENGTH_OFFSET as int, EPOCH_OFFSET as int) =~= be64_bytes(
        length,
    ));
    assert forall|i: int| 0 <= i < epoch.len() implies written[EPOCH_OFFSET + 2 * i]
        == epoch[i].column_id && #[trigger] written[EPOCH_OFFSET + 2 * i + 1]
        == epoch[i].data_type.type_id() by {
        assert(epoch_bytes(epoch)[2 * i] == epoch[i].column_id);
        assert(epoch_bytes(epoch)[2 * i + 1] == epoch[i].data_type.type_id());
    }
    assert(stored_epoch(written)->0 =~= epoch);
    assert forall|slot: int| 0 <= slot < BITMAP_CAPACITY implies flag_at(written, slot) == flag_at(
        metadata,
        slot,
    ) by {
        assert(written[slot / 8] == metadata[slot / 8]);
    }
}

/// The number of bytes a record of an epoch takes: the sizes of its
/// columns' types, added up.
pub open spec fn record_size(epoch: Seq<EpochColumn>) -> nat
    decreases epoch.len(),
{
    if epoch.len() == 0 {
        0
    } else {
        record_size(epoch.drop_last()) + epoch.last().data_type.size()
    }
}

/// Every type takes one byte, so a record takes as many bytes as its epoch
/// has columns.
pub proof fn lemma_record_size(epoch: Seq<EpochColumn>)
    ensures
        record_size(epoch) == epoch.len(),
    decreases epoch.len(),
{
    if epoch.len() > 0 {
        lemma_record_size(epoch.drop_last());
    }
}

/// The stored form of a record: the encodings of its values, one after
/// another.
pub open spec fn encode_record(values: Seq<Value>) -> Seq<u8>
    decreases values.len(),
{
    if values.len() == 0 {
        Seq::empty()
    } else {
        encode_record(values.drop_last()) + values.last().encoding()
    }
}

/// The values that the bytes of a record hold under an epoch: one for each
/// column, each decoded at the offset where its column's bytes start.
pub open spec fn decode_record(epoch: Seq<EpochColumn>, bytes: Seq<u8>) -> Option<Seq<Value>>
    decreases epoch.len(),
{
    if epoch.len() == 0 {
        Some(Seq::empty())
    } else {
        let before = decode_record(epoch.drop_last(), bytes);
        let value = epoch.last().data_type.decode(
            bytes.skip(record_size(epoch.drop_last()) as int),
        );
        if before is Some && value is Some {
            Some(before->0.push(value->0))
        } else {
            None
        }
    }
}

/// A record takes one byte for each value.
pub proof fn lemma_encode_record_len(values: Seq<Value>)
    ensures
        encode_record(values).len() == values.len(),
    decreases values.len(),
{
    if values.len() > 0 {
        lemma_encode_record_len(values.drop_last());
    }
}

/// What lies after the columns of an epoch does not change what they decode to.
pub proof fn lemma_decode_record_prefix(epoch: Seq<EpochColumn>, bytes: Seq<u8>, more: Seq<u8>)
    requires
        epoch.len() <= bytes.len(),
    ensures
        decode_record(epoch, bytes + more) == decode_record(epoch, bytes),
    decreases epoch.len(),
{
    if epoch.len() > 0 {
        lemma_decode_record_prefix(epoch.drop_last(), bytes, more);
        lemma_record_size(epoch.drop_last());
        let offset = record_size(epoch.drop_last()) as int;
        assert((bytes + more).skip(offset)[0] == bytes.skip(offset)[0]);
    }
}

/// A record decodes to the values it was encoded from, whenever the epoch
/// has as many columns as there are values.
pub proof fn lemma_record_round_trip(epoch: Seq<EpochColumn>, values: Seq<Value>)
    requires
        epoch.len() == values.len(),
    ensures
        decode_record(epoch, encode_record(values)) == Some(values),
    decreases epoch.len(),
{
    if epoch.len() > 0 {
        let head = epoch.drop_last();
        let front = values.drop_last();
        lemma_record_round_trip(head, front);
        lemma_encode_record_len(front);
        lemma_record_size(head);
        lemma_decode_record_prefix(head, encode_record(front), values.last().encoding());
        let bytes = encode_record(values);
        assert(bytes == encode_record(front) + values.last().encoding());
        assert(bytes.skip(head.len() as int) =~= values.last().encoding());
        assert(front.push(values.last()) =~= values);
    }
}

/// The record in `slot` lies within the data region.
pub open spec fn slot_fits(epoch: Seq<EpochColumn>, slot: int) -> bool {
    (slot + 1) * record_size(epoch) <= PAGE_SIZE
}

/// The bytes of the record in `slot`.
pub open spec fn record_bytes(data: Seq<u8>, epoch: Seq<EpochColumn>, slot: int) -> Seq<u8> {
    data.subrange(slot * record_size(epoch), (slot + 1) * record_size(epoch))
}

/// The record in `slot` of a page, if the slot is occupied and lies within
/// the data region.
pub open spec fn record_at(page: InternalPage, epoch: Seq<EpochColumn>, slot: int) -> Option<
    Seq<Value>,
> {
    if flag_at(page.metadata@, slot) && slot_fits(epoch, slot) {
        decode_record(epoch, record_bytes(page.data@, epoch, slot))
    } else {
        None
    }
}

/// The records in the slots below `n` of a page, in ascending order of slot.
pub open spec fn records_below(page: InternalPage, epoch: Seq<EpochColumn>, n: int) -> Seq<
    Seq<Value>,
>
    decreases n,
{
    if n <= 0 {
        Seq::empty()
    } else if record_at(page, epoch, n - 1) is Some {
        records_below(page, epoch, n - 1).push(record_at(page, epoch, n - 1)->0)
    } else {
        records_below(page, epoch, n - 1)
    }
}

/// The slot that the next record goes to: the lowest free slot, provided a
/// record there lies within the data region.
pub open spec fn is_free_slot(page: InternalPage, epoch: Seq<EpochColumn>, slot: int) -> bool {
    is_lowest_clear(page.metadata@, slot) && slot_fits(epoch, slot)
}

/// The page can take no further record of the epoch.
pub open spec fn is_full_of(page: InternalPage, epoch: Seq<EpochColumn>) -> bool {
    forall|slot: int| !is_free_slot(page, epoch, slot)
}

/// The page after a record went into `slot`: the slot is marked occupied and
/// the record's bytes lie at the slot's offset.
pub open spec fn page_with_record(
    page: InternalPage,
    after: InternalPage,
    epoch: Seq<EpochColumn>,
    slot: int,
    values: Seq<Value>,
) -> bool {
    &&& after.metadata@ == with_flag(page.metadata@, slot, true)
    &&& after.data@ == overwritten(page.data@, slot * record_size(epoch), encode_record(values))
}


/// Where the record of `slot` starts and ends in the data region.
fn slot_bounds(slot: u8, size: usize) -> (bounds: (usize, usize))
    requires
        size <= MAX_EPOCH_COLUMNS,
    ensures
        bounds.0 == slot * size,
        bounds.1 == (slot + 1) * size,
        bounds.1 == bounds.0 + size,
{
    assert(slot * size <= 255 * 256 && (slot + 1) * size == slot * size + size)
        by (nonlinear_arith)
        requires
            slot <= 255,
            size <= 256,
    ;
    let start: usize = slot as usize * size;
    (start, start + size)
}

/// One page of records that all have the same columns. The first 32 bytes
/// of the page's metadata region mark the occupied slots, the epoch follows
/// from byte 32 on, and the data region holds the records, slot after slot.
pub struct TablePage {
    column_definitions: Vec<ColumnDefinition>,
    page_id: PageId,
}

impl TablePage {
    #[verifier::type_invariant]
    closed spec fn within_limits(&self) -> bool {
        self.column_definitions@.len() <= MAX_EPOCH_COLUMNS
    }

    /// The id of the page that holds the records.
    pub closed spec fn page_id(&self) -> PageId {
        self.page_id
    }

    /// The columns of the records.
    pub closed spec fn columns(&self) -> Seq<ColumnView> {
        column_views(self.column_definitions@)
    }

    /// The epoch of the records.
    pub open spec fn epoch(&self) -> Seq<EpochColumn> {
        epoch_of(self.columns())
    }

    /// Creates a page and initializes it for records with the given columns.
    /// Fails, creating nothing, when there are more than 256 columns or the
    /// arena has no room for another page.
    pub fn new(page_manager: &mut PageManager, column_definitions: Vec<ColumnDefinition>) -> (page:
        Option<Self>)
        ensures
            page is Some <==> old(page_manager).has_room() && column_definitions@.len()
                <= MAX_EPOCH_COLUMNS,
            page is None ==> final(page_manager)@ == old(page_manager)@,
            page is Some ==> {
                &&& page->0.page_id() == old(page_manager)@.len()
                &&& page->0.columns() == column_views(column_definitions@)
                &&& final(page_manager)@.len() == old(page_manager)@.len() + 1
                &&& forall|i: int|
                    0 <= i < old(page_manager)@.len() ==> final(page_manager)@[i] == old(page_manager)@[i]
                &&& stored_epoch(final(page_manager)@[page->0.page_id() as int].metadata@) == Some(
                    page->0.epoch(),
                )
                &&& forall|slot: int|
                    0 <= slot < BITMAP_CAPACITY ==> !flag_at(
                        final(page_manager)@[page->0.page_id() as int].metadata@,
                        slot,
                    )
                &&& forall|i: int|
                    0 <= i < PAGE_SIZE ==> final(page_manager)@[page->0.page_id() as int].data@[i]
                        == 0u8
            },
    {
        if !page_manager.can_create_page() || column_definitions.len() > MAX_EPOCH_COLUMNS {
            return None;
        }
        let page_id = page_manager.create_page();
        let ghost created = page_manager@;
        proof {
            lemma_zero_flags(created[page_id as int].metadata@);
        }
        let page = Self::initialize(page_manager, page_id, column_definitions);
        page
    }

    /// Initializes an existing page for records with the given columns: writes
    /// the epoch into the page's metadata region. The slots and the data
    /// region stay as they are. Fails, writing nothing, when the page does
    /// not exist or there are more than 256 columns.
    pub fn initialize(
        page_manager: &mut PageManager,
        page_id: PageId,
        column_definitions: Vec<ColumnDefinition>,
    ) -> (page: Option<Self>)
        ensures
            page is Some <==> page_id < old(page_manager)@.len() && column_definitions@.len()
                <= MAX_EPOCH_COLUMNS,
            page is None ==> final(page_manager)@ == old(page_manager)@,
            page is Some ==> {
                &&& page->0.page_id() == page_id
                &&& page->0.columns() == column_views(column_definitions@)
                &&& final(page_manager)@.len() == old(page_manager)@.len()
                &&& forall|i: int|
                    0 <= i < old(page_manager)@.len() && i != page_id ==> final(page_manager)@[i]
                        == old(page_manager)@[i]
                &&& final(page_manager)@[page_id as int].data == old(page_manager)@[page_id as int].data
                &&& final(page_manager)@[page_id as int].metadata@ == with_epoch(
                    old(page_manager)@[page_id as int].metadata@,
                    page->0.epoch(),
                )
                &&& stored_epoch(final(page_manager)@[page_id as int].metadata@) == Some(
                    page->0.epoch(),
                )
                &&& forall|slot: int|
                    0 <= slot < BITMAP_CAPACITY ==> flag_at(
                        final(page_manager)@[page_id as int].metadata@,
                        slot,
                    ) == flag_at(old(page_manager)@[page_id as int].metadata@, slot)
            },
    {
        let count: usize = column_definitions.len();
        if count > MAX_EPOCH_COLUMNS {
            return None;
        }
        let mut stored: Vec<u8> = Vec::new();
        let mut index: usize = 0;
        let ghost epoch = epoch_of(column_views(column_definitions@));
        while index < count
            invariant
                count == column_definitions@.len(),
                index <= count,
                epoch == epoch_of(column_views(column_definitions@)),
                stored@ == epoch_bytes(epoch.take(index as int)),
            decreases count - index,
        {
            let column = &column_definitions[index];
            stored.push(column.column_id());
            stored.push(column.data_type().bsql_type_id());
            index = index + 1;
            assert(stored@ =~= epoch_bytes(epoch.take(index as int)));
        }
        assert(epoch.take(index as int) == epoch);
        let length = u64_to_be((2 * count) as u64);
        match page_manager.fetch_page_mut(page_id) {
            Some(page) => {
                proof {
                    lemma_epoch_round_trip(page.metadata@, epoch);
                }
                write_bytes(&mut page.metadata, EPOCH_LENGTH_OFFSET, &length);
                write_bytes(&mut page.metadata, EPOCH_OFFSET, stored.as_slice());
                Some(Self { column_definitions, page_id })
            },
            None => None,
        }
    }

    /// Loads the page's epoch from its metadata region. The columns get empty
    /// names, since a table page stores none. Fails when the page does not
    /// exist or its metadata region holds no epoch.
    pub fn load(page_manager: &PageManager, page_id: PageId) -> (page: Option<Self>)
        ensures
            page is Some <==> page_id < page_manager@.len() && stored_epoch(
                page_manager@[page_id as int].metadata@,
            ) is Some,
            page is Some ==> {
                &&& page->0.page_id() == page_id
                &&& Some(page->0.epoch()) == stored_epoch(page_manager@[page_id as int].metadata@)
                &&& forall|i: int|
                    0 <= i < page->0.columns().len() ==> (#[trigger] page->0.columns()[i]).name
                        == Seq::<char>::empty()
            },
    {
        let page = match page_manager.fetch_page(page_id) {
            Some(page) => page,
            None => {
                return None;
            },
        };
        let length: u64 = read_be64(&page.metadata, EPOCH_LENGTH_OFFSET);
        if length % 2 != 0 || length > 2 * (MAX_EPOCH_COLUMNS as u64) {
            return None;
        }
        let count: usize = (length / 2) as usize;
        let mut column_definitions: Vec<ColumnDefinition> = Vec::new();
        let mut index: usize = 0;
        while index < count
            invariant
                page_id < page_manager@.len(),
                *page == page_manager@[page_id as int],
                count <= MAX_EPOCH_COLUMNS,
                count == be64_value(
                    page.metadata@.subrange(EPOCH_LENGTH_OFFSET as int, EPOCH_OFFSET as int),
                ) / 2,
                be64_value(
                    page.metadata@.subrange(EPOCH_LENGTH_OFFSET as int, EPOCH_OFFSET as int),
                ) % 2 == 0,
                index <= count,
                column_definitions@.len() == index,
                forall|i: int|
                    0 <= i < index ==> DataType::of_type_id(
                        #[trigger] page.metadata@[EPOCH_OFFSET + 2 * i + 1],
                    ) is Some,
                forall|i: int|
                    0 <= i < index ==> (#[trigger] column_definitions@[i])@ == (ColumnView {
                        column_id: page.metadata@[EPOCH_OFFSET + 2 * i],
                        data_type: DataType::of_type_id(page.metadata@[EPOCH_OFFSET + 2 * i + 1])->0,
                        name: Seq::<char>::empty(),
                    }),
            decreases count - index,
        {
            let column_id: u8 = page.metadata[EPOCH_OFFSET + 2 * index];
            let data_type = match DataType::from_type_id(page.metadata[EPOCH_OFFSET + 2 * index + 1]) {
                Some(data_type) => data_type,
                None => {
                    assert(DataType::of_type_id(page.metadata@[EPOCH_OFFSET + 2 * index + 1])
                        is None);
                    return None;
                },
            };
            column_definitions.push(ColumnDefinition::new(column_id, data_type, String::new()));
            index = index + 1;
        }
        let loaded = Self { column_definitions, page_id };
        proof {
            assert(loaded.epoch() =~= stored_epoch(page.metadata@)->0);
        }
        Some(loaded)
    }

    /// The number of bytes one record takes.
    pub fn record_size(&self) -> (size: usize)
        ensures
            size == record_size(self.epoch()),
            size <= MAX_EPOCH_COLUMNS,
    {
        proof {
            use_type_invariant(self);
        }
        let ghost epoch = self.epoch();
        let mut size: usize = 0;
        let mut index: usize = 0;
        while index < self.column_definitions.len()
            invariant
                self.column_definitions@.len() <= MAX_EPOCH_COLUMNS,
                epoch == self.epoch(),
                index <= self.column_definitions@.len(),
                size == record_size(epoch.take(index as int)),
                size == index,
            decreases self.column_definitions@.len() - index,
        {
            let width: u8 = self.column_definitions[index].data_type().bsql_size();
            proof {
                assert(epoch.take(index + 1).drop_last() == epoch.take(index as int));
                assert(epoch.take(index + 1).last() == epoch[index as int]);
            }
            size = size + width as usize;
            index = index + 1;
        }
        assert(epoch.take(index as int) == epoch);
        size
    }

    /// Stores a record in the lowest free slot and returns the slot. Fails,
    /// writing nothing, when the page does not exist, when the record has
    /// not one value for each column, or when the page is full.
    pub fn insert_record(&self, page_manager: &mut PageManager, record_data: Vec<Value>) -> (slot:
        Option<u8>)
        ensures
            final(page_manager)@.len() == old(page_manager)@.len(),
            forall|i: int|
                0 <= i < old(page_manager)@.len() && i != self.page_id() ==> final(page_manager)@[i]
                    == old(page_manager)@[i],
            record_data@.len() != self.columns().len() ==> slot is None && final(page_manager)@
                == old(page_manager)@,
            match slot {
                Some(slot) => {
                    &&& self.page_id() < old(page_manager)@.len()
                    &&& record_data@.len() == self.columns().len()
                    &&& is_free_slot(
                        old(page_manager)@[self.page_id() as int],
                        self.epoch(),
                        slot as int,
                    )
                    &&& page_with_record(
                        old(page_manager)@[self.page_id() as int],
                        final(page_manager)@[self.page_id() as int],
                        self.epoch(),
                        slot as int,
                        record_data@,
                    )
                },
                None => {
                    &&& final(page_manager)@ == old(page_manager)@
                    &&& (self.page_id() >= old(page_manager)@.len() || record_data@.len()
                        != self.columns().len() || is_full_of(
                        old(page_manager)@[self.page_id() as int],
                        self.epoch(),
                    ))
                },
            },
    {
        if record_data.len() != self.column_definitions.len() {
            return None;
        }
        let size: usize = self.record_size();
        let slot: u8 = match page_manager.fetch_page(self.page_id) {
            Some(page) => {
                match lowest_clear_flag(&page.metadata) {
                    Some(slot) => {
                        if slot_bounds(slot, size).1 > PAGE_SIZE {
                            assert(is_full_of(*page, self.epoch())) by {
                                assert forall|other: int| !is_free_slot(
                                    *page,
                                    self.epoch(),
                                    other,
                                ) by {
                                    if is_lowest_clear(page.metadata@, other) {
                                        assert(other == slot as int);
                                    }
                                }
                            }
                            return None;
                        }
                        slot
                    },
                    None => {
                        return None;
                    },
                }
            },
            None => {
                return None;
            },
        };
        let mut encoded: Vec<u8> = Vec::new();
        let mut index: usize = 0;
        while index < record_data.len()
            invariant
                index <= record_data@.len(),
                encoded@ == encode_record(record_data@.take(index as int)),
            decreases record_data@.len() - index,
        {
            let mut bytes = record_data[index].to_bsql_data();
            proof {
                assert(record_data@.take(index + 1).drop_last() == record_data@.take(index as int));
                assert(record_data@.take(index + 1).last() == record_data@[index as int]);
            }
            encoded.append(&mut bytes);
            index = index + 1;
        }
        proof {
            assert(record_data@.take(index as int) == record_data@);
            lemma_encode_record_len(record_data@);
            lemma_record_size(self.epoch());
        }
        let offset: usize = slot_bounds(slot, size).0;
        match page_manager.fetch_page_mut(self.page_id) {
            Some(page) => {
                mark_flag(&mut page.metadata, slot, true);
                write_bytes(&mut page.data, offset, encoded.as_slice());
            },
            None => {},
        }
        Some(slot)
    }

    /// The record in `record_index`, if the slot is occupied and its record
    /// lies within the data region of an existing page.
    pub fn get_record(&self, page_manager: &PageManager, record_index: u8) -> (record: Option<
        Vec<Value>,
    >)
        ensures
            match record {
                Some(values) => self.page_id() < page_manager@.len() && record_at(
                    page_manager@[self.page_id() as int],
                    self.epoch(),
                    record_index as int,
                ) == Some(values@),
                None => self.page_id() >= page_manager@.len() || record_at(
                    page_manager@[self.page_id() as int],
                    self.epoch(),
                    record_index as int,
                ) is None,
            },
    {
        let page = match page_manager.fetch_page(self.page_id) {
            Some(page) => page,
            None => {
                return None;
            },
        };
        if !flag_is_set(&page.metadata, record_index) {
            return None;
        }
        let size: usize = self.record_size();
        let (start, end) = slot_bounds(record_index, size);
        if end > PAGE_SIZE {
            return None;
        }
        let ghost epoch = self.epoch();
        let ghost bytes = record_bytes(page.data@, epoch, record_index as int);
        let mut values: Vec<Value> = Vec::new();
        let mut offset: usize = 0;
        let mut index: usize = 0;
        proof {
            lemma_record_size(epoch);
        }
        while index < self.column_definitions.len()
            invariant
                epoch == self.epoch(),
                size == record_size(epoch),
                size == epoch.len(),
                start == record_index * size,
                start + size <= PAGE_SIZE,
                bytes == page.data@.subrange(start as int, start + size),
                index <= self.column_definitions@.len(),
                offset == record_size(epoch.take(index as int)),
                offset == index,
                decode_record(epoch.take(index as int), bytes) == Some(values@),
            decreases self.column_definitions@.len() - index,
        {
            let data_type = self.column_definitions[index].data_type();
            let width: usize = data_type.bsql_size() as usize;
            let field = crate::text::copy_range(&page.data, start + offset, start + size);
            proof {
                assert(epoch.take(index + 1).drop_last() == epoch.take(index as int));
                assert(epoch.take(index + 1).last() == epoch[index as int]);
                assert(field@ =~= bytes.skip(offset as int));
            }
            match DataType::to_bsql_value(data_type, field.as_slice()) {
                Some(value) => {
                    values.push(value);
                },
                None => {
                    return None;
                },
            }
            offset = offset + width;
            index = index + 1;
        }
        assert(epoch.take(index as int) == epoch);
        Some(values)
    }

    /// The records of all occupied slots, in ascending order of slot.
    pub fn get_records(&self, page_manager: &PageManager) -> (records: Vec<Vec<Value>>)
        ensures
            self.page_id() < page_manager@.len() ==> record_views(records@) == records_below(
                page_manager@[self.page_id() as int],
                self.epoch(),
                BITMAP_CAPACITY as int,
            ),
            self.page_id() >= page_manager@.len() ==> records@.len() == 0,
    {
        let mut records: Vec<Vec<Value>> = Vec::new();
        if page_manager.fetch_page(self.page_id).is_none() {
            return records;
        }
        let ghost page = page_manager@[self.page_id() as int];
        let mut slot: usize = 0;
        assert(record_views(records@) =~= Seq::<Seq<Value>>::empty());
        while slot < BITMAP_CAPACITY
            invariant
                self.page_id() < page_manager@.len(),
                page == page_manager@[self.page_id() as int],
                slot <= BITMAP_CAPACITY,
                record_views(records@) == records_below(page, self.epoch(), slot as int),
            decreases BITMAP_CAPACITY - slot,
        {
            let ghost before = records@;
            match self.get_record(page_manager, slot as u8) {
                Some(values) => {
                    records.push(values);
                    assert(record_views(records@) =~= record_views(before).push(values@));
                },
                None => {},
            }
            slot = slot + 1;
        }
        records
    }

    /// Marks the slot as free. The bytes of its record stay where they are
    /// until another record takes the slot.
    pub fn delete_record(&self, page_manager: &mut PageManager, record_index: u8)
        ensures
            final(page_manager)@.len() == old(page_manager)@.len(),
            forall|i: int|
                0 <= i < old(page_manager)@.len() && i != self.page_id() ==> final(page_manager)@[i]
                    == old(page_manager)@[i],
            self.page_id() < old(page_manager)@.len() ==> {
                &&& final(page_manager)@[self.page_id() as int].data == old(page_manager)@[self.page_id() as int].data
                &&& final(page_manager)@[self.page_id() as int].metadata@ == with_flag(
                    old(page_manager)@[self.page_id() as int].metadata@,
                    record_index as int,
                    false,
                )
            },
    {
        match page_manager.fetch_page_mut(self.page_id) {
            Some(page) => {
                mark_flag(&mut page.metadata, record_index, false);
            },
            None => {},
        }
    }

    pub fn column_definitions(&self) -> (column_definitions: &Vec<ColumnDefinition>)
        ensures
            column_views(column_definitions@) == self.columns(),
    {
        &self.column_definitions
    }

    /// A short header for the page: the number of columns in one byte, then
    /// for each column its id and its type id.
    pub fn serialize_page_header(&self) -> (header: Vec<u8>)
        ensures
            header@ == seq![(self.columns().len() % 256) as u8] + epoch_bytes(self.epoch()),
    {
        let ghost epoch = self.epoch();
        let mut header: Vec<u8> = Vec::new();
        header.push((self.column_definitions.len() % 256) as u8);
        let mut index: usize = 0;
        while index < self.column_definitions.len()
            invariant
                epoch == self.epoch(),
                index <= self.column_definitions@.len(),
                header@ == seq![(self.columns().len() % 256) as u8] + epoch_bytes(
                    epoch.take(index as int),
                ),
            decreases self.column_definitions@.len() - index,
        {
            let column = &self.column_definitions[index];
            header.push(column.column_id());
            header.push(column.data_type().bsql_type_id());
            index = index + 1;
            assert(header@ =~= seq![(self.columns().len() % 256) as u8] + epoch_bytes(
                epoch.take(index as int),
            ));
        }
        assert(epoch.take(index as int) == epoch);
        header
    }

    /// Whether the page can take no further record: no slot is free, or the
    /// lowest free slot lies beyond the data region. A page that does not
    /// exist is full.
    pub fn is_full(&self, page_manager: &PageManager) -> (full: bool)
        ensures
            full == (self.page_id() >= page_manager@.len() || is_full_of(
                page_manager@[self.page_id() as int],
                self.epoch(),
            )),
    {
        let size: usize = self.record_size();
        match page_manager.fetch_page(self.page_id) {
            Some(page) => {
                match lowest_clear_flag(&page.metadata) {
                    Some(slot) => {
                        let full = slot_bounds(slot, size).1 > PAGE_SIZE;
                        proof {
                            if full {
                                assert forall|other: int| !is_free_slot(
                                    *page,
                                    self.epoch(),
                                    other,
                                ) by {
                                    if is_lowest_clear(page.metadata@, other) {
                                        assert(other == slot as int);
                                    }
                                }
                            } else {
                                assert(is_free_slot(*page, self.epoch(), slot as int));
                            }
                        }
                        full
                    },
                    None => true,
                }
            },
            None => true,
        }
    }

    /// The number of occupied slots; 0 for a page that does not exist.
    pub fn record_count(&self, page_manager: &PageManager) -> (count: usize)
        ensures
            self.page_id() < page_manager@.len() ==> count == flag_count(
                page_manager@[self.page_id() as int].metadata@,
            ),
            self.page_id() >= page_manager@.len() ==> count == 0,
    {
        match page_manager.fetch_page(self.page_id) {
            Some(page) => count_flags(&page.metadata),
            None => 0,
        }
    }

    /// The length of the header that `serialize_page_header` makes.
    pub fn page_header_size(&self) -> (size: usize)
        ensures
            size == 1 + 2 * self.columns().len(),
    {
        proof {
            use_type_invariant(self);
        }
        1 + self.column_definitions.len() * 2
    }

    /// The id of the page that holds the records.
    pub fn id(&self) -> (page_id: PageId)
        ensures
            page_id == self.page_id(),
    {
        self.page_id
    }
}


/// A record that went into a free slot reads back as it was written, and
/// the records of all other slots read as before.
pub proof fn lemma_record_reads_back(
    page: InternalPage,
    after: InternalPage,
    epoch: Seq<EpochColumn>,
    slot: int,
    values: Seq<Value>,
)
    requires
        is_free_slot(page, epoch, slot),
        values.len() == epoch.len(),
        page_with_record(page, after, epoch, slot, values),
    ensures
        record_at(after, epoch, slot) == Some(values),
        forall|other: int|
            0 <= other < BITMAP_CAPACITY && other != slot ==> record_at(after, epoch, other)
                == record_at(page, epoch, other),
{
    let size = record_size(epoch) as int;
    let stored = encode_record(values);
    lemma_record_size(epoch);
    lemma_encode_record_len(values);
    lemma_record_round_trip(epoch, values);
    crate::bitmap_index::lemma_with_flag(page.metadata@, slot, true);
    assert((slot + 1) * size == slot * size + size) by (nonlinear_arith);
    crate::codec::lemma_overwritten(page.data@, slot * size, stored);
    assert(record_bytes(after.data@, epoch, slot) =~= stored);
    assert forall|other: int| 0 <= other < BITMAP_CAPACITY && other != slot implies record_at(
        after,
        epoch,
        other,
    ) == record_at(page, epoch, other) by {
        if flag_at(page.metadata@, other) && slot_fits(epoch, other) {
            assert((other + 1) * size == other * size + size) by (nonlinear_arith);
            assert(0 <= other * size) by (nonlinear_arith)
                requires
                    0 <= other,
                    0 <= size,
            ;
            if other < slot {
                assert((other + 1) * size <= slot * size) by (nonlinear_arith)
                    requires
                        other + 1 <= slot,
                        0 <= size,
                ;
            } else {
                assert((slot + 1) * size <= other * size) by (nonlinear_arith)
                    requires
                        slot + 1 <= other,
                        0 <= size,
                ;
            }
            assert(record_bytes(after.data@, epoch, other) =~= record_bytes(
                page.data@,
                epoch,
                other,
            ));
        }
    }
}

} // verus!
