use vstd::prelude::*;
use crate::page::InternalPage;
use crate::page::PAGE_SIZE;

verus! {

/// Handle of a page: its position in the page manager's list.
pub type PageId = u32;

/// Number of bytes one page takes in a serialized store: its metadata region
/// followed by its data region.
pub const PAGE_BYTES: usize = 8192;

/// The pages that a serialized store holds: one per complete run of
/// `PAGE_BYTES` bytes, in order. Page `i` has the first half of run `i` as
/// metadata and the second half as data.
pub open spec fn stored_page_count(bytes: Seq<u8>) -> int {
    bytes.len() as int / PAGE_BYTES as int
}

/// The metadata region of page `i` of a serialized store.
pub open spec fn stored_metadata(bytes: Seq<u8>, i: int) -> Seq<u8> {
    bytes.subrange(i * PAGE_BYTES, i * PAGE_BYTES + PAGE_SIZE)
}

/// The data region of page `i` of a serialized store.
pub open spec fn stored_data(bytes: Seq<u8>, i: int) -> Seq<u8> {
    bytes.subrange(i * PAGE_BYTES + PAGE_SIZE, (i + 1) * PAGE_BYTES)
}

/// `bytes` holds exactly `pages`, page after page.
pub open spec fn is_serialization_of(bytes: Seq<u8>, pages: Seq<InternalPage>) -> bool {
    &&& bytes.len() == pages.len() * PAGE_BYTES
    &&& forall|i: int|
        0 <= i < pages.len() ==> #[trigger] pages[i].metadata@ == stored_metadata(bytes, i)
    &&& forall|i: int| 0 <= i < pages.len() ==> #[trigger] pages[i].data@ == stored_data(bytes, i)
}

/// `pages` is what a serialized store `bytes` holds.
pub open spec fn is_parse_of(pages: Seq<InternalPage>, bytes: Seq<u8>) -> bool {
    &&& pages.len() == stored_page_count(bytes)
    &&& forall|i: int|
        0 <= i < pages.len() ==> #[trigger] pages[i].metadata@ == stored_metadata(bytes, i)
    &&& forall|i: int| 0 <= i < pages.len() ==> #[trigger] pages[i].data@ == stored_data(bytes, i)
}

/// The arena that owns every page. Pages are only ever appended, so a
/// `PageId` stays valid once handed out.
pub struct PageManager {
    pages: Vec<InternalPage>,
}

impl View for PageManager {
    type V = Seq<InternalPage>;

    closed spec fn view(&self) -> Seq<InternalPage> {
        self.pages@
    }
}

impl PageManager {
    /// An arena without pages.
    pub fn new() -> (manager: Self)
        ensures
            manager@.len() == 0,
    {
        PageManager { pages: Vec::new() }
    }

    /// The number of pages.
    pub fn page_count(&self) -> (n: usize)
        ensures
            n == self@.len(),
    {
        self.pages.len()
    }

    /// Whether another page can be created: the next position must fit a `PageId`.
    pub open spec fn has_room(&self) -> bool {
        self@.len() < u32::MAX
    }

    /// Executable form of `has_room`.
    pub fn can_create_page(&self) -> (room: bool)
        ensures
            room == self.has_room(),
    {
        self.pages.len() < u32::MAX as usize
    }

    /// Appends a zero-filled page and returns its id, which is its position.
    pub fn create_page(&mut self) -> (page_id: PageId)
        requires
            old(self).has_room(),
        ensures
            page_id == old(self)@.len(),
            final(self)@.len() == old(self)@.len() + 1,
            final(self)@[page_id as int].is_zeroed(),
            forall|i: int| 0 <= i < old(self)@.len() ==> final(self)@[i] == old(self)@[i],
    {
        let page_id: usize = self.pages.len();
        self.pages.push(InternalPage::new());
        page_id as u32
    }

    /// Shared access to the page with the given id, if it exists.
    pub fn fetch_page(&self, page_id: PageId) -> (page: Option<&InternalPage>)
        ensures
            match page {
                Some(found) => page_id < self@.len() && *found == self@[page_id as int],
                None => page_id >= self@.len(),
            },
    {
        if (page_id as usize) < self.pages.len() {
            Some(&self.pages[page_id as usize])
        } else {
            None
        }
    }

    /// Exclusive access to the page with the given id, if it exists. Whatever
    /// the caller leaves in the page is what the arena holds afterwards; no
    /// other page changes.
    pub fn fetch_page_mut(&mut self, page_id: PageId) -> (page: Option<&mut InternalPage>)
        ensures
            match page {
                Some(found) => page_id < old(self)@.len() && *found == old(self)@[page_id as int]
                    && final(self)@ == old(self)@.update(page_id as int, *final(found)),
                None => page_id >= old(self)@.len() && final(self)@ == old(self)@,
            },
    {
        if (page_id as usize) < self.pages.len() {
            Some(&mut self.pages[page_id as usize])
        } else {
            None
        }
    }

    /// Rebuilds an arena from a serialized store: one page per complete run of
    /// `PAGE_BYTES` bytes, in order, so every page gets the id it had.
    /// Bytes after the last complete run are ignored.
    pub fn from_bytes(bytes: &[u8]) -> (manager: Self)
        ensures
            is_parse_of(manager@, bytes@),
    {
        let total: usize = bytes.len();
        let count: usize = total / PAGE_BYTES;
        let mut pages: Vec<InternalPage> = Vec::new();
        let mut index: usize = 0;
        while index < count
            invariant
                total == bytes@.len(),
                count == stored_page_count(bytes@),
                index <= count,
                pages@.len() == index,
                forall|i: int|
                    0 <= i < index ==> #[trigger] pages@[i].metadata@ == stored_metadata(bytes@, i),
                forall|i: int|
                    0 <= i < index ==> #[trigger] pages@[i].data@ == stored_data(bytes@, i),
            decreases count - index,
        {
            assert((index + 1) * PAGE_BYTES <= bytes@.len()) by (nonlinear_arith)
                requires
                    index < count,
                    count == bytes@.len() as int / 8192,
                    PAGE_BYTES == 8192,
            ;
            let start: usize = index * PAGE_BYTES;
            let mut page = InternalPage::new();
            let mut offset: usize = 0;
            while offset < PAGE_SIZE
                invariant
                    count == stored_page_count(bytes@),
                    index < count,
                    start == index * PAGE_BYTES,
                    start + PAGE_BYTES <= bytes@.len(),
                    offset <= PAGE_SIZE,
                    forall|k: int| 0 <= k < offset ==> page.metadata@[k] == bytes@[start + k],
                    forall|k: int|
                        0 <= k < offset ==> page.data@[k] == bytes@[start + PAGE_SIZE + k],
                decreases PAGE_SIZE - offset,
            {
                page.metadata[offset] = bytes[start + offset];
                page.data[offset] = bytes[start + PAGE_SIZE + offset];
                offset = offset + 1;
            }
            assert(page.metadata@ =~= stored_metadata(bytes@, index as int));
            assert(page.data@ =~= stored_data(bytes@, index as int));
            pages.push(page);
            index = index + 1;
        }
        PageManager { pages }
    }

    /// Serializes every page, metadata then data, in id order.
    pub fn to_bytes(&self) -> (bytes: Vec<u8>)
        ensures
            is_serialization_of(bytes@, self@),
    {
        let mut bytes: Vec<u8> = Vec::new();
        let mut index: usize = 0;
        while index < self.pages.len()
            invariant
                index <= self.pages@.len(),
                is_serialization_of(bytes@, self.pages@.take(index as int)),
            decreases self.pages@.len() - index,
        {
            let ghost before = bytes@;
            let page = &self.pages[index];
            let mut offset: usize = 0;
            while offset < PAGE_SIZE
                invariant
                    offset <= PAGE_SIZE,
                    bytes@ == before + page.metadata@.take(offset as int),
                decreases PAGE_SIZE - offset,
            {
                bytes.push(page.metadata[offset]);
                offset = offset + 1;
                assert(page.metadata@.take(offset as int) == page.metadata@.take(offset - 1).push(
                    page.metadata@[offset - 1],
                ));
            }
            offset = 0;
            while offset < PAGE_SIZE
                invariant
                    offset <= PAGE_SIZE,
                    bytes@ == before + page.metadata@ + page.data@.take(offset as int),
                decreases PAGE_SIZE - offset,
            {
                bytes.push(page.data[offset]);
                offset = offset + 1;
                assert(page.data@.take(offset as int) == page.data@.take(offset - 1).push(
                    page.data@[offset - 1],
                ));
            }
            proof {
                let grown = self.pages@.take(index + 1);
                assert(bytes@ == before + page.metadata@ + page.data@);
                assert(bytes@.len() == grown.len() * PAGE_BYTES) by (nonlinear_arith)
                    requires
                        bytes@.len() == index * PAGE_BYTES + 8192,
                        grown.len() == index + 1,
                        PAGE_BYTES == 8192,
                ;
                assert forall|i: int| 0 <= i < grown.len() implies #[trigger] grown[i].metadata@
                    == stored_metadata(bytes@, i) by {
                    if i < index {
                        assert(self.pages@.take(index as int)[i] == grown[i]);
                        assert(stored_metadata(bytes@, i) =~= stored_metadata(before, i));
                    } else {
                        assert(stored_metadata(bytes@, i) =~= page.metadata@);
                    }
                }
                assert forall|i: int| 0 <= i < grown.len() implies #[trigger] grown[i].data@
                    == stored_data(bytes@, i) by {
                    if i < index {
                        assert(self.pages@.take(index as int)[i] == grown[i]);
                        assert(stored_data(bytes@, i) =~= stored_data(before, i));
                    } else {
                        assert(stored_data(bytes@, i) =~= page.data@);
                    }
                }
            }
            index = index + 1;
        }
        assert(self.pages@.take(index as int) == self.pages@);
        bytes
    }
}

/// Persistence round trip: a store that was serialized and parsed again
/// holds the same pages, each under the same id.
pub proof fn lemma_persistence_round_trip(
    pages: Seq<InternalPage>,
    bytes: Seq<u8>,
    reloaded: Seq<InternalPage>,
)
    requires
        is_serialization_of(bytes, pages),
        is_parse_of(reloaded, bytes),
    ensures
        reloaded == pages,
{
    assert(reloaded.len() == pages.len()) by (nonlinear_arith)
        requires
            bytes.len() == pages.len() * 8192,
            reloaded.len() == bytes.len() as int / 8192,
    ;
    assert forall|i: int| 0 <= i < pages.len() implies reloaded[i] == pages[i] by {
        assert(reloaded[i].metadata@ == pages[i].metadata@);
        assert(reloaded[i].data@ == pages[i].data@);
        assert(reloaded[i].metadata =~= pages[i].metadata);
        assert(reloaded[i].data =~= pages[i].data);
    }
    assert(reloaded =~= pages);
}

} // verus!
