use vstd::prelude::*;

verus! {

/// Size in bytes of each of the two regions of a page.
pub const PAGE_SIZE: usize = 4096;

/// One region of a page.
pub type PageData = [u8; 4096];

/// The unit of storage: a metadata region and a data region of fixed size.
pub struct InternalPage {
    pub metadata: PageData,
    pub data: PageData,
}

impl InternalPage {
    /// A page with both regions filled with zeros.
    pub fn new() -> (page: Self)
        ensures
            page.is_zeroed(),
    {
        InternalPage { metadata: [0u8; 4096], data: [0u8; 4096] }
    }

    /// Every byte of both regions is zero.
    pub open spec fn is_zeroed(&self) -> bool {
        &&& forall|i: int| 0 <= i < PAGE_SIZE ==> self.metadata@[i] == 0u8
        &&& forall|i: int| 0 <= i < PAGE_SIZE ==> self.data@[i] == 0u8
    }

    /// A copy of the page.
    pub fn duplicate(&self) -> (page: Self)
        ensures
            page == *self,
    {
        InternalPage { metadata: self.metadata, data: self.data }
    }
}

} // verus!
