use vstd::prelude::*;
use vstd::string::StringSliceAdditionalSpecFns;
use vstd::utf8::decode_utf8;
use vstd::utf8::encode_utf8;
use vstd::utf8::valid_utf8;
use crate::codec::le32_bytes;
use crate::codec::le32_value;
use crate::codec::overwritten;
use crate::codec::read_le32;
use crate::codec::u32_to_le;
use crate::codec::write_bytes;
use crate::page::PAGE_SIZE;
use crate::page_manager::PageId;
use crate::table_catalog::name_field;
use crate::text::copy_range;
use crate::text::string_from_utf8;

verus! {

/// The longest name of a catalog entry, in bytes.
pub const MAX_NAME_BYTES: usize = 62;

/// The most page ids a list in a catalog page can hold.
pub const MAX_LISTED_PAGES: usize = 255;

/// The name that is stored at `offset`: one byte that holds its length,
/// then its UTF-8 encoding. There is none where the length is over 62 or
/// the bytes are not UTF-8.
pub open spec fn stored_name(metadata: Seq<u8>, offset: int) -> Option<Seq<char>> {
    let length = metadata[offset] as int;
    let bytes = metadata.subrange(offset + 1, offset + 1 + length);
    if length > MAX_NAME_BYTES || !valid_utf8(bytes) {
        None
    } else {
        Some(decode_utf8(bytes))
    }
}

/// The stored form of a list of page ids: one byte that holds their number,
/// then four bytes for each, least significant byte first.
pub open spec fn id_list_bytes(page_ids: Seq<PageId>) -> Seq<u8> {
    seq![page_ids.len() as u8] + Seq::new(
        4 * page_ids.len(),
        |i: int| le32_bytes(page_ids[i / 4])[i % 4],
    )
}

/// The list of page ids that is stored at `offset`.
pub open spec fn stored_id_list(metadata: Seq<u8>, offset: int) -> Seq<PageId> {
    Seq::new(
        metadata[offset] as nat,
        |i: int| le32_value(metadata.subrange(offset + 1 + 4 * i, offset + 5 + 4 * i)) as u32,
    )
}

/// A name that was written at `offset` is the one stored there.
pub proof fn lemma_name_round_trip(metadata: Seq<u8>, offset: int, name: Seq<char>)
    requires
        0 <= offset,
        offset + 1 + MAX_NAME_BYTES <= metadata.len(),
        encode_utf8(name).len() <= MAX_NAME_BYTES,
    ensures
        stored_name(overwritten(metadata, offset, name_field(name)), offset) == Some(name),
{
    let written = overwritten(metadata, offset, name_field(name));
    let bytes = encode_utf8(name);
    assert(written[offset] == name_field(name)[0]);
    assert(written.subrange(offset + 1, offset + 1 + bytes.len()) =~= bytes) by {
        assert forall|i: int| 0 <= i < bytes.len() implies written[offset + 1 + i] == bytes[i] by {
            assert(written[offset + 1 + i] == name_field(name)[1 + i]);
        }
    }
    vstd::utf8::encode_utf8_valid_utf8(name);
    vstd::utf8::encode_utf8_decode_utf8(name);
}

/// A list of page ids that was written at `offset` is the one stored there.
pub proof fn lemma_id_list_round_trip(metadata: Seq<u8>, offset: int, page_ids: Seq<PageId>)
    requires
        0 <= offset,
        page_ids.len() <= MAX_LISTED_PAGES,
        offset + 1 + 4 * page_ids.len() <= metadata.len(),
    ensures
        stored_id_list(overwritten(metadata, offset, id_list_bytes(page_ids)), offset) == page_ids,
{
    let stored = id_list_bytes(page_ids);
    let written = overwritten(metadata, offset, stored);
    assert(written[offset] == stored[0]);
    let read = stored_id_list(written, offset);
    assert forall|i: int| 0 <= i < page_ids.len() implies read[i] == page_ids[i] by {
        let bytes = written.subrange(offset + 1 + 4 * i, offset + 5 + 4 * i);
        assert(bytes =~= le32_bytes(page_ids[i])) by {
            assert forall|k: int| 0 <= k < 4 implies bytes[k] == le32_bytes(page_ids[i])[k] by {
                assert(bytes[k] == stored[1 + 4 * i + k]);
                assert((4 * i + k) / 4 == i && (4 * i + k) % 4 == k);
            }
        }
        crate::codec::lemma_u32_round_trip(page_ids[i]);
    }
    assert(read =~= page_ids);
}

/// Reads the name stored at `offset`.
pub fn read_name(metadata: &[u8; 4096], offset: usize) -> (name: Option<String>)
    requires
        offset + 1 + MAX_NAME_BYTES <= PAGE_SIZE,
    ensures
        match name {
            Some(text) => stored_name(metadata@, offset as int) == Some(text@),
            None => stored_name(metadata@, offset as int) is None,
        },
{
    let length: usize = metadata[offset] as usize;
    if length > MAX_NAME_BYTES {
        return None;
    }
    string_from_utf8(copy_range(metadata, offset + 1, offset + 1 + length))
}

/// Writes a name at `offset`.
pub fn write_name(metadata: &mut [u8; 4096], offset: usize, name: &str)
    requires
        offset + 1 + MAX_NAME_BYTES <= PAGE_SIZE,
        encode_utf8(name@).len() <= MAX_NAME_BYTES,
    ensures
        final(metadata)@ == overwritten(old(metadata)@, offset as int, name_field(name@)),
        stored_name(final(metadata)@, offset as int) == Some(name@),
{
    let bytes = name.as_bytes();
    let mut field: Vec<u8> = Vec::new();
    field.push(bytes.len() as u8);
    let mut index: usize = 0;
    while index < bytes.len()
        invariant
            index <= bytes@.len(),
            bytes@.len() <= MAX_NAME_BYTES,
            field@ == seq![bytes@.len() as u8] + bytes@.take(index as int),
        decreases bytes@.len() - index,
    {
        field.push(bytes[index]);
        index = index + 1;
        assert(bytes@.take(index as int) == bytes@.take(index - 1).push(bytes@[index - 1]));
    }
    assert(bytes@.take(index as int) == bytes@);
    assert(field@ =~= name_field(name@));
    proof {
        lemma_name_round_trip(metadata@, offset as int, name@);
    }
    write_bytes(metadata, offset, field.as_slice());
}

/// Reads the list of page ids stored at `offset`.
pub fn read_id_list(metadata: &[u8; 4096], offset: usize) -> (page_ids: Vec<PageId>)
    requires
        offset + 1 + 4 * MAX_LISTED_PAGES <= PAGE_SIZE,
    ensures
        page_ids@ == stored_id_list(metadata@, offset as int),
{
    let count: usize = metadata[offset] as usize;
    let ghost stored = stored_id_list(metadata@, offset as int);
    let mut page_ids: Vec<PageId> = Vec::new();
    let mut index: usize = 0;
    while index < count
        invariant
            offset + 1 + 4 * MAX_LISTED_PAGES <= PAGE_SIZE,
            count == metadata@[offset as int],
            stored == stored_id_list(metadata@, offset as int),
            index <= count,
            page_ids@ == stored.take(index as int),
        decreases count - index,
    {
        page_ids.push(read_le32(metadata, offset + 1 + 4 * index));
        index = index + 1;
        assert(page_ids@ =~= stored.take(index as int));
    }
    assert(stored.take(index as int) =~= stored);
    page_ids
}

/// Writes a list of page ids at `offset`.
pub fn write_id_list(metadata: &mut [u8; 4096], offset: usize, page_ids: &Vec<PageId>)
    requires
        offset + 1 + 4 * MAX_LISTED_PAGES <= PAGE_SIZE,
        page_ids@.len() <= MAX_LISTED_PAGES,
    ensures
        final(metadata)@ == overwritten(old(metadata)@, offset as int, id_list_bytes(page_ids@)),
        stored_id_list(final(metadata)@, offset as int) == page_ids@,
{
    let mut stored: Vec<u8> = Vec::new();
    stored.push(page_ids.len() as u8);
    let mut index: usize = 0;
    while index < page_ids.len()
        invariant
            page_ids@.len() <= MAX_LISTED_PAGES,
            index <= page_ids@.len(),
            stored@ == seq![page_ids@.len() as u8] + Seq::new(
                4 * index as nat,
                |i: int| le32_bytes(page_ids@[i / 4])[i % 4],
            ),
        decreases page_ids@.len() - index,
    {
        let bytes = u32_to_le(page_ids[index]);
        stored.push(bytes[0]);
        stored.push(bytes[1]);
        stored.push(bytes[2]);
        stored.push(bytes[3]);
        index = index + 1;
        assert(stored@ =~= seq![page_ids@.len() as u8] + Seq::new(
            4 * index as nat,
            |i: int| le32_bytes(page_ids@[i / 4])[i % 4],
        ));
    }
    assert(stored@ =~= id_list_bytes(page_ids@));
    proof {
        lemma_id_list_round_trip(metadata@, offset as int, page_ids@);
    }
    write_bytes(metadata, offset, stored.as_slice());
}

} // verus!
