use vstd::prelude::*;

verus! {

/// The number that four bytes hold, most significant byte first.
pub open spec fn be32_value(bytes: Seq<u8>) -> int {
    bytes[0] as int * 16777216 + bytes[1] as int * 65536 + bytes[2] as int * 256 + bytes[3] as int
}

/// The four bytes that hold a number, most significant byte first.
pub open spec fn be32_bytes(value: u32) -> Seq<u8> {
    seq![
        (value / 16777216) as u8,
        (value / 65536 % 256) as u8,
        (value / 256 % 256) as u8,
        (value % 256) as u8,
    ]
}

/// The number that four bytes hold, least significant byte first.
pub open spec fn le32_value(bytes: Seq<u8>) -> int {
    bytes[3] as int * 16777216 + bytes[2] as int * 65536 + bytes[1] as int * 256 + bytes[0] as int
}

/// The four bytes that hold a number, least significant byte first.
pub open spec fn le32_bytes(value: u32) -> Seq<u8> {
    seq![
        (value % 256) as u8,
        (value / 256 % 256) as u8,
        (value / 65536 % 256) as u8,
        (value / 16777216) as u8,
    ]
}

/// The number that eight bytes hold, most significant byte first.
pub open spec fn be64_value(bytes: Seq<u8>) -> int {
    be32_value(bytes.subrange(0, 4)) * 4294967296 + be32_value(bytes.subrange(4, 8))
}

/// The eight bytes that hold a number, most significant byte first.
pub open spec fn be64_bytes(value: u64) -> Seq<u8> {
    be32_bytes((value / 4294967296) as u32) + be32_bytes((value % 4294967296) as u32)
}

/// Four bytes read back from a number's bytes give the number, in either
/// byte order.
pub proof fn lemma_u32_round_trip(value: u32)
    ensures
        be32_bytes(value).len() == 4,
        le32_bytes(value).len() == 4,
        be32_value(be32_bytes(value)) == value,
        le32_value(le32_bytes(value)) == value,
{
}

/// Eight bytes read back from a number's bytes give the number.
pub proof fn lemma_u64_round_trip(value: u64)
    ensures
        be64_bytes(value).len() == 8,
        be64_value(be64_bytes(value)) == value,
{
    let high = (value / 4294967296) as u32;
    let low = (value % 4294967296) as u32;
    lemma_u32_round_trip(high);
    lemma_u32_round_trip(low);
    assert(be64_bytes(value).subrange(0, 4) =~= be32_bytes(high));
    assert(be64_bytes(value).subrange(4, 8) =~= be32_bytes(low));
}

/// The bytes `region` with `bytes` written over it from `offset` on.
pub open spec fn overwritten(region: Seq<u8>, offset: int, bytes: Seq<u8>) -> Seq<u8> {
    Seq::new(
        region.len(),
        |i: int|
            if offset <= i < offset + bytes.len() {
                bytes[i - offset]
            } else {
                region[i]
            },
    )
}

/// Reads back what was written, and leaves the rest as it was.
pub proof fn lemma_overwritten(region: Seq<u8>, offset: int, bytes: Seq<u8>)
    requires
        0 <= offset,
        offset + bytes.len() <= region.len(),
    ensures
        overwritten(region, offset, bytes).len() == region.len(),
        overwritten(region, offset, bytes).subrange(offset, offset + bytes.len()) == bytes,
        forall|i: int|
            0 <= i < region.len() && !(offset <= i < offset + bytes.len()) ==> overwritten(
                region,
                offset,
                bytes,
            )[i] == region[i],
{
    assert(overwritten(region, offset, bytes).subrange(offset, offset + bytes.len()) =~= bytes);
}

/// Reads four bytes at `offset`, most significant byte first.
pub fn read_be32(region: &[u8; 4096], offset: usize) -> (value: u32)
    requires
        offset + 4 <= 4096,
    ensures
        value == be32_value(region@.subrange(offset as int, offset + 4)),
{
    let b0: u32 = region[offset] as u32;
    let b1: u32 = region[offset + 1] as u32;
    let b2: u32 = region[offset + 2] as u32;
    let b3: u32 = region[offset + 3] as u32;
    b0 * 16777216 + b1 * 65536 + b2 * 256 + b3
}

/// Reads four bytes at `offset`, least significant byte first.
pub fn read_le32(region: &[u8; 4096], offset: usize) -> (value: u32)
    requires
        offset + 4 <= 4096,
    ensures
        value == le32_value(region@.subrange(offset as int, offset + 4)),
{
    let b0: u32 = region[offset] as u32;
    let b1: u32 = region[offset + 1] as u32;
    let b2: u32 = region[offset + 2] as u32;
    let b3: u32 = region[offset + 3] as u32;
    b3 * 16777216 + b2 * 65536 + b1 * 256 + b0
}

/// Reads eight bytes at `offset`, most significant byte first.
pub fn read_be64(region: &[u8; 4096], offset: usize) -> (value: u64)
    requires
        offset + 8 <= 4096,
    ensures
        value == be64_value(region@.subrange(offset as int, offset + 8)),
{
    let high: u64 = read_be32(region, offset) as u64;
    let low: u64 = read_be32(region, offset + 4) as u64;
    proof {
        let bytes = region@.subrange(offset as int, offset + 8);
        assert(bytes.subrange(0, 4) =~= region@.subrange(offset as int, offset + 4));
        assert(bytes.subrange(4, 8) =~= region@.subrange(offset + 4, offset + 8));
    }
    high * 4294967296 + low
}

/// Writes `bytes` into `region` from `offset` on.
pub fn write_bytes(region: &mut [u8; 4096], offset: usize, bytes: &[u8])
    requires
        offset + bytes@.len() <= 4096,
    ensures
        final(region)@ == overwritten(old(region)@, offset as int, bytes@),
{
    let mut index: usize = 0;
    while index < bytes.len()
        invariant
            offset + bytes@.len() <= 4096,
            index <= bytes@.len(),
            region@ == overwritten(old(region)@, offset as int, bytes@.take(index as int)),
        decreases bytes@.len() - index,
    {
        region[offset + index] = bytes[index];
        index = index + 1;
        assert(region@ =~= overwritten(old(region)@, offset as int, bytes@.take(index as int)));
    }
    assert(bytes@.take(index as int) == bytes@);
}

/// The four bytes of a number, most significant byte first.
pub fn u32_to_be(value: u32) -> (bytes: [u8; 4])
    ensures
        bytes@ == be32_bytes(value),
{
    let bytes: [u8; 4] = [
        (value / 16777216) as u8,
        (value / 65536 % 256) as u8,
        (value / 256 % 256) as u8,
        (value % 256) as u8,
    ];
    assert(bytes@ =~= be32_bytes(value));
    bytes
}

/// The four bytes of a number, least significant byte first.
pub fn u32_to_le(value: u32) -> (bytes: [u8; 4])
    ensures
        bytes@ == le32_bytes(value),
{
    let bytes: [u8; 4] = [
        (value % 256) as u8,
        (value / 256 % 256) as u8,
        (value / 65536 % 256) as u8,
        (value / 16777216) as u8,
    ];
    assert(bytes@ =~= le32_bytes(value));
    bytes
}

/// The eight bytes of a number, most significant byte first.
pub fn u64_to_be(value: u64) -> (bytes: [u8; 8])
    ensures
        bytes@ == be64_bytes(value),
{
    let high = u32_to_be((value / 4294967296) as u32);
    let low = u32_to_be((value % 4294967296) as u32);
    let bytes: [u8; 8] = [high[0], high[1], high[2], high[3], low[0], low[1], low[2], low[3]];
    assert(bytes@ =~= be64_bytes(value));
    bytes
}

} // verus!
