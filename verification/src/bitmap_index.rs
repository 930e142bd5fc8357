use vstd::prelude::*;
use crate::codec::overwritten;
use crate::codec::write_bytes;

verus! {

/// Number of bytes a bitmap occupies.
pub const BITMAP_BYTES: usize = 32;

/// Number of flags a bitmap holds; positions run from 0 to 255.
pub const BITMAP_CAPACITY: usize = 256;

/// Whether bit `bit` (0 is the least significant) of `byte` is one.
pub open spec fn bit_of(byte: u8, bit: int) -> bool {
    byte & (1u8 << (bit as u8)) != 0
}

/// Whether the flag at `index` is set in a bitmap stored in `bytes`.
/// Flag `index` lives in byte `index / 8`, at bit `index % 8`.
pub open spec fn flag_at(bytes: Seq<u8>, index: int) -> bool {
    bit_of(bytes[index / 8], index % 8)
}

/// The number of set flags among the positions below `n`.
pub open spec fn flags_below(bytes: Seq<u8>, n: int) -> int
    decreases n,
{
    if n <= 0 {
        0
    } else {
        flags_below(bytes, n - 1) + if flag_at(bytes, n - 1) { 1int } else { 0int }
    }
}

/// The number of set flags in a whole bitmap.
pub open spec fn flag_count(bytes: Seq<u8>) -> int {
    flags_below(bytes, BITMAP_CAPACITY as int)
}

/// `index` is the lowest position whose flag is clear.
pub open spec fn is_lowest_clear(bytes: Seq<u8>, index: int) -> bool {
    &&& 0 <= index < BITMAP_CAPACITY
    &&& !flag_at(bytes, index)
    &&& forall|j: int| 0 <= j < index ==> flag_at(bytes, j)
}

/// Every flag of the bitmap is set.
pub open spec fn all_set(bytes: Seq<u8>) -> bool {
    forall|j: int| 0 <= j < BITMAP_CAPACITY ==> flag_at(bytes, j)
}

/// The bitmap `bytes` with the flag at `index` set to `value` and every other
/// flag as before.
pub open spec fn with_flag(bytes: Seq<u8>, index: int, value: bool) -> Seq<u8> {
    let byte = bytes[index / 8];
    let mask = 1u8 << ((index % 8) as u8);
    bytes.update(index / 8, if value { byte | mask } else { byte & !mask })
}

proof fn lemma_mask_set(byte: u8, bit: u8, other: u8)
    requires
        bit < 8,
        other < 8,
    ensures
        bit_of(byte | (1u8 << bit), bit as int),
        other != bit ==> bit_of(byte | (1u8 << bit), other as int) == bit_of(byte, other as int),
        !bit_of(byte & !(1u8 << bit), bit as int),
        other != bit ==> bit_of(byte & !(1u8 << bit), other as int) == bit_of(byte, other as int),
{
    assert((byte | (1u8 << bit)) & (1u8 << bit) != 0) by (bit_vector)
        requires
            bit < 8,
    ;
    assert((byte & !(1u8 << bit)) & (1u8 << bit) == 0) by (bit_vector)
        requires
            bit < 8,
    ;
    if other != bit {
        assert((byte | (1u8 << bit)) & (1u8 << other) == byte & (1u8 << other)) by (bit_vector)
            requires
                bit < 8,
                other < 8,
                other != bit,
        ;
        assert((byte & !(1u8 << bit)) & (1u8 << other) == byte & (1u8 << other)) by (bit_vector)
            requires
                bit < 8,
                other < 8,
                other != bit,
        ;
    }
}

/// Changing one flag leaves every other flag as it was.
pub proof fn lemma_with_flag(bytes: Seq<u8>, index: int, value: bool)
    requires
        bytes.len() >= BITMAP_BYTES,
        0 <= index < BITMAP_CAPACITY,
    ensures
        with_flag(bytes, index, value).len() == bytes.len(),
        flag_at(with_flag(bytes, index, value), index) == value,
        forall|j: int|
            0 <= j < BITMAP_CAPACITY && j != index ==> flag_at(with_flag(bytes, index, value), j)
                == flag_at(bytes, j),
{
    let after = with_flag(bytes, index, value);
    lemma_mask_set(bytes[index / 8], (index % 8) as u8, (index % 8) as u8);
    assert forall|j: int| 0 <= j < BITMAP_CAPACITY && j != index implies flag_at(after, j)
        == flag_at(bytes, j) by {
        if j / 8 == index / 8 {
            lemma_mask_set(bytes[index / 8], (index % 8) as u8, (j % 8) as u8);
        }
    }
}

/// Two bitmaps that agree on every flag below `n` have as many set flags there.
pub proof fn lemma_flags_below_agree(a: Seq<u8>, b: Seq<u8>, n: int)
    requires
        forall|j: int| 0 <= j < n ==> flag_at(a, j) == flag_at(b, j),
    ensures
        flags_below(a, n) == flags_below(b, n),
    decreases n,
{
    if n > 0 {
        lemma_flags_below_agree(a, b, n - 1);
    }
}

/// The count of set flags below `n` lies between 0 and `n`, and reaches `n`
/// exactly when all of them are set.
pub proof fn lemma_flags_below_bounds(bytes: Seq<u8>, n: int)
    requires
        0 <= n,
    ensures
        0 <= flags_below(bytes, n) <= n,
        flags_below(bytes, n) == n <==> forall|j: int| 0 <= j < n ==> flag_at(bytes, j),
    decreases n,
{
    if n > 0 {
        lemma_flags_below_bounds(bytes, n - 1);
        if flags_below(bytes, n) == n {
            assert forall|j: int| 0 <= j < n implies flag_at(bytes, j) by {
                if j < n - 1 {
                }
            }
        }
    }
}

/// Setting or clearing one flag changes the count by the difference it makes.
pub proof fn lemma_flags_below_with_flag(bytes: Seq<u8>, index: int, value: bool, n: int)
    requires
        bytes.len() >= BITMAP_BYTES,
        0 <= index < BITMAP_CAPACITY,
        0 <= n <= BITMAP_CAPACITY,
    ensures
        flags_below(with_flag(bytes, index, value), n) == flags_below(bytes, n) + if index < n {
            (if value { 1int } else { 0int }) - (if flag_at(bytes, index) { 1int } else { 0int })
        } else {
            0int
        },
    decreases n,
{
    lemma_with_flag(bytes, index, value);
    if n > 0 {
        lemma_flags_below_with_flag(bytes, index, value, n - 1);
    }
}

/// The positions below `n` whose flag is set, in ascending order.
pub open spec fn set_positions(bytes: Seq<u8>, n: int) -> Seq<u8>
    decreases n,
{
    if n <= 0 {
        Seq::empty()
    } else if flag_at(bytes, n - 1) {
        set_positions(bytes, n - 1).push((n - 1) as u8)
    } else {
        set_positions(bytes, n - 1)
    }
}

/// `set_positions` lists exactly the set flags below `n`, each once, in
/// strictly ascending order, so its length is their count.
pub proof fn lemma_set_positions(bytes: Seq<u8>, n: int)
    requires
        0 <= n <= BITMAP_CAPACITY,
    ensures
        set_positions(bytes, n).len() == flags_below(bytes, n),
        forall|k: int|
            0 <= k < set_positions(bytes, n).len() ==> (#[trigger] set_positions(bytes, n)[k]) < n
                && flag_at(bytes, set_positions(bytes, n)[k] as int),
        forall|k: int, l: int|
            0 <= k < l < set_positions(bytes, n).len() ==> set_positions(bytes, n)[k]
                < set_positions(bytes, n)[l],
        forall|j: int|
            0 <= j < n && flag_at(bytes, j) ==> set_positions(bytes, n).contains(j as u8),
    decreases n,
{
    if n > 0 {
        lemma_set_positions(bytes, n - 1);
        let before = set_positions(bytes, n - 1);
        let now = set_positions(bytes, n);
        assert forall|j: int| 0 <= j < n && flag_at(bytes, j) implies now.contains(j as u8) by {
            if j < n - 1 {
                let k = choose|k: int| 0 <= k < before.len() && before[k] == j as u8;
                assert(now[k] == j as u8);
            } else {
                assert(now[now.len() - 1] == j as u8);
            }
        }
    }
}

proof fn lemma_full_byte(byte: u8)
    requires
        byte == u8::MAX,
    ensures
        forall|bit: int| 0 <= bit < 8 ==> bit_of(byte, bit),
{
    assert forall|bit: int| 0 <= bit < 8 implies bit_of(byte, bit) by {
        let b = bit as u8;
        assert(0xffu8 & (1u8 << b) != 0) by (bit_vector)
            requires
                b < 8,
        ;
    }
}

proof fn lemma_lowest_clear_bit(byte: u8)
    requires
        byte != u8::MAX,
    ensures
        (!byte).trailing_zeros() < 8,
        !bit_of(byte, (!byte).trailing_zeros() as int),
        forall|bit: int| 0 <= bit < (!byte).trailing_zeros() ==> bit_of(byte, bit),
{
    let inverse = !byte;
    vstd::std_specs::bits::axiom_u8_trailing_zeros(inverse);
    assert(inverse != 0) by (bit_vector)
        requires
            inverse == !byte,
            byte != 0xffu8,
    ;
    let zeros = inverse.trailing_zeros() as u8;
    assert(byte & (1u8 << zeros) == 0) by (bit_vector)
        requires
            zeros < 8,
            ((!byte) >> zeros) & 1u8 == 1u8,
    ;
    assert forall|bit: int| 0 <= bit < zeros implies bit_of(byte, bit) by {
        let b = bit as u8;
        assert((inverse >> b) & 1u8 == 0u8);
        assert(byte & (1u8 << b) != 0) by (bit_vector)
            requires
                b < 8,
                ((!byte) >> b) & 1u8 == 0u8,
        ;
    }
}

/// A view over a 32-byte region that holds 256 flags, used to hand out free
/// positions.
pub struct BitmapIndex<'a> {
    pub bitmap: &'a mut [u8],
}

impl<'a> BitmapIndex<'a> {
    /// The region has the size of a bitmap.
    pub open spec fn wf(&self) -> bool {
        self.bitmap@.len() == BITMAP_BYTES
    }

    /// The bytes of the region as they are now.
    pub open spec fn bytes(&self) -> Seq<u8> {
        self.bitmap@
    }

    /// Wraps `bytes` when it has exactly 32 bytes.
    pub fn from_raw(bytes: &'a mut [u8]) -> (index: Option<Self>)
        ensures
            index is Some <==> old(bytes)@.len() == BITMAP_BYTES,
            index is Some ==> index->0.wf() && index->0.bytes() == old(bytes)@,
            index is Some ==> final(index->0.bitmap)@ == final(bytes)@,
            index is None ==> final(bytes)@ == old(bytes)@,
    {
        if bytes.len() == BITMAP_BYTES {
            Some(Self { bitmap: bytes })
        } else {
            None
        }
    }

    /// Whether the flag at `index` is set.
    pub fn is_set(&self, index: u8) -> (set: bool)
        requires
            self.wf(),
        ensures
            set == flag_at(self.bytes(), index as int),
    {
        let byte: u8 = self.bitmap[(index / 8) as usize];
        let mask: u8 = 1u8 << (index % 8);
        byte & mask != 0
    }

    /// Sets the flag at `index`.
    pub fn set(&mut self, index: u8)
        requires
            old(self).wf(),
        ensures
            final(self).wf(),
            final(self).bytes() == with_flag(old(self).bytes(), index as int, true),
            final(final(self).bitmap)@ == final(old(self).bitmap)@,
    {
        let position: usize = (index / 8) as usize;
        let byte: u8 = self.bitmap[position];
        let mask: u8 = 1u8 << (index % 8);
        self.bitmap[position] = byte | mask;
    }

    /// Clears the flag at `index`.
    pub fn unset(&mut self, index: u8)
        requires
            old(self).wf(),
        ensures
            final(self).wf(),
            final(self).bytes() == with_flag(old(self).bytes(), index as int, false),
            final(final(self).bitmap)@ == final(old(self).bitmap)@,
    {
        let position: usize = (index / 8) as usize;
        let byte: u8 = self.bitmap[position];
        let mask: u8 = 1u8 << (index % 8);
        self.bitmap[position] = byte & !mask;
    }

    /// The lowest position whose flag is clear, if there is one. Full bytes
    /// are skipped; in the first byte with a clear bit, the position is the
    /// number of trailing zero bits of the byte's complement.
    pub fn find_available_index(&self) -> (found: Option<u8>)
        requires
            self.wf(),
        ensures
            match found {
                Some(index) => is_lowest_clear(self.bytes(), index as int),
                None => all_set(self.bytes()),
            },
    {
        let mut position: usize = 0;
        while position < BITMAP_BYTES
            invariant
                self.wf(),
                position <= BITMAP_BYTES,
                forall|j: int| 0 <= j < position * 8 ==> flag_at(self.bytes(), j),
            decreases BITMAP_BYTES - position,
        {
            let byte: u8 = self.bitmap[position];
            if byte != u8::MAX {
                let first_free: u32 = (!byte).trailing_zeros();
                proof {
                    lemma_lowest_clear_bit(byte);
                    assert forall|j: int| 0 <= j < position * 8 + first_free implies flag_at(
                        self.bytes(),
                        j,
                    ) by {
                        if j >= position * 8 {
                            assert(j / 8 == position as int);
                        }
                    }
                    assert((position * 8 + first_free) / 8 == position as int);
                }
                return Some((position * 8 + first_free as usize) as u8);
            }
            proof {
                lemma_full_byte(byte);
                assert forall|j: int| 0 <= j < (position + 1) * 8 implies flag_at(
                    self.bytes(),
                    j,
                ) by {
                    if j >= position * 8 {
                        assert(j / 8 == position as int);
                    }
                }
            }
            position = position + 1;
        }
        None
    }

    /// Finds the lowest clear flag, sets it and returns its position.
    pub fn consume(&mut self) -> (taken: Option<u8>)
        requires
            old(self).wf(),
        ensures
            final(self).wf(),
            match taken {
                Some(index) => is_lowest_clear(old(self).bytes(), index as int)
                    && final(self).bytes() == with_flag(old(self).bytes(), index as int, true),
                None => all_set(old(self).bytes()) && final(self).bytes() == old(self).bytes(),
            },
            final(final(self).bitmap)@ == final(old(self).bitmap)@,
    {
        match self.find_available_index() {
            Some(index) => {
                self.set(index);
                Some(index)
            },
            None => None,
        }
    }

    /// The number of set flags.
    pub fn count(&self) -> (n: usize)
        requires
            self.wf(),
        ensures
            n == flag_count(self.bytes()),
            n <= BITMAP_CAPACITY,
    {
        let mut n: usize = 0;
        let mut index: usize = 0;
        while index < BITMAP_CAPACITY
            invariant
                self.wf(),
                index <= BITMAP_CAPACITY,
                n == flags_below(self.bytes(), index as int),
                n <= index,
            decreases BITMAP_CAPACITY - index,
        {
            if self.is_set(index as u8) {
                n = n + 1;
            }
            index = index + 1;
        }
        n
    }

    /// The number of clear flags.
    pub fn available(&self) -> (n: usize)
        requires
            self.wf(),
        ensures
            n + flag_count(self.bytes()) == BITMAP_CAPACITY,
    {
        BITMAP_CAPACITY - self.count()
    }

    /// Whether no flag is clear.
    pub fn is_full(&self) -> (full: bool)
        requires
            self.wf(),
        ensures
            full == all_set(self.bytes()),
            full == (flag_count(self.bytes()) == BITMAP_CAPACITY),
    {
        proof {
            lemma_flags_below_bounds(self.bytes(), BITMAP_CAPACITY as int);
        }
        self.available() == 0
    }

    /// The positions of all set flags, in ascending order.
    pub fn indices(&self) -> (positions: Vec<u8>)
        requires
            self.wf(),
        ensures
            positions@ == set_positions(self.bytes(), BITMAP_CAPACITY as int),
            positions@.len() == flag_count(self.bytes()),
            forall|k: int|
                0 <= k < positions@.len() ==> flag_at(self.bytes(), #[trigger] positions@[k] as int),
            forall|k: int, l: int| 0 <= k < l < positions@.len() ==> positions@[k] < positions@[l],
            forall|j: int|
                0 <= j < BITMAP_CAPACITY && flag_at(self.bytes(), j) ==> positions@.contains(j as u8),
    {
        proof {
            lemma_set_positions(self.bytes(), BITMAP_CAPACITY as int);
        }
        let mut positions: Vec<u8> = Vec::new();
        let mut index: usize = 0;
        while index < BITMAP_CAPACITY
            invariant
                self.wf(),
                index <= BITMAP_CAPACITY,
                positions@ == set_positions(self.bytes(), index as int),
            decreases BITMAP_CAPACITY - index,
        {
            if self.is_set(index as u8) {
                positions.push(index as u8);
            }
            index = index + 1;
        }
        positions
    }
}

/// The first 32 bytes of a region: the bitmap that it starts with.
pub fn leading_bitmap(metadata: &[u8; 4096]) -> (slots: [u8; 32])
    ensures
        slots@ == metadata@.subrange(0, BITMAP_BYTES as int),
{
    let mut slots: [u8; 32] = [0u8; 32];
    let mut index: usize = 0;
    while index < BITMAP_BYTES
        invariant
            index <= BITMAP_BYTES,
            forall|k: int| 0 <= k < index ==> slots@[k] == metadata@[k],
        decreases BITMAP_BYTES - index,
    {
        slots[index] = metadata[index];
        index = index + 1;
    }
    assert(slots@ =~= metadata@.subrange(0, BITMAP_BYTES as int));
    slots
}

/// The flags of a region are those of its first 32 bytes.
pub proof fn lemma_leading_bitmap(metadata: Seq<u8>)
    requires
        metadata.len() == 4096,
    ensures
        forall|slot: int|
            0 <= slot < BITMAP_CAPACITY ==> flag_at(metadata.subrange(0, BITMAP_BYTES as int), slot)
                == flag_at(metadata, slot),
        flag_count(metadata.subrange(0, BITMAP_BYTES as int)) == flag_count(metadata),
        forall|slot: int, value: bool|
            0 <= slot < BITMAP_CAPACITY ==> overwritten(
                metadata,
                0,
                #[trigger] with_flag(metadata.subrange(0, BITMAP_BYTES as int), slot, value),
            ) == with_flag(metadata, slot, value),
{
    let slots = metadata.subrange(0, BITMAP_BYTES as int);
    assert forall|slot: int| 0 <= slot < BITMAP_CAPACITY implies flag_at(slots, slot) == flag_at(
        metadata,
        slot,
    ) by {
        assert(slots[slot / 8] == metadata[slot / 8]);
    }
    lemma_flags_below_agree(slots, metadata, BITMAP_CAPACITY as int);
    assert forall|slot: int, value: bool| 0 <= slot < BITMAP_CAPACITY implies overwritten(
        metadata,
        0,
        #[trigger] with_flag(slots, slot, value),
    ) == with_flag(metadata, slot, value) by {
        assert(slots[slot / 8] == metadata[slot / 8]);
        assert(overwritten(metadata, 0, with_flag(slots, slot, value)) =~= with_flag(
            metadata,
            slot,
            value,
        ));
    }
}

/// The lowest clear flag of the bitmap that a region starts with, if any
/// flag is clear.
pub fn lowest_clear_flag(metadata: &[u8; 4096]) -> (found: Option<u8>)
    ensures
        match found {
            Some(slot) => is_lowest_clear(metadata@, slot as int),
            None => all_set(metadata@),
        },
{
    let mut slots = leading_bitmap(metadata);
    proof {
        lemma_leading_bitmap(metadata@);
    }
    match BitmapIndex::from_raw(&mut slots) {
        Some(index) => index.find_available_index(),
        None => None,
    }
}

/// Sets or clears the flag at `slot` in the bitmap that a region starts with.
pub fn mark_flag(metadata: &mut [u8; 4096], slot: u8, occupied: bool)
    ensures
        final(metadata)@ == with_flag(old(metadata)@, slot as int, occupied),
{
    let mut slots = leading_bitmap(metadata);
    proof {
        lemma_leading_bitmap(metadata@);
    }
    match BitmapIndex::from_raw(&mut slots) {
        Some(index) => {
            let mut index = index;
            if occupied {
                index.set(slot);
            } else {
                index.unset(slot);
            }
        },
        None => {},
    }
    write_bytes(metadata, 0, &slots);
}

/// The number of set flags in the bitmap that a region starts with.
pub fn count_flags(metadata: &[u8; 4096]) -> (count: usize)
    ensures
        count == flag_count(metadata@),
        count <= BITMAP_CAPACITY,
{
    let mut slots = leading_bitmap(metadata);
    proof {
        lemma_leading_bitmap(metadata@);
    }
    match BitmapIndex::from_raw(&mut slots) {
        Some(index) => index.count(),
        None => 0,
    }
}

/// Whether the flag at `slot` is set in the bitmap that a region starts with.
pub fn flag_is_set(metadata: &[u8; 4096], slot: u8) -> (set: bool)
    ensures
        set == flag_at(metadata@, slot as int),
{
    let mut slots = leading_bitmap(metadata);
    proof {
        lemma_leading_bitmap(metadata@);
    }
    match BitmapIndex::from_raw(&mut slots) {
        Some(index) => index.is_set(slot),
        None => false,
    }
}

/// A region of zeros has no flag set.
pub proof fn lemma_zero_flags(metadata: Seq<u8>)
    requires
        forall|i: int| 0 <= i < 4096 ==> metadata[i] == 0u8,
    ensures
        forall|slot: int| 0 <= slot < BITMAP_CAPACITY ==> !flag_at(metadata, slot),
        flag_count(metadata) == 0,
{
    assert forall|slot: int| 0 <= slot < BITMAP_CAPACITY implies !flag_at(metadata, slot) by {
        let bit = (slot % 8) as u8;
        assert(0u8 & (1u8 << bit) == 0) by (bit_vector);
    }
    lemma_no_flags_below(metadata, BITMAP_CAPACITY as int);
}

/// Where no flag below `n` is set, the count of set flags below `n` is 0.
pub proof fn lemma_no_flags_below(bytes: Seq<u8>, n: int)
    requires
        forall|j: int| 0 <= j < n ==> !flag_at(bytes, j),
    ensures
        flags_below(bytes, n) == 0,
    decreases n,
{
    if n > 0 {
        lemma_no_flags_below(bytes, n - 1);
    }
}

} // verus!
