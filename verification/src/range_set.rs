use vstd::prelude::*;
use vstd::std_specs::iter::IteratorSpec;
use std::collections::HashSet;
use std::ops::Range;

verus! {

broadcast use vstd::std_specs::hash::group_hash_axioms;

/// A set of numbers that are handed out from a range: each number of the
/// range is either available or in use.
#[derive(Debug)]
pub struct RangeSet {
    available: HashSet<u8>,
    used: HashSet<u8>,
}

impl RangeSet {
    /// The numbers that are available.
    pub closed spec fn free(&self) -> Set<u8> {
        self.available@
    }

    /// The numbers that are in use.
    pub closed spec fn taken(&self) -> Set<u8> {
        self.used@
    }

    /// No number is both available and in use.
    pub open spec fn wf(&self) -> bool {
        &&& self.free().disjoint(self.taken())
        &&& self.free().finite()
        &&& self.taken().finite()
    }

    /// A set in which the numbers of the range are available and none is in use.
    pub fn new(range: Range<u8>) -> (set: Self)
        ensures
            set.wf(),
            set.taken() == Set::<u8>::empty(),
            forall|value: u8| set.free().contains(value) <==> range.start <= value < range.end,
    {
        let mut available: HashSet<u8> = HashSet::new();
        let mut value: u8 = range.start;
        while value < range.end
            invariant
                range.start <= value,
                value <= range.end || value == range.start,
                available@.finite(),
                forall|other: u8| available@.contains(other) <==> range.start <= other < value,
            decreases range.end - value,
        {
            let ghost before = available@;
            available.insert(value);
            assert(available@ == before.insert(value));
            assert forall|other: u8| available@.contains(other) <==> range.start <= other < value
                + 1 by {
                if other != value {
                    assert(available@.contains(other) == before.contains(other));
                }
            }
            value = value + 1;
        }
        let set = Self { available, used: HashSet::new() };
        assert(set.free().disjoint(set.taken()));
        set
    }

    /// Whether the number is in use.
    pub fn contains(&self, value: u8) -> (used: bool)
        ensures
            used == self.taken().contains(value),
    {
        self.used.contains(&value)
    }

    /// Takes some available number into use and returns it. Which one, where
    /// several are available, is not determined.
    pub fn consume(&mut self) -> (taken: Option<u8>)
        requires
            old(self).wf(),
        ensures
            final(self).wf(),
            match taken {
                Some(value) => {
                    &&& old(self).free().contains(value)
                    &&& final(self).free() == old(self).free().remove(value)
                    &&& final(self).taken() == old(self).taken().insert(value)
                },
                None => {
                    &&& old(self).free() == Set::<u8>::empty()
                    &&& final(self).free() == old(self).free()
                    &&& final(self).taken() == old(self).taken()
                },
            },
    {
        let mut found: Option<u8> = None;
        for value in keys: self.available.iter()
            invariant_except_break
                keys.index() == 0,
                found is None,
            invariant
                keys.seq().unref().to_set() == self.available@,
                keys.seq().len() == self.available@.len(),
            ensures
                found is Some ==> self.available@.contains(found->0),
                found is None ==> self.available@.len() == 0,
        {
            assert(keys.seq().unref()[0] == *value);
            assert(keys.seq().unref().to_set().contains(keys.seq().unref()[0]));
            found = Some(*value);
            break;
        }
        proof {
            if found is None {
                assert(self.available@ =~= Set::<u8>::empty());
            }
        }
        match found {
            Some(value) => {
                self.insert(value);
                Some(value)
            },
            None => None,
        }
    }

    /// Takes the number into use, if it is available.
    pub fn insert(&mut self, value: u8) -> (inserted: bool)
        requires
            old(self).wf(),
        ensures
            final(self).wf(),
            inserted == old(self).free().contains(value),
            inserted ==> final(self).free() == old(self).free().remove(value),
            inserted ==> final(self).taken() == old(self).taken().insert(value),
            !inserted ==> final(self).free() == old(self).free(),
            !inserted ==> final(self).taken() == old(self).taken(),
    {
        if self.available.contains(&value) {
            self.available.remove(&value);
            self.used.insert(value);
            true
        } else {
            false
        }
    }

    /// The numbers in use, in no particular order, each once.
    pub fn keys(&self) -> (keys: Vec<u8>)
        ensures
            keys@.to_set() == self.taken(),
            keys@.no_duplicates(),
    {
        let mut keys: Vec<u8> = Vec::new();
        let mut value: usize = 0;
        while value < 256
            invariant
                value <= 256,
                keys@.no_duplicates(),
                forall|other: u8| keys@.contains(other) <==> other < value && self.taken().contains(other),
            decreases 256 - value,
        {
            if self.used.contains(&(value as u8)) {
                let ghost before = keys@;
                assert(!before.contains(value as u8));
                keys.push(value as u8);
                assert(keys@.no_duplicates()) by {
                    assert forall|i: int, j: int|
                        0 <= i < keys@.len() && 0 <= j < keys@.len() && i != j implies keys@[i]
                        != keys@[j] by {
                        if i < before.len() && j < before.len() {
                            assert(before[i] != before[j]);
                        } else if i < before.len() {
                            assert(before.contains(before[i]));
                        } else {
                            assert(before.contains(before[j]));
                        }
                    }
                }
                assert forall|other: u8| keys@.contains(other) <==> other < value + 1
                    && self.taken().contains(other) by {
                    if other == value as u8 {
                        assert(keys@[before.len() as int] == other);
                    } else if before.contains(other) {
                        let k = choose|k: int| 0 <= k < before.len() && before[k] == other;
                        assert(keys@[k] == other);
                    } else if keys@.contains(other) {
                        let k = choose|k: int| 0 <= k < keys@.len() && keys@[k] == other;
                        assert(before[k] == other);
                    }
                }
            }
            value = value + 1;
        }
        assert(keys@.to_set() =~= self.taken());
        keys
    }

    /// Makes the number available, whether or not it was in use.
    pub fn remove(&mut self, value: u8)
        requires
            old(self).wf(),
        ensures
            final(self).wf(),
            final(self).taken() == old(self).taken().remove(value),
            final(self).free() == old(self).free().insert(value),
    {
        self.used.remove(&value);
        self.available.insert(value);
    }

    /// The number of available numbers.
    pub fn available(&self) -> (count: usize)
        ensures
            count == self.free().len(),
    {
        self.available.len()
    }

    /// The number of numbers in use.
    pub fn count(&self) -> (count: usize)
        ensures
            count == self.taken().len(),
    {
        self.used.len()
    }

    /// Whether no number is available.
    pub fn is_full(&self) -> (full: bool)
        ensures
            full == self.free().is_empty(),
    {
        self.available.is_empty()
    }
}

} // verus!
