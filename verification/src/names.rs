use vstd::prelude::*;
use crate::row_result::texts;
use crate::text::str_eq;

verus! {

/// The position of the name in the list, if the list has it. Where no name
/// stands twice in the list, that is the only position.
pub fn find_name(names: &Vec<String>, name: &str) -> (found: Option<usize>)
    ensures
        match found {
            Some(position) => position < names@.len() && texts(names@)[position as int] == name@,
            None => !texts(names@).contains(name@),
        },
{
    let mut index: usize = 0;
    while index < names.len()
        invariant
            index <= names@.len(),
            forall|j: int| 0 <= j < index ==> texts(names@)[j] != name@,
        decreases names@.len() - index,
    {
        if str_eq(names[index].as_str(), name) {
            return Some(index);
        }
        index = index + 1;
    }
    None
}

/// A copy of a list of names.
pub fn copy_names(names: &Vec<String>) -> (copy: Vec<String>)
    ensures
        texts(copy@) == texts(names@),
{
    let mut copy: Vec<String> = Vec::new();
    let mut index: usize = 0;
    while index < names.len()
        invariant
            index <= names@.len(),
            copy@.len() == index,
            forall|j: int| 0 <= j < index ==> (#[trigger] copy@[j])@ == names@[j]@,
        decreases names@.len() - index,
    {
        copy.push(names[index].clone());
        index = index + 1;
    }
    assert(texts(copy@) =~= texts(names@));
    copy
}

/// A list without repetition still has none after a name that it lacks
/// was appended.
pub proof fn lemma_push_keeps_names_distinct(names: Seq<Seq<char>>, name: Seq<char>)
    requires
        names.no_duplicates(),
        !names.contains(name),
    ensures
        names.push(name).no_duplicates(),
{
    let longer = names.push(name);
    assert forall|i: int, j: int| 0 <= i < longer.len() && 0 <= j < longer.len() && i
        != j implies longer[i] != longer[j] by {
        if i < names.len() && j < names.len() {
        } else if i < names.len() {
            assert(names.contains(names[i]));
        } else {
            assert(names.contains(names[j]));
        }
    }
}

/// A list without repetition still has none after one entry was removed,
/// and no longer has the name that stood there.
pub proof fn lemma_remove_keeps_names_distinct(names: Seq<Seq<char>>, position: int)
    requires
        names.no_duplicates(),
        0 <= position < names.len(),
    ensures
        names.remove(position).no_duplicates(),
        !names.remove(position).contains(names[position]),
{
    let shorter = names.remove(position);
    assert forall|i: int, j: int| 0 <= i < shorter.len() && 0 <= j < shorter.len() && i
        != j implies shorter[i] != shorter[j] by {
        let from = if i < position { i } else { i + 1 };
        let to = if j < position { j } else { j + 1 };
        assert(shorter[i] == names[from]);
        assert(shorter[j] == names[to]);
    }
    if shorter.contains(names[position]) {
        let i = choose|i: int| 0 <= i < shorter.len() && shorter[i] == names[position];
        let from = if i < position { i } else { i + 1 };
        assert(shorter[i] == names[from]);
    }
}

} // verus!
