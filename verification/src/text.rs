use vstd::prelude::*;
use vstd::string::StringSliceAdditionalSpecFns;
use vstd::utf8::decode_utf8;
use vstd::utf8::encode_utf8;
use vstd::utf8::valid_utf8;

verus! {

/// Two texts with the same UTF-8 encoding are the same text.
pub proof fn lemma_encoding_is_injective(a: Seq<char>, b: Seq<char>)
    requires
        encode_utf8(a) == encode_utf8(b),
    ensures
        a == b,
{
    vstd::utf8::encode_utf8_decode_utf8(a);
    vstd::utf8::encode_utf8_decode_utf8(b);
}

/// Whether two strings hold the same text.
pub fn str_eq(a: &str, b: &str) -> (same: bool)
    ensures
        same == (a@ == b@),
{
    let left = a.as_bytes();
    let right = b.as_bytes();
    if left.len() != right.len() {
        return false;
    }
    let mut index: usize = 0;
    while index < left.len()
        invariant
            left@ == encode_utf8(a@),
            right@ == encode_utf8(b@),
            left@.len() == right@.len(),
            index <= left@.len(),
            forall|k: int| 0 <= k < index ==> left@[k] == right@[k],
        decreases left@.len() - index,
    {
        if left[index] != right[index] {
            return false;
        }
        index = index + 1;
    }
    proof {
        assert(left@ =~= right@);
        lemma_encoding_is_injective(a@, b@);
    }
    true
}

/// Decodes UTF-8 bytes into a string. Calls `String::from_utf8`, which
/// succeeds exactly on valid UTF-8 and then yields the text those bytes
/// encode.
#[verifier::external_body]
pub(crate) fn string_from_utf8(bytes: Vec<u8>) -> (text: Option<String>)
    ensures
        text is Some <==> valid_utf8(bytes@),
        text is Some ==> text->0@ == decode_utf8(bytes@),
{
    String::from_utf8(bytes).ok()
}

/// The bytes of `source` from `start` up to `end`, copied into a vector.
pub fn copy_range(source: &[u8], start: usize, end: usize) -> (copy: Vec<u8>)
    requires
        start <= end <= source@.len(),
    ensures
        copy@ == source@.subrange(start as int, end as int),
{
    let mut copy: Vec<u8> = Vec::new();
    let mut index: usize = start;
    while index < end
        invariant
            start <= index <= end <= source@.len(),
            copy@ == source@.subrange(start as int, index as int),
        decreases end - index,
    {
        copy.push(source[index]);
        index = index + 1;
        assert(source@.subrange(start as int, index as int) == source@.subrange(
            start as int,
            index - 1,
        ).push(source@[index - 1]));
    }
    copy
}

} // verus!
