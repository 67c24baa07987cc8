//! Texts as sequences of bytes.
use vstd::prelude::*;

verus! {

/// Tells whether two texts hold the same bytes.
pub fn same_bytes(left: &[u8], right: &[u8]) -> (result: bool)
    ensures
        result == (left@ == right@),
{
    if left.len() != right.len() {
        return false;
    }
    let mut i: usize = 0;
    while i < left.len()
        invariant
            i <= left.len(),
            left.len() == right.len(),
            forall|j: int| 0 <= j < i ==> left@[j] == right@[j],
        decreases left.len() - i,
    {
        if left[i] != right[i] {
            return false;
        }
        i += 1;
    }
    assert(left@ =~= right@);
    true
}

/// A copy of the bytes of `text`.
pub fn copy_bytes(text: &[u8]) -> (result: Vec<u8>)
    ensures
        result@ == text@,
{
    let mut result: Vec<u8> = Vec::new();
    let mut i: usize = 0;
    while i < text.len()
        invariant
            i <= text.len(),
            result@ == text@.subrange(0, i as int),
        decreases text.len() - i,
    {
        result.push(text[i]);
        assert(text@.subrange(0, i + 1) =~= text@.subrange(0, i as int).push(text@[i as int]));
        i += 1;
    }
    assert(text@.subrange(0, text@.len() as int) =~= text@);
    result
}

} // verus!
