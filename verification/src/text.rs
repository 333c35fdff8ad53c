//! Names and paths as bytes: whether two are the same, and whether one ends
//! in another.
use vstd::prelude::*;

verus! {

/// Whether `bytes` ends in `suffix`.
pub open spec fn has_suffix(bytes: Seq<u8>, suffix: Seq<u8>) -> bool {
    bytes.len() >= suffix.len() && bytes.subrange(bytes.len() - suffix.len(), bytes.len() as int) == suffix
}

/// Whether `a` and `b` hold the same bytes.
pub fn same_bytes(a: &[u8], b: &[u8]) -> (same: bool)
    ensures
        same == (a@ == b@),
{
    if a.len() != b.len() {
        return false;
    }
    let mut i: usize = 0;
    while i < a.len()
        invariant
            i <= a@.len(),
            a@.len() == b@.len(),
            forall|j: int| 0 <= j < i ==> a@[j] == b@[j],
        decreases a@.len() - i,
    {
        if a[i] != b[i] {
            return false;
        }
        i = i + 1;
    }
    assert(a@ =~= b@);
    true
}

/// Whether `bytes` ends in `suffix`.
pub fn ends_with(bytes: &[u8], suffix: &[u8]) -> (yes: bool)
    ensures
        yes == has_suffix(bytes@, suffix@),
{
    if bytes.len() < suffix.len() {
        return false;
    }
    let length: usize = bytes.len();
    let start: usize = length - suffix.len();
    let ghost tail = bytes@.subrange(start as int, bytes@.len() as int);
    let mut i: usize = 0;
    while i < suffix.len()
        invariant
            i <= suffix@.len(),
            length == bytes@.len(),
            start + suffix@.len() == length,
            tail == bytes@.subrange(start as int, bytes@.len() as int),
            forall|j: int| 0 <= j < i ==> tail[j] == suffix@[j],
        decreases suffix@.len() - i,
    {
        if bytes[start + i] != suffix[i] {
            assert(tail[i as int] != suffix@[i as int]);
            return false;
        }
        i = i + 1;
    }
    assert(tail =~= suffix@);
    true
}

} // verus!
