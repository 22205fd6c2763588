//! Byte search: the contract of the fast search primitive and a matching
//! mathematical definition of the first occurrence of a byte.
use vstd::prelude::*;

verus! {

/// Relies on memchr::memchr: the index of the first occurrence of `needle`
/// in `haystack`, or `None` when the byte does not occur.
pub assume_specification[ memchr::memchr ](needle: u8, haystack: &[u8]) -> (found: Option<
    usize,
>)
    ensures
        match found {
            Some(i) => {
                &&& i < haystack@.len()
                &&& haystack@[i as int] == needle
                &&& forall|j: int| 0 <= j < i ==> haystack@[j] != needle
            },
            None => forall|j: int| 0 <= j < haystack@.len() ==> haystack@[j] != needle,
        },
;

/// Index of the first occurrence of `needle` in `bytes`, if any.
pub open spec fn find_first(bytes: Seq<u8>, needle: u8) -> Option<int>
    decreases bytes.len(),
{
    if bytes.len() == 0 {
        None
    } else if bytes[0] == needle {
        Some(0)
    } else {
        match find_first(bytes.subrange(1, bytes.len() as int), needle) {
            Some(i) => Some(i + 1),
            None => None,
        }
    }
}

/// `find_first` returns the least index holding `needle`, and `None` exactly
/// when `needle` does not occur.
pub proof fn lemma_find_first(bytes: Seq<u8>, needle: u8)
    ensures
        match find_first(bytes, needle) {
            Some(i) => {
                &&& 0 <= i < bytes.len()
                &&& bytes[i] == needle
                &&& forall|j: int| 0 <= j < i ==> bytes[j] != needle
            },
            None => forall|j: int| 0 <= j < bytes.len() ==> bytes[j] != needle,
        },
    decreases bytes.len(),
{
    if bytes.len() == 0 {
    } else if bytes[0] == needle {
    } else {
        let tail = bytes.subrange(1, bytes.len() as int);
        lemma_find_first(tail, needle);
        match find_first(tail, needle) {
            Some(i) => {
                assert forall|j: int| 0 <= j < i + 1 implies bytes[j] != needle by {
                    if j > 0 {
                        assert(tail[j - 1] == bytes[j]);
                    }
                }
            },
            None => {
                assert forall|j: int| 0 <= j < bytes.len() implies bytes[j] != needle by {
                    if j > 0 {
                        assert(tail[j - 1] == bytes[j]);
                    }
                }
            },
        }
    }
}

/// An index that holds `needle` while every earlier index does not is the
/// index `find_first` returns.
pub proof fn lemma_find_first_unique(bytes: Seq<u8>, needle: u8, i: int)
    requires
        0 <= i < bytes.len(),
        bytes[i] == needle,
        forall|j: int| 0 <= j < i ==> bytes[j] != needle,
    ensures
        find_first(bytes, needle) == Some(i),
{
    lemma_find_first(bytes, needle);
    match find_first(bytes, needle) {
        Some(f) => {
            if f < i {
                assert(bytes[f] != needle);
            } else if i < f {
                assert(bytes[i] != needle);
            }
        },
        None => {
            assert(bytes[i] != needle);
        },
    }
}

} // verus!
