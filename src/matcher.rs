//! Exact substring search over byte buffers.
use vstd::prelude::*;

verus! {

/// `needle` occurs in `hay` starting at index `i`.
pub open spec fn occurs_at(needle: Seq<u8>, hay: Seq<u8>, i: int) -> bool {
    0 <= i && i + needle.len() <= hay.len() && hay.subrange(i, i + needle.len()) == needle
}

/// `i` is the lowest index at which `needle` occurs in `hay`.
pub open spec fn is_first_occurrence(needle: Seq<u8>, hay: Seq<u8>, i: int) -> bool {
    occurs_at(needle, hay, i) && forall|j: int| 0 <= j < i ==> !occurs_at(needle, hay, j)
}

/// `needle` occurs somewhere in `hay`.
pub open spec fn contains(needle: Seq<u8>, hay: Seq<u8>) -> bool {
    exists|i: int| occurs_at(needle, hay, i)
}

/// The lowest index at which `needle` occurs in `hay`, if any.
pub open spec fn first_occurrence(needle: Seq<u8>, hay: Seq<u8>) -> Option<int> {
    if exists|i: int| is_first_occurrence(needle, hay, i) {
        Some(choose|i: int| is_first_occurrence(needle, hay, i))
    } else {
        None
    }
}

/// There is at most one lowest occurrence.
pub proof fn lemma_first_occurrence_unique(needle: Seq<u8>, hay: Seq<u8>, i: int)
    requires
        is_first_occurrence(needle, hay, i),
    ensures
        first_occurrence(needle, hay) == Some(i),
{
    let k = choose|k: int| is_first_occurrence(needle, hay, k);
    assert(k == i) by {
        if k < i {
            assert(!occurs_at(needle, hay, k));
        } else if i < k {
            assert(!occurs_at(needle, hay, i));
        }
    }
}

/// Relies on `kmp::kmp_find`: it returns the lowest index of an exact occurrence of the
/// needle in the haystack (index 0 for an empty needle), or `None` where there is none.
#[verifier::external_body]
fn kmp_search(needle: &[u8], hay: &[u8]) -> (r: Option<usize>)
    ensures
        r is None <==> !contains(needle@, hay@),
        r matches Some(i) ==> is_first_occurrence(needle@, hay@, i as int),
{
    kmp::kmp_find(needle, hay)
}

/// Finds the lowest index at which `needle` occurs in `hay`, in time linear in both lengths.
pub fn find(needle: &[u8], hay: &[u8]) -> (r: Option<usize>)
    ensures
        match r {
            Some(i) => first_occurrence(needle@, hay@) == Some(i as int),
            None => first_occurrence(needle@, hay@) is None && !contains(needle@, hay@),
        },
{
    let r = kmp_search(needle, hay);
    proof {
        match r {
            Some(i) => lemma_first_occurrence_unique(needle@, hay@, i as int),
            None => {
                assert forall|i: int| !is_first_occurrence(needle@, hay@, i) by {
                    if is_first_occurrence(needle@, hay@, i) {
                        assert(occurs_at(needle@, hay@, i));
                    }
                }
            },
        }
    }
    r
}

} // verus!
