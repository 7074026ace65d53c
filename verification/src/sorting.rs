//! Sorting names, done by the `itertools` crate.
use itertools::Itertools;
use vstd::prelude::*;

verus! {

/// `a` comes before `b`, or equals it, in the order of `String`: character by
/// character by code point, a prefix before the longer text.
pub open spec fn text_le(a: Seq<char>, b: Seq<char>) -> bool
    decreases a.len(),
{
    if a.len() == 0 {
        true
    } else if b.len() == 0 {
        false
    } else if a[0] != b[0] {
        (a[0] as u32) < (b[0] as u32)
    } else {
        text_le(a.drop_first(), b.drop_first())
    }
}

pub open spec fn is_sorted_text(s: Seq<Seq<char>>) -> bool {
    forall|i: int, j: int| 0 <= i < j < s.len() ==> text_le(#[trigger] s[i], #[trigger] s[j])
}

/// Sorts with `Itertools::sorted`. The contract claims what its documentation
/// says: the same strings, in ascending order of `String`.
#[verifier::external_body]
pub(crate) fn sorted_strings(items: Vec<String>) -> (r: Vec<String>)
    ensures
        r.deep_view().to_multiset() == items.deep_view().to_multiset(),
        is_sorted_text(r.deep_view()),
{
    items.into_iter().sorted().collect()
}

} // verus!
