//! Regular-expression matching, done by the `regex` crate.
use vstd::prelude::*;

use crate::text::has_infix;

verus! {

/// The texts of the successive non-overlapping matches of `pattern` in
/// `haystack`, as `regex::Regex::find_iter` yields them, or `None` when
/// `pattern` does not compile.
pub uninterp spec fn regex_match_texts(pattern: Seq<char>, haystack: Seq<char>) -> Option<
    Seq<Seq<char>>,
>;

/// Whether `regex::Regex::is_match` finds a match of `pattern` anywhere in
/// `haystack`, or `None` when `pattern` does not compile.
pub uninterp spec fn regex_finds_match(pattern: Seq<char>, haystack: Seq<char>) -> Option<bool>;

/// Compiles `pattern` with `regex::Regex::new` and collects the texts of
/// `Regex::find_iter` on `haystack`. The contract claims that the result is a
/// function of the two strings alone, and that each text is a part of
/// `haystack` (each is `Match::as_str`, a slice of the haystack). Which texts
/// the regex engine finds is not stated.
#[verifier::external_body]
pub(crate) fn regex_find_texts(pattern: &str, haystack: &str) -> (r: Option<Vec<String>>)
    ensures
        r.deep_view() == regex_match_texts(pattern@, haystack@),
        r matches Some(v) ==> forall|i: int| 0 <= i < v.len() ==> has_infix(haystack@, #[trigger] v[i]@),
{
    match regex::Regex::new(pattern) {
        Ok(re) => Some(re.find_iter(haystack).map(|m| m.as_str().to_string()).collect()),
        Err(_) => None,
    }
}

/// Compiles `pattern` with `regex::Regex::new` and asks `Regex::is_match`
/// about `haystack`. The contract claims only that the answer is a function
/// of the two strings.
#[verifier::external_body]
pub(crate) fn regex_is_match(pattern: &str, haystack: &str) -> (r: Option<bool>)
    ensures
        r == regex_finds_match(pattern@, haystack@),
{
    match regex::Regex::new(pattern) {
        Ok(re) => Some(re.is_match(haystack)),
        Err(_) => None,
    }
}

} // verus!
