//! Character-level string operations with their mathematical meaning.
//!
//! Strings are modelled by their view, a `Seq<char>`. Every executable
//! operation here states its result over the spec functions of this module.
use vstd::prelude::*;

verus! {

// ---------------------------------------------------------------------------
// Character classes
// ---------------------------------------------------------------------------
/// The Unicode `White_Space` property, which is what `char::is_whitespace`
/// tests and what `str::trim` removes.
pub open spec fn is_white_space(c: char) -> bool {
    ||| ('\u{9}' <= c && c <= '\u{d}')
    ||| c == ' '
    ||| c == '\u{85}'
    ||| c == '\u{a0}'
    ||| c == '\u{1680}'
    ||| ('\u{2000}' <= c && c <= '\u{200a}')
    ||| c == '\u{2028}'
    ||| c == '\u{2029}'
    ||| c == '\u{202f}'
    ||| c == '\u{205f}'
    ||| c == '\u{3000}'
}

/// A set of characters that trimming removes from both ends of a string.
#[derive(Clone, Copy, Debug, PartialEq, Eq)]
pub enum CharClass {
    WhiteSpace,
    Exactly(char),
}

pub open spec fn in_class(cls: CharClass, c: char) -> bool {
    match cls {
        CharClass::WhiteSpace => is_white_space(c),
        CharClass::Exactly(x) => c == x,
    }
}

pub fn is_whitespace(c: char) -> (b: bool)
    ensures
        b == is_white_space(c),
{
    ('\u{9}' <= c && c <= '\u{d}') || c == ' ' || c == '\u{85}' || c == '\u{a0}' || c
        == '\u{1680}' || ('\u{2000}' <= c && c <= '\u{200a}') || c == '\u{2028}' || c
        == '\u{2029}' || c == '\u{202f}' || c == '\u{205f}' || c == '\u{3000}'
}

fn class_contains(cls: CharClass, c: char) -> (b: bool)
    ensures
        b == in_class(cls, c),
{
    match cls {
        CharClass::WhiteSpace => is_whitespace(c),
        CharClass::Exactly(x) => c == x,
    }
}

// ---------------------------------------------------------------------------
// Trimming
// ---------------------------------------------------------------------------
/// Number of leading characters of `s` that belong to `cls`.
pub open spec fn lead_len(s: Seq<char>, cls: CharClass) -> nat
    decreases s.len(),
{
    if s.len() > 0 && in_class(cls, s[0]) {
        1 + lead_len(s.drop_first(), cls)
    } else {
        0
    }
}

/// Number of trailing characters of `s` that belong to `cls`.
pub open spec fn trail_len(s: Seq<char>, cls: CharClass) -> nat
    decreases s.len(),
{
    if s.len() > 0 && in_class(cls, s.last()) {
        1 + trail_len(s.drop_last(), cls)
    } else {
        0
    }
}

pub open spec fn trim_start_by(s: Seq<char>, cls: CharClass) -> Seq<char> {
    s.skip(lead_len(s, cls) as int)
}

pub open spec fn trim_end_by(s: Seq<char>, cls: CharClass) -> Seq<char> {
    s.take(s.len() - trail_len(s, cls))
}

/// `s` without the characters of `cls` at either end.
pub open spec fn trim_by(s: Seq<char>, cls: CharClass) -> Seq<char> {
    trim_end_by(trim_start_by(s, cls), cls)
}

/// What `str::trim` gives.
pub open spec fn trimmed(s: Seq<char>) -> Seq<char> {
    trim_by(s, CharClass::WhiteSpace)
}

pub proof fn lemma_lead_len_bound(s: Seq<char>, cls: CharClass)
    ensures
        lead_len(s, cls) <= s.len(),
    decreases s.len(),
{
    if s.len() > 0 && in_class(cls, s[0]) {
        lemma_lead_len_bound(s.drop_first(), cls);
    }
}

pub proof fn lemma_trail_len_bound(s: Seq<char>, cls: CharClass)
    ensures
        trail_len(s, cls) <= s.len(),
    decreases s.len(),
{
    if s.len() > 0 && in_class(cls, s.last()) {
        lemma_trail_len_bound(s.drop_last(), cls);
    }
}

/// `lead_len` is the index of the first character outside the class.
pub proof fn lemma_lead_len_is(s: Seq<char>, cls: CharClass, i: int)
    requires
        0 <= i <= s.len(),
        forall|k: int| 0 <= k < i ==> in_class(cls, #[trigger] s[k]),
        i == s.len() || !in_class(cls, s[i]),
    ensures
        lead_len(s, cls) == i,
    decreases i,
{
    if i > 0 {
        let t = s.drop_first();
        assert forall|k: int| 0 <= k < i - 1 implies in_class(cls, #[trigger] t[k]) by {
            assert(t[k] == s[k + 1]);
        }
        lemma_lead_len_is(t, cls, i - 1);
    }
}

/// `trail_len` is the number of characters after the last one outside the class.
pub proof fn lemma_trail_len_is(s: Seq<char>, cls: CharClass, n: int)
    requires
        0 <= n <= s.len(),
        forall|k: int| s.len() - n <= k < s.len() ==> in_class(cls, #[trigger] s[k]),
        n == s.len() || !in_class(cls, s[s.len() - n - 1]),
    ensures
        trail_len(s, cls) == n,
    decreases n,
{
    if n > 0 {
        let t = s.drop_last();
        assert forall|k: int| t.len() - (n - 1) <= k < t.len() implies in_class(
            cls,
            #[trigger] t[k],
        ) by {
            assert(t[k] == s[k]);
        }
        assert(in_class(cls, s[s.len() - 1]));
        lemma_trail_len_is(t, cls, n - 1);
    }
}

/// `s` with the characters of `cls` removed at both ends.
pub fn trim_class(s: &str, cls: CharClass) -> (r: &str)
    ensures
        r@ == trim_by(s@, cls),
{
    let n = s.unicode_len();
    let mut i: usize = 0;
    while i < n && class_contains(cls, s.get_char(i))
        invariant
            n == s@.len(),
            i <= n,
            forall|k: int| 0 <= k < i ==> in_class(cls, #[trigger] s@[k]),
        decreases n - i,
    {
        i = i + 1;
    }
    proof {
        lemma_lead_len_is(s@, cls, i as int);
    }
    let mut j: usize = n;
    while j > i && class_contains(cls, s.get_char(j - 1))
        invariant
            n == s@.len(),
            i <= j <= n,
            forall|k: int| j <= k < n ==> in_class(cls, #[trigger] s@[k]),
        decreases j - i,
    {
        j = j - 1;
    }
    proof {
        let t = s@.skip(i as int);
        assert forall|k: int| t.len() - (n - j) <= k < t.len() implies in_class(
            cls,
            #[trigger] t[k],
        ) by {
            assert(t[k] == s@[k + i]);
        }
        if j > i {
            assert(t[t.len() - (n - j) - 1] == s@[j - 1]);
        }
        lemma_trail_len_is(t, cls, (n - j) as int);
        assert(trim_by(s@, cls) =~= s@.subrange(i as int, j as int));
    }
    s.substring_char(i, j)
}

/// What `str::trim_start` does: leading white space removed.
pub fn trim_start(s: &str) -> (r: &str)
    ensures
        r@ == trim_start_by(s@, CharClass::WhiteSpace),
{
    let n = s.unicode_len();
    let mut i: usize = 0;
    while i < n && is_whitespace(s.get_char(i))
        invariant
            n == s@.len(),
            i <= n,
            forall|k: int| 0 <= k < i ==> in_class(CharClass::WhiteSpace, #[trigger] s@[k]),
        decreases n - i,
    {
        i = i + 1;
    }
    proof {
        lemma_lead_len_is(s@, CharClass::WhiteSpace, i as int);
    }
    s.substring_char(i, n)
}

/// What `str::trim` does: leading and trailing white space removed.
pub fn trim(s: &str) -> (r: &str)
    ensures
        r@ == trimmed(s@),
{
    trim_class(s, CharClass::WhiteSpace)
}

/// What `str::trim_matches(c)` does for a single character `c`.
pub fn trim_matches(s: &str, c: char) -> (r: &str)
    ensures
        r@ == trim_by(s@, CharClass::Exactly(c)),
{
    trim_class(s, CharClass::Exactly(c))
}


// ---------------------------------------------------------------------------
// Prefixes, suffixes and substrings
// ---------------------------------------------------------------------------
pub open spec fn has_prefix(s: Seq<char>, p: Seq<char>) -> bool {
    p.len() <= s.len() && s.subrange(0, p.len() as int) == p
}

pub open spec fn has_suffix(s: Seq<char>, p: Seq<char>) -> bool {
    p.len() <= s.len() && s.subrange(s.len() - p.len(), s.len() as int) == p
}

/// `p` occurs in `s` starting at index `i`.
pub open spec fn occurs_at(s: Seq<char>, p: Seq<char>, i: int) -> bool {
    0 <= i && i + p.len() <= s.len() && s.subrange(i, i + p.len()) == p
}

/// `p` occurs somewhere in `s` (the empty string occurs in every string).
pub open spec fn has_infix(s: Seq<char>, p: Seq<char>) -> bool {
    exists|i: int| occurs_at(s, p, i)
}

/// What `strip_prefix(p).unwrap_or(s)` gives.
pub open spec fn without_prefix(s: Seq<char>, p: Seq<char>) -> Seq<char> {
    if has_prefix(s, p) {
        s.skip(p.len() as int)
    } else {
        s
    }
}

/// Whether `p` equals the `m` characters of `s` from index `i`.
fn equal_at(s: &str, p: &str, i: usize, n: usize, m: usize) -> (b: bool)
    requires
        n == s@.len(),
        m == p@.len(),
        i + m <= n,
    ensures
        b == (s@.subrange(i as int, i + m) == p@),
{
    let mut k: usize = 0;
    while k < m
        invariant
            n == s@.len(),
            m == p@.len(),
            i + m <= n,
            k <= m,
            forall|j: int| 0 <= j < k ==> s@[i + j] == p@[j],
        decreases m - k,
    {
        if s.get_char(i + k) != p.get_char(k) {
            assert(s@.subrange(i as int, i + m)[k as int] != p@[k as int]);
            return false;
        }
        k = k + 1;
    }
    assert(s@.subrange(i as int, i + m) =~= p@);
    true
}

/// Whether two strings hold the same characters.
pub fn same_text(a: &str, b: &str) -> (r: bool)
    ensures
        r == (a@ == b@),
{
    let n = a.unicode_len();
    let m = b.unicode_len();
    if n != m {
        return false;
    }
    assert(a@.subrange(0, n as int) =~= a@);
    equal_at(a, b, 0, n, m)
}

/// Trimming keeps a part of the string.
pub proof fn lemma_trim_by_is_infix(s: Seq<char>, cls: CharClass)
    ensures
        has_infix(s, trim_by(s, cls)),
{
    lemma_lead_len_bound(s, cls);
    let t = trim_start_by(s, cls);
    lemma_trail_len_bound(t, cls);
    let a = lead_len(s, cls) as int;
    let b = t.len() - trail_len(t, cls);
    assert(s.subrange(a, a + b) =~= trim_by(s, cls));
    assert(occurs_at(s, trim_by(s, cls), a));
}

/// A part of a part of `s` is a part of `s`.
pub proof fn lemma_infix_of_infix(s: Seq<char>, t: Seq<char>, u: Seq<char>)
    requires
        has_infix(s, t),
        has_infix(t, u),
    ensures
        has_infix(s, u),
{
    let i = choose|i: int| occurs_at(s, t, i);
    let j = choose|j: int| occurs_at(t, u, j);
    assert(s.subrange(i + j, i + j + u.len()) =~= t.subrange(j, j + u.len()));
    assert(occurs_at(s, u, i + j));
}

/// What `str::starts_with` does for a string pattern.
pub fn starts_with(s: &str, p: &str) -> (b: bool)
    ensures
        b == has_prefix(s@, p@),
{
    let n = s.unicode_len();
    let m = p.unicode_len();
    if m > n {
        return false;
    }
    equal_at(s, p, 0, n, m)
}

/// What `str::ends_with` does for a string pattern.
pub fn ends_with(s: &str, p: &str) -> (b: bool)
    ensures
        b == has_suffix(s@, p@),
{
    let n = s.unicode_len();
    let m = p.unicode_len();
    if m > n {
        return false;
    }
    equal_at(s, p, n - m, n, m)
}

/// What `str::contains` does for a string pattern.
pub fn contains(s: &str, p: &str) -> (b: bool)
    ensures
        b == has_infix(s@, p@),
{
    let n = s.unicode_len();
    let m = p.unicode_len();
    if m > n {
        assert forall|i: int| !occurs_at(s@, p@, i) by {}
        return false;
    }
    if m == 0 {
        assert(s@.subrange(0, 0) =~= p@);
        assert(occurs_at(s@, p@, 0));
        return true;
    }
    let mut i: usize = 0;
    while i <= n - m
        invariant
            n == s@.len(),
            m == p@.len(),
            0 < m <= n,
            i <= n - m + 1,
            forall|j: int| 0 <= j < i ==> !occurs_at(s@, p@, j),
        decreases n - m + 1 - i,
    {
        if equal_at(s, p, i, n, m) {
            assert(occurs_at(s@, p@, i as int));
            return true;
        }
        i = i + 1;
    }
    assert forall|j: int| !occurs_at(s@, p@, j) by {}
    false
}

/// What `str::strip_prefix` does for a string pattern.
pub fn strip_prefix<'a>(s: &'a str, p: &str) -> (r: Option<&'a str>)
    ensures
        has_prefix(s@, p@) ==> (r matches Some(t) && t@ == s@.skip(p@.len() as int)),
        !has_prefix(s@, p@) ==> r is None,
{
    if starts_with(s, p) {
        let n = s.unicode_len();
        let m = p.unicode_len();
        Some(s.substring_char(m, n))
    } else {
        None
    }
}

/// What `str::strip_suffix` does for a string pattern.
pub fn strip_suffix<'a>(s: &'a str, p: &str) -> (r: Option<&'a str>)
    ensures
        has_suffix(s@, p@) ==> (r matches Some(t) && t@ == s@.take(s@.len() - p@.len())),
        !has_suffix(s@, p@) ==> r is None,
{
    if ends_with(s, p) {
        let n = s.unicode_len();
        let m = p.unicode_len();
        Some(s.substring_char(0, n - m))
    } else {
        None
    }
}

/// What `s.strip_prefix(p).unwrap_or(s)` gives.
pub fn strip_prefix_or_self<'a>(s: &'a str, p: &str) -> (r: &'a str)
    ensures
        r@ == without_prefix(s@, p@),
{
    match strip_prefix(s, p) {
        Some(t) => t,
        None => s,
    }
}

// ---------------------------------------------------------------------------
// Replacing a character
// ---------------------------------------------------------------------------
/// What replacing one character contributes.
pub open spec fn replacement_of(x: char, c: char, rep: Seq<char>) -> Seq<char> {
    if x == c {
        rep
    } else {
        seq![x]
    }
}

/// `s` with every occurrence of `c` replaced by `rep`.
pub open spec fn replaced(s: Seq<char>, c: char, rep: Seq<char>) -> Seq<char>
    decreases s.len(),
{
    if s.len() == 0 {
        Seq::empty()
    } else {
        replaced(s.drop_last(), c, rep) + replacement_of(s.last(), c, rep)
    }
}

/// What `s.replace(c, rep)` does for a one-character pattern `c`.
pub fn replace_char(s: &str, c: char, rep: &str) -> (r: String)
    ensures
        r@ == replaced(s@, c, rep@),
{
    let n = s.unicode_len();
    let mut out = String::new();
    let mut i: usize = 0;
    while i < n
        invariant
            n == s@.len(),
            i <= n,
            out@ == replaced(s@.take(i as int), c, rep@),
        decreases n - i,
    {
        let x = s.get_char(i);
        assert(s@.take(i + 1).drop_last() =~= s@.take(i as int));
        if x == c {
            out.append(rep);
        } else {
            let one = s.substring_char(i, i + 1);
            assert(one@ =~= seq![x]);
            out.append(one);
        }
        i = i + 1;
    }
    assert(s@.take(n as int) =~= s@);
    out
}

// ---------------------------------------------------------------------------
// Splitting at a character
// ---------------------------------------------------------------------------
/// The pieces of `s` between occurrences of `c`, as `str::split(c)` yields them.
pub open spec fn split_at_char(s: Seq<char>, c: char) -> Seq<Seq<char>>
    decreases s.len(),
{
    if s.len() == 0 {
        seq![Seq::empty()]
    } else {
        let pieces = split_at_char(s.drop_last(), c);
        if s.last() == c {
            pieces.push(Seq::empty())
        } else {
            pieces.update(pieces.len() - 1, pieces.last().push(s.last()))
        }
    }
}

/// The pieces joined back with `c` between them.
pub open spec fn joined_with(pieces: Seq<Seq<char>>, c: char) -> Seq<char>
    decreases pieces.len(),
{
    if pieces.len() == 0 {
        Seq::empty()
    } else if pieces.len() == 1 {
        pieces[0]
    } else {
        joined_with(pieces.drop_last(), c).push(c) + pieces.last()
    }
}

/// The number of occurrences of `c` in `s`.
pub open spec fn count_char(s: Seq<char>, c: char) -> nat
    decreases s.len(),
{
    if s.len() == 0 {
        0
    } else {
        count_char(s.drop_last(), c) + if s.last() == c {
            1nat
        } else {
            0nat
        }
    }
}

pub proof fn lemma_split_len(s: Seq<char>, c: char)
    ensures
        split_at_char(s, c).len() == count_char(s, c) + 1,
    decreases s.len(),
{
    if s.len() > 0 {
        lemma_split_len(s.drop_last(), c);
    }
}

/// `s` has no `c` in it.
pub open spec fn lacks(s: Seq<char>, c: char) -> bool {
    forall|i: int| 0 <= i < s.len() ==> s[i] != c
}

/// No piece of a split holds the character it was split at.
pub proof fn lemma_split_pieces_lack(s: Seq<char>, c: char)
    ensures
        forall|k: int|
            0 <= k < split_at_char(s, c).len() ==> lacks(#[trigger] split_at_char(s, c)[k], c),
    decreases s.len(),
{
    if s.len() > 0 {
        lemma_split_pieces_lack(s.drop_last(), c);
        lemma_split_len(s.drop_last(), c);
        let pieces = split_at_char(s.drop_last(), c);
        if s.last() != c {
            let last = pieces.last().push(s.last());
            assert forall|k: int| 0 <= k < split_at_char(s, c).len() implies lacks(
                #[trigger] split_at_char(s, c)[k],
                c,
            ) by {
                if k == pieces.len() - 1 {
                    assert(lacks(pieces[k], c));
                    assert(split_at_char(s, c)[k] == last);
                }
            }
        } else {
            assert forall|k: int| 0 <= k < split_at_char(s, c).len() implies lacks(
                #[trigger] split_at_char(s, c)[k],
                c,
            ) by {
                if k < pieces.len() {
                    assert(split_at_char(s, c)[k] == pieces[k]);
                }
            }
        }
    }
}

/// Replacing keeps a character out when neither the text (unless it is the
/// replaced character) nor the replacement holds it.
pub proof fn lemma_replaced_lacks(s: Seq<char>, c: char, rep: Seq<char>, d: char)
    requires
        d == c || lacks(s, d),
        lacks(rep, d),
    ensures
        lacks(replaced(s, c, rep), d),
    decreases s.len(),
{
    if s.len() > 0 {
        assert(d == c || lacks(s.drop_last(), d)) by {
            if d != c {
                assert forall|i: int| 0 <= i < s.drop_last().len() implies s.drop_last()[i] != d by {
                    assert(s.drop_last()[i] == s[i]);
                }
            }
        }
        lemma_replaced_lacks(s.drop_last(), c, rep, d);
        let prev = replaced(s.drop_last(), c, rep);
        let piece = replacement_of(s.last(), c, rep);
        assert(lacks(piece, d)) by {
            if s.last() != c {
                assert(piece =~= seq![s.last()]);
                assert(s[s.len() - 1] == s.last());
            }
        }
        assert forall|i: int| 0 <= i < (prev + piece).len() implies (prev + piece)[i] != d by {
            if i >= prev.len() {
                assert((prev + piece)[i] == piece[i - prev.len()]);
            }
        }
    }
}

/// Removing a prefix keeps a character out.
pub proof fn lemma_without_prefix_lacks(s: Seq<char>, p: Seq<char>, d: char)
    requires
        lacks(s, d),
    ensures
        lacks(without_prefix(s, p), d),
{
    if has_prefix(s, p) {
        assert forall|i: int| 0 <= i < without_prefix(s, p).len() implies without_prefix(s, p)[i]
            != d by {
            assert(without_prefix(s, p)[i] == s[i + p.len()]);
        }
    }
}

/// What `str::split(c)` yields, collected.
pub fn split_char<'a>(s: &'a str, c: char) -> (r: Vec<&'a str>)
    ensures
        r.deep_view() == split_at_char(s@, c),
{
    let n = s.unicode_len();
    let mut out: Vec<&'a str> = Vec::new();
    let mut start: usize = 0;
    let mut i: usize = 0;
    assert(s@.take(0) =~= Seq::<char>::empty());
    assert(out.deep_view().push(s@.subrange(0, 0)) =~= seq![Seq::<char>::empty()]);
    while i < n
        invariant
            n == s@.len(),
            start <= i <= n,
            split_at_char(s@.take(i as int), c) =~= out.deep_view().push(
                s@.subrange(start as int, i as int),
            ),
        decreases n - i,
    {
        assert(s@.take(i + 1).drop_last() =~= s@.take(i as int));
        let x = s.get_char(i);
        if x == c {
            let piece = s.substring_char(start, i);
            out.push(piece);
            start = i + 1;
            assert(s@.subrange(start as int, i + 1) =~= Seq::<char>::empty());
        } else {
            assert(s@.subrange(start as int, i + 1) =~= s@.subrange(start as int, i as int).push(
                x,
            ));
        }
        i = i + 1;
    }
    let last = s.substring_char(start, n);
    out.push(last);
    assert(s@.take(n as int) =~= s@);
    out
}

} // verus!
