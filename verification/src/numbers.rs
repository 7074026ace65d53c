//! Which texts name a floating-point number.
//!
//! The grammar is the one that the standard library documents for parsing
//! an `f64` from a string: an optional sign, then `inf`, `infinity`, `nan` or
//! a decimal number with an optional exponent, compared without regard to
//! case. No white space is allowed.
use vstd::prelude::*;

verus! {

pub open spec fn is_digit(c: char) -> bool {
    '0' <= c && c <= '9'
}

pub open spec fn all_digits(s: Seq<char>) -> bool {
    forall|i: int| 0 <= i < s.len() ==> is_digit(#[trigger] s[i])
}

pub open spec fn is_sign(c: char) -> bool {
    c == '+' || c == '-'
}

pub open spec fn is_exp_mark(c: char) -> bool {
    c == 'e' || c == 'E'
}

/// `c` is `lower` or its upper-case form (`lower` is a lower-case ASCII letter).
pub open spec fn same_letter(c: char, lower: char) -> bool {
    c == lower || (c as u32) + 32 == (lower as u32)
}

/// `s` spells the lower-case ASCII word `word` in any mix of cases.
pub open spec fn spells(s: Seq<char>, word: Seq<char>) -> bool {
    s.len() == word.len() && forall|i: int| 0 <= i < s.len() ==> same_letter(#[trigger] s[i], word[i])
}

/// `s` without a leading sign.
pub open spec fn unsigned_part(s: Seq<char>) -> Seq<char> {
    if s.len() > 0 && is_sign(s[0]) {
        s.drop_first()
    } else {
        s
    }
}

/// `Digit+ | Digit+ '.' Digit* | Digit* '.' Digit+`
pub open spec fn is_mantissa(m: Seq<char>) -> bool {
    ||| (m.len() > 0 && all_digits(m))
    ||| exists|p: int|
        0 <= p < m.len() && #[trigger] m[p] == '.' && all_digits(m.take(p)) && all_digits(
            m.skip(p + 1),
        ) && m.len() >= 2
}

/// `'e' Sign? Digit+`
pub open spec fn is_exponent(e: Seq<char>) -> bool {
    e.len() >= 2 && is_exp_mark(e[0]) && {
        let d = unsigned_part(e.drop_first());
        d.len() > 0 && all_digits(d)
    }
}

pub open spec fn no_exp_mark(s: Seq<char>) -> bool {
    forall|i: int| 0 <= i < s.len() ==> !is_exp_mark(#[trigger] s[i])
}

/// `Mantissa Exp?`, the exponent starting at the first `e`.
pub open spec fn is_decimal(b: Seq<char>) -> bool {
    exists|k: int|
        0 <= k <= b.len() && no_exp_mark(#[trigger] b.take(k)) && is_mantissa(b.take(k)) && (k
            == b.len() || is_exponent(b.skip(k)))
}

/// Whether `s` names an `f64`, that is, whether `s.parse::<f64>()` succeeds.
pub open spec fn is_float_text(s: Seq<char>) -> bool {
    let b = unsigned_part(s);
    ||| spells(b, "inf"@)
    ||| spells(b, "infinity"@)
    ||| spells(b, "nan"@)
    ||| is_decimal(b)
}

fn char_at(s: &Vec<char>, i: usize) -> (c: char)
    requires
        i < s.len(),
    ensures
        c == s@[i as int],
{
    s[i]
}

/// Whether the characters `s[from..to]` are all decimal digits.
fn digits_between(s: &Vec<char>, from: usize, to: usize) -> (b: bool)
    requires
        from <= to <= s.len(),
    ensures
        b == all_digits(s@.subrange(from as int, to as int)),
{
    let mut i = from;
    while i < to
        invariant
            from <= i <= to <= s.len(),
            forall|k: int| from <= k < i ==> is_digit(#[trigger] s@[k]),
        decreases to - i,
    {
        let c = s[i];
        if !('0' <= c && c <= '9') {
            assert(!is_digit(s@.subrange(from as int, to as int)[i - from]));
            return false;
        }
        i = i + 1;
    }
    assert forall|k: int| 0 <= k < to - from implies is_digit(
        #[trigger] s@.subrange(from as int, to as int)[k],
    ) by {
        assert(s@.subrange(from as int, to as int)[k] == s@[from + k]);
    }
    true
}

fn spells_word(s: &Vec<char>, from: usize, word: &str) -> (b: bool)
    requires
        from <= s.len(),
        forall|i: int| 0 <= i < word@.len() ==> 'a' <= #[trigger] word@[i] && word@[i] <= 'z',
    ensures
        b == spells(s@.skip(from as int), word@),
{
    let n = s.len();
    let m = word.unicode_len();
    if n - from != m {
        return false;
    }
    let mut i: usize = 0;
    while i < m
        invariant
            n == s.len(),
            from <= n,
            n - from == m,
            m == word@.len(),
            i <= m,
            forall|k: int| 0 <= k < word@.len() ==> 'a' <= #[trigger] word@[k] && word@[k] <= 'z',
            forall|k: int| 0 <= k < i ==> same_letter(#[trigger] s@.skip(from as int)[k], word@[k]),
        decreases m - i,
    {
        let c = s[from + i];
        let w = word.get_char(i);
        let cu = c as u32;
        let wu = w as u32;
        if !(c == w || (wu >= 32 && cu == wu - 32)) {
            assert(!same_letter(s@.skip(from as int)[i as int], word@[i as int]));
            return false;
        }
        i = i + 1;
    }
    true
}

/// The characters of `s`, in order.
pub fn chars_of(s: &str) -> (r: Vec<char>)
    ensures
        r@ == s@,
{
    let n = s.unicode_len();
    let mut out: Vec<char> = Vec::new();
    let mut i: usize = 0;
    while i < n
        invariant
            n == s@.len(),
            i <= n,
            out@ =~= s@.take(i as int),
        decreases n - i,
    {
        out.push(s.get_char(i));
        i = i + 1;
    }
    assert(s@.take(n as int) =~= s@);
    out
}

/// Whether `s[from..to]` is a mantissa.
fn mantissa_between(s: &Vec<char>, from: usize, to: usize) -> (b: bool)
    requires
        from <= to <= s.len(),
    ensures
        b == is_mantissa(s@.subrange(from as int, to as int)),
{
    let ghost m = s@.subrange(from as int, to as int);
    let mut p = from;
    while p < to && s[p] != '.'
        invariant
            from <= p <= to <= s.len(),
            forall|k: int| from <= k < p ==> s@[k] != '.',
        decreases to - p,
    {
        p = p + 1;
    }
    if p == to {
        // no point: the mantissa is a run of digits
        let r = to > from && digits_between(s, from, to);
        proof {
            assert forall|q: int| 0 <= q < m.len() implies #[trigger] m[q] != '.' by {
                assert(m[q] == s@[from + q]);
            }
        }
        return r;
    }
    let before = digits_between(s, from, p);
    let after = digits_between(s, p + 1, to);
    proof {
        let q = p - from;
        assert(m[q] == '.');
        assert(m.take(q) =~= s@.subrange(from as int, p as int));
        assert(m.skip(q + 1) =~= s@.subrange(p + 1, to as int));
        // a mantissa with a point is all digits but that point
        if m.len() > 0 && all_digits(m) {
            assert(is_digit(m[q]));
        }
        assert forall|p2: int|
            0 <= p2 < m.len() && #[trigger] m[p2] == '.' && all_digits(m.take(p2)) && all_digits(
                m.skip(p2 + 1),
            ) implies p2 == q by {
            if p2 < q {
                assert(m[p2] == s@[from + p2]);
            } else if p2 > q {
                assert(m.take(p2)[q] == '.');
                assert(!is_digit(m.take(p2)[q]));
            }
        }
    }
    before && after && to - from >= 2
}

/// Whether `s[from..]` is an exponent.
fn exponent_from(s: &Vec<char>, from: usize) -> (b: bool)
    requires
        from <= s.len(),
    ensures
        b == is_exponent(s@.skip(from as int)),
{
    let n = s.len();
    if n - from < 2 {
        return false;
    }
    let c = s[from];
    if !(c == 'e' || c == 'E') {
        return false;
    }
    let ghost e = s@.skip(from as int);
    let ghost r = e.drop_first();
    let mut start = from + 1;
    if s[start] == '+' || s[start] == '-' {
        start = start + 1;
    }
    proof {
        assert(r[0] == s@[from + 1]);
        assert(unsigned_part(r) =~= s@.subrange(start as int, n as int));
    }
    start < n && digits_between(s, start, n)
}

/// Whether `s.parse::<f64>()` succeeds: the documented grammar of floating-point
/// numbers.
pub fn is_float_literal(s: &str) -> (b: bool)
    ensures
        b == is_float_text(s@),
{
    let cs = chars_of(s);
    let n = cs.len();
    let mut from: usize = 0;
    if n > 0 && (cs[0] == '+' || cs[0] == '-') {
        from = 1;
    }
    let ghost b = unsigned_part(s@);
    assert(b =~= cs@.skip(from as int));
    proof {
        reveal_strlit("inf");
        reveal_strlit("infinity");
        reveal_strlit("nan");
    }
    if spells_word(&cs, from, "inf") || spells_word(&cs, from, "infinity") || spells_word(
        &cs,
        from,
        "nan",
    ) {
        return true;
    }
    // the exponent, if any, starts at the first `e`
    let mut k = from;
    while k < n && !(cs[k] == 'e' || cs[k] == 'E')
        invariant
            from <= k <= n,
            n == cs.len(),
            forall|j: int| from <= j < k ==> !is_exp_mark(#[trigger] cs@[j]),
        decreases n - k,
    {
        k = k + 1;
    }
    let mantissa = mantissa_between(&cs, from, k);
    let exponent = k == n || exponent_from(&cs, k);
    proof {
        let kk = k - from;
        assert(b.take(kk) =~= cs@.subrange(from as int, k as int));
        assert(b.skip(kk) =~= cs@.skip(k as int));
        assert(no_exp_mark(b.take(kk))) by {
            assert forall|i: int| 0 <= i < b.take(kk).len() implies !is_exp_mark(
                #[trigger] b.take(kk)[i],
            ) by {
                assert(b.take(kk)[i] == cs@[from + i]);
            }
        }
        assert forall|k2: int|
            0 <= k2 <= b.len() && no_exp_mark(#[trigger] b.take(k2)) && (k2 == b.len()
                || is_exponent(b.skip(k2))) implies k2 == kk by {
            if k2 < kk {
                assert(b.skip(k2)[0] == cs@[from + k2]);
                assert(!is_exp_mark(b.skip(k2)[0]));
            } else if k2 > kk {
                assert(b.take(k2)[kk] == cs@[k as int]);
            }
        }
        if mantissa && exponent {
            assert(no_exp_mark(b.take(kk)) && is_mantissa(b.take(kk)) && (kk == b.len()
                || is_exponent(b.skip(kk))));
        }
    }
    mantissa && exponent
}

} // verus!
