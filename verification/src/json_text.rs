//! JSON text, read and written again by the `json` crate.
use vstd::prelude::*;

use crate::numbers::{all_digits, chars_of, is_digit};

verus! {

/// The JSON text that `json::parse` reads from `text`, written again by
/// `JsonValue::dump`, or `None` when `text` is not JSON.
pub uninterp spec fn json_reparsed(text: Seq<char>) -> Option<Seq<char>>;

/// The longest run of ASCII digits that the JSON reader takes: a number
/// with more digits after its decimal point overflows the reader's 16-bit
/// decimal exponent, which panics.
pub const MAX_DIGIT_RUN: usize = 32767;

/// No run of more than `MAX_DIGIT_RUN` ASCII digits stands in `text`.
pub open spec fn digit_runs_fit(text: Seq<char>) -> bool {
    forall|i: int|
        0 <= i && i + MAX_DIGIT_RUN + 1 <= text.len() ==> !all_digits(
            #[trigger] text.subrange(i, i + MAX_DIGIT_RUN + 1),
        )
}

/// Whether no run of more than `MAX_DIGIT_RUN` ASCII digits stands in `text`.
pub fn digit_runs_fit_in(text: &str) -> (b: bool)
    ensures
        b == digit_runs_fit(text@),
{
    let cs = chars_of(text);
    let ghost t = text@;
    let n = cs.len();
    let mut run: usize = 0;
    let mut pos: usize = 0;
    while pos < n
        invariant
            cs@ == t,
            t == text@,
            n == t.len(),
            pos <= n,
            run <= pos,
            run <= MAX_DIGIT_RUN,
            all_digits(t.subrange(pos - run, pos as int)),
            pos - run > 0 ==> !is_digit(t[pos - run - 1]),
            forall|i: int|
                0 <= i && i + MAX_DIGIT_RUN + 1 <= pos ==> !all_digits(
                    #[trigger] t.subrange(i, i + MAX_DIGIT_RUN + 1),
                ),
        decreases n - pos,
    {
        let c = cs[pos];
        if '0' <= c && c <= '9' {
            if run == MAX_DIGIT_RUN {
                proof {
                    let i = pos - MAX_DIGIT_RUN;
                    assert forall|k: int| 0 <= k < MAX_DIGIT_RUN + 1 implies is_digit(
                        #[trigger] t.subrange(i, i + MAX_DIGIT_RUN + 1)[k],
                    ) by {
                        if k < MAX_DIGIT_RUN {
                            assert(t.subrange(i, i + MAX_DIGIT_RUN + 1)[k] == t.subrange(
                                pos - run,
                                pos as int,
                            )[k]);
                        }
                    }
                    assert(all_digits(t.subrange(i, i + MAX_DIGIT_RUN + 1)));
                    assert(!digit_runs_fit(t));
                }
                return false;
            }
            proof {
                assert forall|k: int| 0 <= k < run + 1 implies is_digit(
                    #[trigger] t.subrange(pos - run, pos + 1)[k],
                ) by {
                    if k < run {
                        assert(t.subrange(pos - run, pos + 1)[k] == t.subrange(
                            pos - run,
                            pos as int,
                        )[k]);
                    }
                }
                assert forall|i: int|
                    0 <= i && i + MAX_DIGIT_RUN + 1 <= pos + 1 implies !all_digits(
                    #[trigger] t.subrange(i, i + MAX_DIGIT_RUN + 1),
                ) by {
                    if i + MAX_DIGIT_RUN + 1 == pos + 1 {
                        let k = pos - run - 1 - i;
                        assert(t.subrange(i, i + MAX_DIGIT_RUN + 1)[k] == t[pos - run - 1]);
                    }
                }
            }
            run = run + 1;
        } else {
            proof {
                assert(t.subrange(pos + 1 - 0, pos + 1) =~= Seq::<char>::empty());
                assert forall|i: int|
                    0 <= i && i + MAX_DIGIT_RUN + 1 <= pos + 1 implies !all_digits(
                    #[trigger] t.subrange(i, i + MAX_DIGIT_RUN + 1),
                ) by {
                    if i + MAX_DIGIT_RUN + 1 == pos + 1 {
                        assert(t.subrange(i, i + MAX_DIGIT_RUN + 1)[MAX_DIGIT_RUN as int] == c);
                    }
                }
            }
            run = 0;
        }
        pos = pos + 1;
    }
    true
}

/// Parses `text` with `json::parse` and writes the value again with
/// `JsonValue::dump`. The contract claims that the result is a function of
/// `text` alone (the parser keeps the order of object members, and the
/// writer is deterministic). Which texts parse, and how the value is
/// written, is not stated. The parser counts the digits after a decimal
/// point in a 16-bit exponent, so texts with longer runs of digits are left
/// out.
#[verifier::external_body]
pub(crate) fn json_reparse(text: &str) -> (r: Option<String>)
    requires
        digit_runs_fit(text@),
    ensures
        r.deep_view() == json_reparsed(text@),
{
    match json::parse(text) {
        Ok(value) => Some(value.dump()),
        Err(_) => None,
    }
}

} // verus!
