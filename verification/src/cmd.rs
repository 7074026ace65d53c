//! Splitting a command line into its words.
use vstd::prelude::*;

use crate::json_text::{digit_runs_fit, digit_runs_fit_in, json_reparse, json_reparsed};
use crate::patterns::{regex_find_texts, regex_match_texts};
use crate::text::{
    has_infix, lemma_infix_of_infix, lemma_trim_by_is_infix, trim, trim_by, trim_matches, trimmed,
    CharClass,
};

verus! {

/// A word of a command line: a `'quoted part'` or a run of characters that are
/// neither quotes nor white space, with the white space after it.
pub const TOKEN_PATTERN: &'static str = r#"'([^']*)'\s*|([^'\s]*)\s*"#;

/// A matched word without surrounding white space and quotes.
pub open spec fn stripped_token(m: Seq<char>) -> Seq<char> {
    trim_by(trimmed(m), CharClass::Exactly('\''))
}

pub open spec fn stripped_tokens(ms: Seq<Seq<char>>) -> Seq<Seq<char>> {
    ms.map_values(|m: Seq<char>| stripped_token(m))
}

/// The words of a command line: the matches of `TOKEN_PATTERN`, stripped.
pub open spec fn command_words(input: Seq<char>) -> Option<Seq<Seq<char>>> {
    match regex_match_texts(TOKEN_PATTERN@, input) {
        Some(ms) => Some(stripped_tokens(ms)),
        None => None,
    }
}

/// Each match without white space around it and then without `'` around it.
pub fn strip_tokens(matches: &Vec<String>) -> (r: Vec<String>)
    ensures
        r.deep_view() == stripped_tokens(matches.deep_view()),
{
    let mut out: Vec<String> = Vec::new();
    let mut i: usize = 0;
    while i < matches.len()
        invariant
            i <= matches.len(),
            out.deep_view() =~= stripped_tokens(matches.deep_view().take(i as int)),
        decreases matches.len() - i,
    {
        let m: &str = matches[i].as_str();
        let word = trim_matches(trim(m), '\'');
        let ghost before = out.deep_view();
        out.push(word.to_owned());
        proof {
            assert(matches.deep_view()[i as int] == m@);
            assert(out.deep_view() =~= before.push(stripped_token(m@)));
            assert(stripped_tokens(matches.deep_view().take(i + 1)) =~= stripped_tokens(
                matches.deep_view().take(i as int),
            ).push(stripped_token(m@)));
        }
        i = i + 1;
    }
    assert(matches.deep_view().take(matches.len() as int) =~= matches.deep_view());
    out
}

/// Splits a command line at white space, keeping a `'quoted part'` together
/// as one word without its quotes. `None` when the word pattern does not
/// compile. Every word is a part of the input.
pub fn split_and_strip(input: &str) -> (r: Option<Vec<String>>)
    ensures
        r.deep_view() == command_words(input@),
        r matches Some(words) ==> forall|i: int|
            0 <= i < words.len() ==> has_infix(input@, #[trigger] words[i]@),
{
    match regex_find_texts(TOKEN_PATTERN, input) {
        Some(matches) => {
            let words = strip_tokens(&matches);
            proof {
                assert(words.deep_view().len() == matches.deep_view().len());
                assert(words.len() == matches.len());
                assert forall|i: int| 0 <= i < words.len() implies has_infix(
                    input@,
                    #[trigger] words[i]@,
                ) by {
                    let m = matches[i]@;
                    assert(matches.deep_view()[i] == m);
                    assert(words.deep_view()[i] == words[i]@);
                    lemma_trim_by_is_infix(m, CharClass::WhiteSpace);
                    lemma_trim_by_is_infix(trimmed(m), CharClass::Exactly('\''));
                    lemma_infix_of_infix(m, trimmed(m), stripped_token(m));
                    lemma_infix_of_infix(input@, m, stripped_token(m));
                }
            }
            Some(words)
        },
        None => None,
    }
}

/// Why the output of a command gives no JSON.
#[derive(Debug, Clone, Copy, PartialEq, Eq, Structural)]
pub enum RunError {
    /// The command did not succeed.
    Failed,
    /// Its standard output has a run of digits too long for the JSON reader.
    LongDigitRun,
    /// Its standard output is not JSON.
    NotJson,
}

/// The JSON that a command printed: an error when the command failed or
/// its standard output has a run of digits longer than the JSON reader
/// takes, else that output read as JSON and written again, or an error when
/// it is not JSON.
pub fn command_output_json(success: bool, stdout: &str) -> (r: Result<String, RunError>)
    ensures
        !success ==> r == Err::<String, RunError>(RunError::Failed),
        success && !digit_runs_fit(stdout@) ==> r == Err::<String, RunError>(RunError::LongDigitRun),
        success && digit_runs_fit(stdout@) ==> match json_reparsed(stdout@) {
            Some(t) => r matches Ok(s) && s@ == t,
            None => r == Err::<String, RunError>(RunError::NotJson),
        },
{
    if !success {
        return Err(RunError::Failed);
    }
    if !digit_runs_fit_in(stdout) {
        return Err(RunError::LongDigitRun);
    }
    match json_reparse(stdout) {
        Some(text) => Ok(text),
        None => Err(RunError::NotJson),
    }
}

} // verus!
