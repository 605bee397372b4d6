//! Splitting a string into words as the Bourne shell does.

use vstd::prelude::*;
use crate::key_value::views;

verus! {

#[verifier::external_type_specification]
#[verifier::external_body]
pub struct ExMismatchedQuotes(shellwords::MismatchedQuotes);

/// The words that the shell makes of `s`, quotes removed and escapes
/// resolved, or `None` where `s` has unbalanced quotes.
pub uninterp spec fn shell_words_of(s: Seq<char>) -> Option<Seq<Seq<char>>>;

/// Relies on `shellwords::split`: it splits `s` into words, or reports
/// `MismatchedQuotes`; either outcome depends on the characters of `s` alone.
#[verifier::external_body]
pub(crate) fn split_shell_words(s: &str) -> (r: Result<Vec<String>, shellwords::MismatchedQuotes>)
    ensures
        match r {
            Ok(words) => shell_words_of(s@) == Some(views(words@)),
            Err(_) => shell_words_of(s@) is None,
        },
{
    shellwords::split(s)
}

} // verus!
