//! Errors that abort a translation.

use vstd::prelude::*;

verus! {

/// Why a translation produced no pipeline.
#[derive(Debug, PartialEq, Eq)]
pub enum TranslateError {
    /// An environment string has unbalanced quotes; holds that string.
    MalformedShellSyntax(String),
    /// A word that should read `KEY=VALUE` has no `=`; holds the string
    /// that the word came from (an environment string, or the word itself
    /// where it was given alone) and the word.
    MissingSeparator { input: String, word: String },
}

/// Abstract value of a [`TranslateError`].
pub enum ErrorView {
    MalformedShellSyntax(Seq<char>),
    /// The string the word came from, and the word.
    MissingSeparator(Seq<char>, Seq<char>),
}

impl View for TranslateError {
    type V = ErrorView;

    open spec fn view(&self) -> ErrorView {
        match self {
            TranslateError::MalformedShellSyntax(s) => ErrorView::MalformedShellSyntax(s@),
            TranslateError::MissingSeparator { input, word } => ErrorView::MissingSeparator(
                input@,
                word@,
            ),
        }
    }
}

} // verus!
