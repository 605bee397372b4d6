//! The Travis CI configuration that is translated.

pub mod rust;

pub use self::rust::Rust;

use vstd::prelude::*;

verus! {

/// One entry of a matrix exclusion list: it matches a combination where
/// each field it gives equals that of the combination.
#[derive(Debug, PartialEq, Eq)]
pub struct Case {
    pub rust: Option<String>,
    pub env: Option<String>,
}

/// A parsed `.travis.yml`.
#[derive(Debug, PartialEq, Eq)]
pub struct Travis {
    pub language: String,
    /// Toolchain version identifiers.
    pub rust: Vec<String>,
    /// Environment strings, each a shell-quoted list of `KEY=VALUE` words.
    pub env: Vec<String>,
    /// Commands shared by every step.
    pub script: Vec<String>,
    /// Exclusion categories by name, each with its cases; only
    /// `allow_failures` is read.
    pub matrix: Option<Vec<(String, Vec<Case>)>>,
}

} // verus!
