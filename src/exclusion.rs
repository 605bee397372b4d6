//! Deciding which combinations of the build matrix may fail.

use vstd::prelude::*;
use vstd::string::*;
use crate::travis::Case;

verus! {

/// The name of the exclusion category that marks allowed failures.
pub open spec fn allow_failures_name() -> Seq<char> {
    "allow_failures"@
}

/// `c` matches the combination of version `v` and environment string `e`:
/// each field that it gives is equal to the combination's.
pub open spec fn case_matches(c: Case, v: Seq<char>, e: Seq<char>) -> bool {
    &&& (c.rust matches Some(r) ==> r@ == v)
    &&& (c.env matches Some(x) ==> x@ == e)
}

/// Some case of the list matches the combination.
pub open spec fn any_case_matches(cases: Seq<Case>, v: Seq<char>, e: Seq<char>) -> bool {
    exists|i: int| 0 <= i < cases.len() && case_matches(#[trigger] cases[i], v, e)
}

/// Some category of `m` named `allow_failures` has a case that matches the
/// combination.
pub open spec fn listed_as_failure(m: Seq<(String, Vec<Case>)>, v: Seq<char>, e: Seq<char>) -> bool {
    exists|i: int|
        0 <= i < m.len() && (#[trigger] m[i]).0@ == allow_failures_name() && any_case_matches(
            m[i].1@,
            v,
            e,
        )
}

/// The combination is an allowed failure: a case listed under
/// `allow_failures` matches it. Without a matrix, or without that category,
/// no combination is.
pub open spec fn allows_failure(
    matrix: Option<Vec<(String, Vec<Case>)>>,
    v: Seq<char>,
    e: Seq<char>,
) -> bool {
    match matrix {
        None => false,
        Some(m) => listed_as_failure(m@, v, e),
    }
}

impl Case {
    /// Whether this case matches version `v` with environment string `e`.
    pub fn matches(&self, v: &String, e: &String) -> (r: bool)
        ensures
            r == case_matches(*self, v@, e@),
    {
        if let Some(r) = &self.rust {
            if !(*r == *v) {
                return false;
            }
        }
        if let Some(x) = &self.env {
            if !(*x == *e) {
                return false;
            }
        }
        true
    }
}

/// Whether some case of `cases` matches version `v` with environment
/// string `e`; stops at the first that does.
pub fn any_matches(cases: &Vec<Case>, v: &String, e: &String) -> (r: bool)
    ensures
        r == any_case_matches(cases@, v@, e@),
{
    let mut i: usize = 0;
    while i < cases.len()
        invariant
            i <= cases.len(),
            forall|j: int| 0 <= j < i ==> !case_matches(#[trigger] cases@[j], v@, e@),
        decreases cases.len() - i,
    {
        if cases[i].matches(v, e) {
            return true;
        }
        i = i + 1;
    }
    false
}

/// Whether the matrix lists version `v` with environment string `e` as an
/// allowed failure.
pub fn is_allowed_failure(matrix: &Option<Vec<(String, Vec<Case>)>>, v: &String, e: &String) -> (r: bool)
    ensures
        r == allows_failure(*matrix, v@, e@),
{
    match matrix {
        None => false,
        Some(m) => {
            let name = String::from_str("allow_failures");
            let mut i: usize = 0;
            while i < m.len()
                invariant
                    i <= m@.len(),
                    *matrix == Some(*m),
                    name@ == allow_failures_name(),
                    forall|j: int|
                        0 <= j < i ==> !((#[trigger] m@[j]).0@ == allow_failures_name()
                            && any_case_matches(m@[j].1@, v@, e@)),
                decreases m.len() - i,
            {
                if m[i].0 == name && any_matches(&m[i].1, v, e) {
                    assert(m@[i as int].0@ == allow_failures_name());
                    assert(any_case_matches(m@[i as int].1@, v@, e@));
                    return true;
                }
                i = i + 1;
            }
            false
        },
    }
}

} // verus!
