//! The error taxonomy of the library.  Every stage fails fast with one
//! of these kinds; pre-flight checks aggregate their findings before
//! failing so the operator sees every problem at once.

use vstd::prelude::*;

verus! {

/// One error kind per failure class of the tool.
#[derive(Clone, Debug, PartialEq, Eq)]
pub enum Error {
    /// Mutually exclusive selection options were combined, or an
    /// argument is unusable.
    Configuration(String),
    /// A manifest, regex, or version string failed to parse.
    Parse(String),
    /// A dependency cycle was found among the selected packages; each
    /// inner vector names the packages of one cycle.
    Plan(Vec<Vec<String>>),
    /// Pre-flight checks failed; one finding per offending package.
    Check(Vec<String>),
    /// Publishing or owner administration failed.
    Publish(String),
    /// No package matched the selection criteria and the caller asked
    /// for that to be an error.
    EmptySelection,
}

} // verus!
