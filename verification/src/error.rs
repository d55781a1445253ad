//! The error type of the library.

use vstd::prelude::*;

verus! {

/// What can go wrong inside the library.
#[derive(Debug)]
pub enum RepoDiffError {
    /// The hunk-header pattern did not compile.
    RegexError(regex::Error),
}

} // verus!
