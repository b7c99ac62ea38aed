//! Errors of the library.
use vstd::prelude::*;

verus! {

/// What loading a document can fail with.
#[derive(Debug, PartialEq, Eq)]
pub enum Error {
    /// The path does not name a readable regular file.
    InvalidPath(String),
}

} // verus!
