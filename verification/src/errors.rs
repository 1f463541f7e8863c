//! Error types of the search core.

use vstd::prelude::*;

verus! {

/// Why a search call failed.
#[derive(Clone, Copy, Debug, PartialEq, Eq, Structural)]
pub enum SearchError {
    /// The pattern was to be compiled as a regular expression and is not
    /// syntactically valid. Surfaced before any line is read.
    InvalidPattern,
    /// The line source reported a read failure mid-scan; the whole call
    /// fails and no partial results are returned.
    IoReadError,
}

/// An opaque read failure handed in by the line source in place of a line.
#[derive(Clone, Copy, Debug, PartialEq, Eq, Structural)]
pub struct ReadError;

} // verus!
