//! Errors that the decoding and database operations report.

use vstd::prelude::*;

verus! {

/// Why an operation failed.
#[derive(Debug, Clone, Copy, PartialEq, Eq, Structural)]
pub enum AmiError {
    /// A read named a symbol that has no data file.
    NotFound,
    /// A buffer is shorter than the fixed-size block it should hold.
    FormatError,
}

} // verus!
