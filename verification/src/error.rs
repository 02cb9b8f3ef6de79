//! The error type shared by every fallible operation of the crate.

use vstd::prelude::*;

verus! {

/// What can go wrong while measuring or rewriting text.
///
/// Only [`Error::Utf8`] is ever produced by the verified operations in this
/// crate (they work on in-memory buffers and never perform I/O); the other
/// variants exist for callers that drive a sink or a formatter around the
/// library and need to surface those failures through the same type.
#[derive(Debug, Clone, PartialEq, Eq)]
pub enum Error {
    /// A formatting failure, with a message describing it.
    Format(String),
    /// A sink write or flush failure, with a message describing it.
    Io(String),
    /// Bytes were not valid UTF-8 at a point where a text view was required.
    Utf8,
    /// Any other failure, with a message describing it.
    Other(String),
}

} // verus!
