//! The typed outcomes with which a read can fail.

use vstd::prelude::*;

verus! {

/// The structural check of the file header that did not hold.
#[derive(Clone, Copy, Debug, PartialEq, Eq, Structural)]
pub enum HeaderStep {
    /// One of the five reserved bytes after the magic token was not zero.
    ReservedBytes,
    /// The byte after the reserved bytes was not the literal 1.
    LiteralOne,
    /// The sixteen bytes that close the header were not the fixed sentinel.
    TrailingSentinel,
}

/// Why a read produced no value.
#[derive(Clone, Copy, Debug, PartialEq, Eq, Structural)]
pub enum DwgError {
    /// The source ran out of octets before the requested width was read.
    StreamExhausted,
    /// The magic token is not one of the known releases.
    UnrecognizedVersion,
    /// A structural check of the file header did not hold.
    MalformedHeader(HeaderStep),
    /// A two-bit selector held a code that the format leaves unused.
    InvalidSelector,
}

} // verus!
