//! Error types: fatal parse errors (malformed input) and deferred
//! reference-resolution errors.

use vstd::prelude::*;

verus! {

/// A fatal structural error found while parsing a container or a fragment
/// body. Carries the byte offset at which the problem was found and, for
/// truncation, how many bytes were needed against how many were available.
#[derive(Clone, Copy, Debug, PartialEq, Eq, Structural)]
pub enum ParseError {
    /// The buffer ended before a required field or declared length.
    Truncated { offset: usize, needed: usize, available: usize },
    /// The header's magic tag did not match the format's fixed value.
    BadMagic { found: u32 },
    /// Bytes remained after the declared fragment count was parsed.
    TrailingBytes { offset: usize, remaining: usize },
}

/// A resolution-time error for a fragment reference: distinct from parse-time
/// success, and raised only when a caller actually resolves the reference.
#[derive(Clone, Copy, Debug, PartialEq, Eq, Structural)]
pub enum RefError {
    /// The format gives negative fragment indices no meaning.
    NegativeIndex { index: i32 },
    /// A 1-based index beyond the end of the fragment list.
    OutOfRange { index: i32, len: usize },
    /// The target fragment's type id is not the expected kind.
    WrongType { expected: u32, found: u32 },
}

} // verus!
