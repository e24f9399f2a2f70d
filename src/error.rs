//! Kinds of failure of the library's operations.
use vstd::prelude::*;

verus! {

/// What went wrong, as a closed set of kinds that callers can branch on.
#[derive(Clone, Copy, Debug, PartialEq, Eq, Structural)]
pub enum AppError {
    /// A file could not be opened, read, written or copied.
    Io,
    /// The container is malformed, or one of its entries cannot be read.
    Archive,
    /// No metadata descriptor, or the requested title is absent.
    NotFound,
    /// The name has no file-name stem.
    InvalidName,
    /// A page index at or beyond the number of pages.
    IndexOutOfRange,
    /// A file extension or image type that is not accepted.
    UnsupportedFormat,
    /// Encoded data that cannot be decoded.
    Serialization,
}

} // verus!
