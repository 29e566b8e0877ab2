//! The error taxonomy shared by the registry and the wire codec.

use vstd::prelude::*;

verus! {

/// Why an operation of this library failed.
#[derive(Clone, Copy, Debug, PartialEq, Eq, Structural)]
pub enum YHErrorKind {
    /// A buffer does not have the exact or minimum size of the type decoded
    /// from it, or a declared count or size disagrees with the payload.
    InvalidLength,
    /// A timestamp lies after the time of validation.
    InvalidTime,
    /// The key to create is already in the index.
    AlreadyFound,
    /// The key to read, replace or remove is not in the index.
    NotFound,
    /// The method discriminant is not the one of the message's operation.
    InvalidMethod,
    /// A failure of the storage backend itself, with the backend's own code.
    Store(u32),
}

/// The result of a fallible operation of this library.
pub type YHResult<T> = Result<T, YHErrorKind>;

} // verus!
