//! The failure kinds surfaced by the library. Every fallible operation
//! reports exactly one of these; none is retried internally.

use vstd::prelude::*;

verus! {

/// The single error type of the library.
#[derive(Debug, Clone, Copy, PartialEq, Eq, Structural)]
pub enum Error {
    /// A record or reference lacks a derivable identifier where one is
    /// required (serialization of a foreign reference, a keyed operation).
    KeyDerivation,
    /// A condition, fetch directive or order-by references a field that the
    /// declared field-path descriptor does not contain.
    FieldPath,
    /// The storage service could not complete the call.
    Storage,
    /// A returned row or value does not match the expected shape.
    Deserialization,
}

/// Result alias used by every fallible operation of the library.
pub type ApiResult<T> = Result<T, Error>;

} // verus!
