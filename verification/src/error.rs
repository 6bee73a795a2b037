//! The error taxonomy: store errors are always propagated, codec errors are
//! split into encode and decode failures, and one variant is reserved for
//! structurally disallowed operations.
//!
//! Errors from the outside crates are carried as their messages: the
//! library's logic never branches on what is inside an error, only on which
//! kind it is.

use vstd::prelude::*;

verus! {

/// A serializer failure: either a value could not be encoded, or stored
/// bytes could not be decoded as the requested type.
#[derive(Debug)]
pub enum BincodeError {
    EncodeError(String),
    DecodeError(String),
}

/// Everything a tree operation can fail with.
#[derive(Debug)]
pub enum Error {
    /// The underlying store failed; always propagated, never swallowed.
    SledError(String),
    /// A value could not be encoded or decoded.
    BincodeError(BincodeError),
    /// The operation is structurally disallowed.
    IllegalOperation,
}

impl From<BincodeError> for Error {
    fn from(value: BincodeError) -> (r: Self) {
        Error::BincodeError(value)
    }
}

impl vstd::std_specs::convert::FromSpecImpl<BincodeError> for Error {
    open spec fn obeys_from_spec() -> bool {
        true
    }

    open spec fn from_spec(value: BincodeError) -> Self {
        Error::BincodeError(value)
    }
}

/// The error returned when stored bytes do not decode as the requested type.
pub fn decode_mismatch_error() -> (r: Error)
    ensures
        r is BincodeError,
        r->BincodeError_0 is DecodeError,
{
    Error::BincodeError(
        BincodeError::DecodeError("stored bytes do not decode as the requested type".to_owned()),
    )
}

} // verus!
