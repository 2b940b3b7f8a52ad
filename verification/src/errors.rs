//! The failure kinds that the library's fallible operations report.

use vstd::prelude::*;

verus! {

/// Why an operation on a collection or an image file failed.
///
/// Every fallible function of the library reports one of these kinds; none of
/// them panics on an input its contract admits.
#[derive(Clone, Copy, Debug, PartialEq, Eq, Structural)]
pub enum StoreError {
    /// A caller-supplied payload or filename is malformed.
    DeserializationError,
    /// The requested identity or filename is absent.
    NotFound,
    /// A filesystem read, write, copy, delete or create failed, or a file
    /// extension could not be determined.
    IoError,
    /// An image payload cannot be interpreted in its declared format.
    DecodeError,
    /// The storage root cannot be resolved.
    ConfigurationError,
}

impl StoreError {
    /// A short description of the failure, for callers that print it.
    pub fn message(&self) -> (r: &'static str)
        ensures
            self is NotFound ==> r@ == "entry not found"@,
    {
        match self {
            StoreError::DeserializationError => "unable to deserialize payload",
            StoreError::NotFound => "entry not found",
            StoreError::IoError => "filesystem operation failed",
            StoreError::DecodeError => "unable to decode image data",
            StoreError::ConfigurationError => "unable to resolve configuration",
        }
    }
}

} // verus!
