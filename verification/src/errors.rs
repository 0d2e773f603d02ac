//! The error taxonomy of the library.

use vstd::prelude::*;

verus! {

/// Why a configuration operation failed.
///
/// Every failure is surfaced to the immediate caller as an explicit result;
/// nothing is retried, recovered or defaulted silently.
#[derive(Clone, Copy, PartialEq, Eq, Structural, Debug)]
pub enum ConfigError {
    /// The payload cannot be represented as JSON text.
    EncodingError,
    /// The input is not valid JSON for the payload's shape.
    DecodingError,
    /// The underlying filesystem operation failed.
    IoError,
}

impl ConfigError {
    /// A short description of the error, for callers that render messages.
    pub fn describe(&self) -> (r: &'static str)
        ensures
            *self == ConfigError::EncodingError ==> r@ == "payload cannot be encoded as JSON"@,
            *self == ConfigError::DecodingError ==> r@ == "input is not valid JSON for the payload"@,
            *self == ConfigError::IoError ==> r@ == "filesystem operation failed"@,
    {
        match self {
            ConfigError::EncodingError => "payload cannot be encoded as JSON",
            ConfigError::DecodingError => "input is not valid JSON for the payload",
            ConfigError::IoError => "filesystem operation failed",
        }
    }
}

} // verus!
