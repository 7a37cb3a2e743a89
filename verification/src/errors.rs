//! Error kinds of the library.
//!
//! Each fatal condition of the acquisition-and-installation pipeline is one
//! variant; `message` renders the user-facing text.
use vstd::prelude::*;

verus! {

#[derive(Debug)]
pub enum Error {
    /// Malformed or disallowed descriptor or toolchain name.
    Resolution { message: String },
    /// Transport failure or an unexpected HTTP status.
    Network { message: String },
    /// HTTP 404 after the retry budget was exhausted, or a missing entry.
    NotFound { message: String },
    /// Computed digest differs from the declared hash.
    Integrity { actual: String, expected: String },
    /// IO failure during extraction or relocation.
    Filesystem { message: String },
}

impl Error {
    /// The user-facing text of this error.
    pub fn message(&self) -> (r: String)
        ensures
            match self {
                Error::Resolution { message } => r@ == message@,
                Error::Network { message } => r@ == message@,
                Error::NotFound { message } => r@ == message@,
                Error::Filesystem { message } => r@ == message@,
                Error::Integrity { actual, expected } => r@
                    == "Attempt to verify sha256 checksum failed:\ndownloaded file: "@ + actual@
                    + "\npublished sha256 hash: "@ + expected@,
            },
    {
        match self {
            Error::Resolution { message } => crate::strutil::str_to_string(message.as_str()),
            Error::Network { message } => crate::strutil::str_to_string(message.as_str()),
            Error::NotFound { message } => crate::strutil::str_to_string(message.as_str()),
            Error::Filesystem { message } => crate::strutil::str_to_string(message.as_str()),
            Error::Integrity { actual, expected } => {
                let s1 = crate::strutil::str_concat(
                    "Attempt to verify sha256 checksum failed:\ndownloaded file: ",
                    actual.as_str(),
                );
                let s2 = crate::strutil::str_concat(s1.as_str(), "\npublished sha256 hash: ");
                crate::strutil::str_concat(s2.as_str(), expected.as_str())
            },
        }
    }
}

} // verus!
