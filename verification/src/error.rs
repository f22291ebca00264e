//! The library's error type.

use vstd::prelude::*;
use vstd::string::*;

use crate::text::{concat, decimal, decimal_string};

verus! {

/// Every way an operation of this library can fail.
#[derive(Debug, Clone, PartialEq, Eq)]
pub enum TaprootError {
    /// Encoding or decoding a document failed; holds the decoder's message.
    Serialization(String),
    HashMismatch { expected: String, got: String },
    InvalidSignature,
    InvalidKey(String),
    /// A filesystem or network operation failed; holds its message.
    Io(String),
    Mount(String),
    BaselineMissing(String),
    Drift { breaking: usize, warning: usize },
    InvalidHash(String),
    ObjectNotFound(String),
    RefNotFound { repo: String, branch: String },
}

/// The message of an error, as the command line and the API show it.
pub open spec fn error_text(e: TaprootError) -> Seq<char> {
    match e {
        TaprootError::Serialization(m) => "serialization failed: "@ + m@,
        TaprootError::HashMismatch { expected, got } => "invalid hash: expected "@ + expected@ + ", got "@ + got@,
        TaprootError::InvalidSignature => "signature verification failed"@,
        TaprootError::InvalidKey(m) => "invalid key: "@ + m@,
        TaprootError::Io(m) => "io error: "@ + m@,
        TaprootError::Mount(m) => "mount failed: "@ + m@,
        TaprootError::BaselineMissing(m) => "baseline not found: "@ + m@,
        TaprootError::Drift { breaking, warning } => "drift detected: "@ + decimal(breaking as nat) + " breaking, "@
            + decimal(warning as nat) + " warning"@,
        TaprootError::InvalidHash(m) => "invalid hash: "@ + m@,
        TaprootError::ObjectNotFound(m) => "object not found: "@ + m@,
        TaprootError::RefNotFound { repo, branch } => "ref not found: "@ + repo@ + "/"@ + branch@,
    }
}

impl TaprootError {
    /// The error's message.
    pub fn message(&self) -> (m: String)
        ensures
            m@ == error_text(*self),
    {
        match self {
            TaprootError::Serialization(m) => concat("serialization failed: ", m.as_str()),
            TaprootError::HashMismatch { expected, got } => {
                let a = concat("invalid hash: expected ", expected.as_str());
                let b = concat(a.as_str(), ", got ");
                concat(b.as_str(), got.as_str())
            },
            TaprootError::InvalidSignature => String::from_str("signature verification failed"),
            TaprootError::InvalidKey(m) => concat("invalid key: ", m.as_str()),
            TaprootError::Io(m) => concat("io error: ", m.as_str()),
            TaprootError::Mount(m) => concat("mount failed: ", m.as_str()),
            TaprootError::BaselineMissing(m) => concat("baseline not found: ", m.as_str()),
            TaprootError::Drift { breaking, warning } => {
                let a = concat("drift detected: ", decimal_string(*breaking as u64).as_str());
                let b = concat(a.as_str(), " breaking, ");
                let c = concat(b.as_str(), decimal_string(*warning as u64).as_str());
                concat(c.as_str(), " warning")
            },
            TaprootError::InvalidHash(m) => concat("invalid hash: ", m.as_str()),
            TaprootError::ObjectNotFound(m) => concat("object not found: ", m.as_str()),
            TaprootError::RefNotFound { repo, branch } => {
                let a = concat("ref not found: ", repo.as_str());
                let b = concat(a.as_str(), "/");
                concat(b.as_str(), branch.as_str())
            },
        }
    }
}

} // verus!
