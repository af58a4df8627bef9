//! Error type shared by the library's operations.

use vstd::prelude::*;
use vstd::string::StringExecFns;

verus! {

broadcast use vstd::string::group_string_axioms;

/// The kind of a failed file system operation, as the operating system
/// reported it.
#[derive(Debug, Clone, Copy, PartialEq, Eq, Structural)]
pub enum IoKind {
    /// The file or directory does not exist.
    NotFound,
    /// Access was refused.
    PermissionDenied,
    /// The file already exists.
    AlreadyExists,
    /// The data read was not valid for the operation.
    InvalidData,
    /// The file ended before the expected number of bytes.
    UnexpectedEof,
    /// Any other failure.
    Other,
}

/// All errors of the library, each with the text that describes it.
#[derive(Debug, Clone, PartialEq, Eq)]
pub enum SoundScoutError {
    /// A database operation failed.
    Database(String),
    /// A file system operation failed: its kind and the system's message.
    Io(IoKind, String),
    /// An audio file could not be decoded.
    AudioDecode(String),
    /// The configuration file could not be read or written.
    Config(String),
    /// The scan was cancelled by the user.
    Cancelled,
    /// A validation constraint was violated.
    Validation(String),
    /// The connection pool failed (timeout, exhaustion).
    Pool(String),
    /// The text-embedding pipeline failed.
    Embedding(String),
}

/// The message of an error: a fixed prefix naming the kind, then the detail.
pub open spec fn error_message(e: SoundScoutError) -> Seq<char> {
    match e {
        SoundScoutError::Database(d) => "Database error: "@ + d@,
        SoundScoutError::Io(_, d) => "IO error: "@ + d@,
        SoundScoutError::AudioDecode(d) => "Audio decode error: "@ + d@,
        SoundScoutError::Config(d) => "Config error: "@ + d@,
        SoundScoutError::Cancelled => "Indexing cancelled"@,
        SoundScoutError::Validation(d) => "Validation error: "@ + d@,
        SoundScoutError::Pool(d) => "Connection pool error: "@ + d@,
        SoundScoutError::Embedding(d) => "Text embedding error: "@ + d@,
    }
}

impl SoundScoutError {
    /// The error as a human-readable message (what the error displays as).
    pub fn message(&self) -> (s: String)
        ensures
            s@ == error_message(*self),
    {
        let (prefix, detail): (&str, Option<&String>) = match self {
            SoundScoutError::Database(d) => ("Database error: ", Some(d)),
            SoundScoutError::Io(_, d) => ("IO error: ", Some(d)),
            SoundScoutError::AudioDecode(d) => ("Audio decode error: ", Some(d)),
            SoundScoutError::Config(d) => ("Config error: ", Some(d)),
            SoundScoutError::Cancelled => ("Indexing cancelled", None),
            SoundScoutError::Validation(d) => ("Validation error: ", Some(d)),
            SoundScoutError::Pool(d) => ("Connection pool error: ", Some(d)),
            SoundScoutError::Embedding(d) => ("Text embedding error: ", Some(d)),
        };
        let mut s = String::from_str(prefix);
        if let Some(d) = detail {
            s.append(d.as_str());
        }
        s
    }
}

} // verus!
