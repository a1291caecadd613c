use vstd::prelude::*;

verus! {

/// Kinds of errors that may occur while performing metadata operations.
#[derive(Clone, Copy, Debug, PartialEq, Eq, Structural)]
pub enum ErrorKind {
    /// An input or output operation on the underlying stream failed.
    Io,
    /// A text field did not hold valid UTF-8.
    StringDecoding,
    /// Some input was invalid.
    InvalidInput,
}

/// An error of a metadata operation: its kind and a human readable description.
#[derive(Clone, Copy, Debug)]
pub struct Error {
    /// The kind of error.
    pub kind: ErrorKind,
    /// A human readable string describing the error.
    pub description: &'static str,
}

/// Result of metadata operations.
pub type Result<T> = core::result::Result<T, Error>;

impl Error {
    /// Creates a new `Error` using the error kind and description.
    pub fn new(kind: ErrorKind, description: &'static str) -> (r: Error)
        ensures
            r.kind == kind,
            r.description == description,
    {
        Error { kind, description }
    }
}

} // verus!
