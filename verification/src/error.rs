//! The errors of the library.

use crate::text::push_str;
use vstd::prelude::*;

verus! {

/// Errors that can occur when working with Cornell Notes. Each carries a
/// human-readable message.
#[derive(Debug, Clone, PartialEq)]
pub enum CornellNoteError {
    /// The JSON text could not be read into a note (the parser's message).
    JsonError(String),
    /// A rule of the schema is broken.
    ValidationError(String),
    /// Reading or writing a file failed (the system's message).
    IoError(String),
    /// The version string is not of the form `digits.digits`.
    InvalidVersion(String),
    /// An identifier is not a UUID.
    InvalidUuid(String),
    /// A point in time cannot be represented.
    InvalidDatetime(String),
}

/// The variant of a [`CornellNoteError`], without its message.
#[derive(Debug, Clone, Copy, PartialEq, Eq, Structural)]
pub enum ErrorKind {
    Json,
    Validation,
    Io,
    InvalidVersion,
    InvalidUuid,
    InvalidDatetime,
}

/// What a failed check reports: the kind of error and its message.
pub type Fault = (ErrorKind, Seq<char>);

impl CornellNoteError {
    /// The variant of this error.
    pub open spec fn kind(&self) -> ErrorKind {
        match self {
            CornellNoteError::JsonError(_) => ErrorKind::Json,
            CornellNoteError::ValidationError(_) => ErrorKind::Validation,
            CornellNoteError::IoError(_) => ErrorKind::Io,
            CornellNoteError::InvalidVersion(_) => ErrorKind::InvalidVersion,
            CornellNoteError::InvalidUuid(_) => ErrorKind::InvalidUuid,
            CornellNoteError::InvalidDatetime(_) => ErrorKind::InvalidDatetime,
        }
    }

    /// The message carried by this error.
    pub open spec fn message(&self) -> Seq<char> {
        match self {
            CornellNoteError::JsonError(m) => m@,
            CornellNoteError::ValidationError(m) => m@,
            CornellNoteError::IoError(m) => m@,
            CornellNoteError::InvalidVersion(m) => m@,
            CornellNoteError::InvalidUuid(m) => m@,
            CornellNoteError::InvalidDatetime(m) => m@,
        }
    }

    /// The kind and message of this error, as a check reports them.
    pub open spec fn fault(&self) -> Fault {
        (self.kind(), self.message())
    }

    /// The heading that the display text of an error of this kind starts with.
    pub open spec fn heading(kind: ErrorKind) -> Seq<char> {
        match kind {
            ErrorKind::Json => "JSON parsing error: "@,
            ErrorKind::Validation => "Validation error: "@,
            ErrorKind::Io => "IO error: "@,
            ErrorKind::InvalidVersion => "Invalid version format: "@,
            ErrorKind::InvalidUuid => "Invalid UUID: "@,
            ErrorKind::InvalidDatetime => "Invalid datetime: "@,
        }
    }

    /// The display text of this error: its heading, then its message.
    pub fn to_string(&self) -> (s: String)
        ensures
            s@ == Self::heading(self.kind()) + self.message(),
    {
        let (heading, message): (&str, &String) = match self {
            CornellNoteError::JsonError(m) => ("JSON parsing error: ", m),
            CornellNoteError::ValidationError(m) => ("Validation error: ", m),
            CornellNoteError::IoError(m) => ("IO error: ", m),
            CornellNoteError::InvalidVersion(m) => ("Invalid version format: ", m),
            CornellNoteError::InvalidUuid(m) => ("Invalid UUID: ", m),
            CornellNoteError::InvalidDatetime(m) => ("Invalid datetime: ", m),
        };
        let mut s = String::new();
        push_str(&mut s, heading);
        push_str(&mut s, message.as_str());
        s
    }
}

} // verus!
