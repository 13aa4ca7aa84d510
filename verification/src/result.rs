//! Error types.
use vstd::prelude::*;

use crate::text::{decimal_padded, decimal_padded_spec};

verus! {

/// The kinds of input and output failures that the library itself reports.
#[derive(Clone, Copy, Debug, PartialEq, Eq, Structural)]
pub enum ErrorKind {
    /// The data ended before a value was complete.
    UnexpectedEof,
    /// The destination was closed before.
    BrokenPipe,
    /// The data is not what it should be.
    InvalidData,
    /// A parameter is not what it should be.
    InvalidInput,
    /// Nothing could be written.
    WriteZero,
    /// Any other failure.
    Other,
}

/// A failure of reading or writing.
#[derive(Clone, Copy, Debug, PartialEq, Eq)]
pub enum IoError {
    /// A failure of the given kind, with what is to be told about it.
    Simple(ErrorKind, &'static str),
    /// Extra data with a header id that is reserved.
    ReservedHeaderId(u16),
}

impl IoError {
    /// The kind of this failure.
    pub open spec fn spec_kind(self) -> ErrorKind {
        match self {
            IoError::Simple(kind, _) => kind,
            IoError::ReservedHeaderId(_) => ErrorKind::Other,
        }
    }

    /// The kind of this failure.
    pub fn kind(&self) -> (kind: ErrorKind)
        ensures
            kind == self.spec_kind(),
    {
        match self {
            IoError::Simple(kind, _) => *kind,
            IoError::ReservedHeaderId(_) => ErrorKind::Other,
        }
    }

    /// What is to be told about this failure.
    pub open spec fn text(self) -> Seq<char> {
        match self {
            IoError::Simple(_, text) => text@,
            IoError::ReservedHeaderId(id) => "Extra data header ID "@ + decimal_padded_spec(
                id as nat,
                6,
            ) + " requires crate feature \"unreserved\""@,
        }
    }

    /// What is to be told about this failure.
    pub fn message(&self) -> (message: String)
        ensures
            message@ == self.text(),
    {
        match self {
            IoError::Simple(_, text) => (*text).to_owned(),
            IoError::ReservedHeaderId(id) => {
                let mut message = "Extra data header ID ".to_owned();
                let digits = decimal_padded(*id as u64, 6);
                message.append(digits.as_str());
                message.append(" requires crate feature \"unreserved\"");
                message
            },
        }
    }
}

/// Error type of the library.
#[derive(Clone, Copy, Debug, PartialEq, Eq)]
pub enum ZipError {
    /// Reading or writing failed.
    Io(IoError),
    /// This file is not a valid zip archive.
    InvalidArchive(&'static str),
    /// This archive is not supported.
    UnsupportedArchive(&'static str),
    /// The requested file could not be found in the archive.
    FileNotFound,
}

/// Result type of the library.
pub type ZipResult<T> = Result<T, ZipError>;

impl ZipError {
    /// What is to be told about this failure.
    pub open spec fn text(self) -> Seq<char> {
        match self {
            ZipError::Io(e) => e.text(),
            ZipError::InvalidArchive(text) => "invalid Zip archive: "@ + text@,
            ZipError::UnsupportedArchive(text) => "unsupported Zip archive: "@ + text@,
            ZipError::FileNotFound => "specified file not found in archive"@,
        }
    }

    /// What is to be told about this failure.
    pub fn message(&self) -> (message: String)
        ensures
            message@ == self.text(),
    {
        match self {
            ZipError::Io(e) => e.message(),
            ZipError::InvalidArchive(text) => {
                let mut message = "invalid Zip archive: ".to_owned();
                message.append(text);
                message
            },
            ZipError::UnsupportedArchive(text) => {
                let mut message = "unsupported Zip archive: ".to_owned();
                message.append(text);
                message
            },
            ZipError::FileNotFound => "specified file not found in archive".to_owned(),
        }
    }
}

/// The failure of a read that needs more data than there is.
pub open spec fn eof() -> ZipError {
    ZipError::Io(IoError::Simple(ErrorKind::UnexpectedEof, "failed to fill whole buffer"))
}

/// The failure of a read that needs more data than there is.
pub fn eof_error() -> (e: ZipError)
    ensures
        e == eof(),
{
    ZipError::Io(IoError::Simple(ErrorKind::UnexpectedEof, "failed to fill whole buffer"))
}

/// A failure of kind `Other`.
pub open spec fn other(message: &'static str) -> ZipError {
    ZipError::Io(IoError::Simple(ErrorKind::Other, message))
}

/// A failure of kind `Other`.
pub fn other_error(message: &'static str) -> (e: ZipError)
    ensures
        e == other(message),
{
    ZipError::Io(IoError::Simple(ErrorKind::Other, message))
}

/// A failure of kind `BrokenPipe`.
pub open spec fn broken_pipe(message: &'static str) -> ZipError {
    ZipError::Io(IoError::Simple(ErrorKind::BrokenPipe, message))
}

/// A failure of kind `BrokenPipe`.
pub fn broken_pipe_error(message: &'static str) -> (e: ZipError)
    ensures
        e == broken_pipe(message),
{
    ZipError::Io(IoError::Simple(ErrorKind::BrokenPipe, message))
}

/// What is told of a failure begins with what kind of failure it is, and ends with what it is
/// about.
pub proof fn failures_are_told(text: &'static str, kind: ErrorKind, id: u16)
    ensures
        ZipError::InvalidArchive(text).text() == "invalid Zip archive: "@ + text@,
        ZipError::UnsupportedArchive(text).text() == "unsupported Zip archive: "@ + text@,
        ZipError::Io(IoError::Simple(kind, text)).text() == text@,
        IoError::Simple(kind, text).spec_kind() == kind,
        IoError::ReservedHeaderId(id).spec_kind() == ErrorKind::Other,
        ZipError::FileNotFound.text() == "specified file not found in archive"@,
        IoError::ReservedHeaderId(id).text() == "Extra data header ID "@ + decimal_padded_spec(
            id as nat,
            6,
        ) + " requires crate feature \"unreserved\""@,
{
}

} // verus!
