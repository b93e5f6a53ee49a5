//! The unified error shape reported by every registry operation.

use vstd::prelude::*;
use vstd::string::StringExecFns;
use crate::text::opt_text;

verus! {

/// Sub-kind of a driver I/O failure, kept apart so that a caller can tell
/// an unplugged device from a refused one.
#[derive(Debug, Clone, Copy, PartialEq, Eq, Structural)]
pub enum IOErrorKind {
    NotFound,
    PermissionDenied,
    ConnectionRefused,
    ConnectionReset,
    Unknown,
}

/// What went wrong, coarsely.
#[derive(Debug, Clone, Copy, PartialEq, Eq, Structural)]
pub enum ErrorKind {
    /// The named port is not registered.
    NoDevice,
    /// The driver rejected the configuration.
    InvalidInput,
    /// Lock failure, undeliverable signal, or an unclassified driver error.
    Unknown,
    /// The named port is already registered.
    AlreadyOpen,
    /// The driver reported an I/O failure.
    IOError(IOErrorKind),
}

/// An error with an optional human-readable description.
#[derive(Debug, Clone, PartialEq, Eq)]
pub struct Error {
    pub kind: ErrorKind,
    pub description: Option<String>,
}

/// Mathematical content of an [`Error`].
pub struct ErrorView {
    pub kind: ErrorKind,
    pub description: Option<Seq<char>>,
}

impl View for Error {
    type V = ErrorView;

    open spec fn view(&self) -> ErrorView {
        ErrorView {
            kind: self.kind,
            description: opt_text(self.description),
        }
    }
}

/// Description carried by a `NoDevice` error for `port_name`.
pub open spec fn not_found_text(port_name: Seq<char>) -> Seq<char> {
    "Port "@ + port_name + " not found"@
}

/// Description carried by an `AlreadyOpen` error for `port_name`.
pub open spec fn already_open_text(port_name: Seq<char>) -> Seq<char> {
    "Port "@ + port_name + " already open"@
}

/// Description carried by the error that reports a failed registry lock.
pub open spec fn lock_failed_text() -> Seq<char> {
    "Failed to lock ports"@
}

/// What is reported for an operation on a port that is not registered.
pub open spec fn no_device(port_name: Seq<char>) -> ErrorView {
    ErrorView { kind: ErrorKind::NoDevice, description: Some(not_found_text(port_name)) }
}

/// What is reported for a connect on a name that is already registered.
pub open spec fn already_open(port_name: Seq<char>) -> ErrorView {
    ErrorView { kind: ErrorKind::AlreadyOpen, description: Some(already_open_text(port_name)) }
}

/// The content of a result whose error is an [`Error`].
pub open spec fn outcome<T>(result: Result<T, Error>) -> Result<T, ErrorView> {
    match result {
        Ok(value) => Ok(value),
        Err(e) => Err(e@),
    }
}

impl Error {
    /// The error for an operation on a port that is not registered.
    pub fn no_device(port_name: &str) -> (e: Error)
        ensures
            e@ == no_device(port_name@),
    {
        let text = String::from_str("Port ").concat(port_name).concat(" not found");
        Error { kind: ErrorKind::NoDevice, description: Some(text) }
    }

    /// The error for a connect on a name that is already registered.
    pub fn already_open(port_name: &str) -> (e: Error)
        ensures
            e@ == already_open(port_name@),
    {
        let text = String::from_str("Port ").concat(port_name).concat(" already open");
        Error { kind: ErrorKind::AlreadyOpen, description: Some(text) }
    }

    /// The error reported when the registry lock cannot be taken.
    pub fn lock_failed() -> (e: Error)
        ensures
            e@ == (ErrorView {
                kind: ErrorKind::Unknown,
                description: Some(lock_failed_text()),
            }),
    {
        Error {
            kind: ErrorKind::Unknown,
            description: Some(String::from_str("Failed to lock ports")),
        }
    }

    /// An `Unknown` error with the given description, if any.
    pub fn unknown(description: Option<String>) -> (e: Error)
        ensures
            e.kind == ErrorKind::Unknown,
            e.description == description,
    {
        Error { kind: ErrorKind::Unknown, description }
    }
}

} // verus!
