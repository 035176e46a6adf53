//! Error kinds of the file system interface, and how failures of the WebDAV
//! client and plain HTTP statuses map onto them.

use vstd::prelude::*;

verus! {

/// The protocol-agnostic error kinds a remote file system reports.
#[derive(Clone, Copy, Debug, PartialEq, Eq, Structural)]
pub enum ErrorKind {
    AlreadyConnected,
    NotConnected,
    AuthenticationFailed,
    BadAddress,
    ConnectionError,
    AlreadyExists,
    BadFile,
    CouldNotOpenFile,
    CouldNotRemoveFile,
    DirectoryNotEmpty,
    FileCreateDenied,
    IoError,
    NoSuchFileOrDirectory,
    PermissionDenied,
    InvalidPath,
    SizeRequired,
    StatFailed,
    ProtocolError,
    UnsupportedFeature,
}

/// The kind of failure below the HTTP layer.
#[derive(Clone, Copy, Debug, PartialEq, Eq, Structural)]
pub enum TransportKind {
    Connect,
    Timeout,
    Io,
    Other,
}

/// What went wrong in one WebDAV request, as far as the error mapping
/// needs to know.
#[derive(Clone, Copy, Debug, PartialEq, Eq, Structural)]
pub enum ClientFailure {
    /// The request failed below the HTTP layer.
    Transport(TransportKind),
    /// The server answered with this non-success HTTP status.
    Status(u16),
    /// A multi-status answer reported failures; the status of the first
    /// failure, when one could be read.
    Multistatus(Option<u16>),
    /// The request URL is not a valid URI.
    InvalidUrl,
    /// Any other failure (XML, headers, arguments, locks).
    Other,
}

/// The error kind for an HTTP status.
pub open spec fn spec_status_kind(status: u16) -> ErrorKind {
    if status == 401 {
        ErrorKind::AuthenticationFailed
    } else if status == 403 || status == 423 {
        ErrorKind::PermissionDenied
    } else if status == 404 || status == 410 || status == 409 {
        ErrorKind::NoSuchFileOrDirectory
    } else if status == 405 || status == 412 {
        ErrorKind::AlreadyExists
    } else if status == 507 {
        ErrorKind::IoError
    } else {
        ErrorKind::ProtocolError
    }
}

/// The error kind for a failed client request.
pub open spec fn spec_error_kind(failure: ClientFailure) -> ErrorKind {
    match failure {
        ClientFailure::Transport(TransportKind::Io) => ErrorKind::IoError,
        ClientFailure::Transport(_) => ErrorKind::ConnectionError,
        ClientFailure::Status(status) => spec_status_kind(status),
        ClientFailure::Multistatus(Some(status)) => spec_status_kind(status),
        ClientFailure::Multistatus(None) => ErrorKind::ProtocolError,
        ClientFailure::InvalidUrl => ErrorKind::InvalidPath,
        ClientFailure::Other => ErrorKind::ProtocolError,
    }
}

/// Maps an HTTP status onto the closest protocol-agnostic error kind:
/// 401 is an authentication failure, 403 and 423 deny permission, 404, 409
/// and 410 mean a missing entry, 405 and 412 an existing one, 507 an I/O
/// error, and everything else a protocol error.
pub fn status_kind(status: u16) -> (kind: ErrorKind)
    ensures
        kind == spec_status_kind(status),
{
    match status {
        401 => ErrorKind::AuthenticationFailed,
        403 | 423 => ErrorKind::PermissionDenied,
        404 | 410 | 409 => ErrorKind::NoSuchFileOrDirectory,
        405 | 412 => ErrorKind::AlreadyExists,
        507 => ErrorKind::IoError,
        _ => ErrorKind::ProtocolError,
    }
}

/// The error kind reported for a failed client request: I/O transport
/// failures are I/O errors and the other transport failures connection
/// errors, statuses go through [`status_kind`], a multi-status failure uses
/// its first failing status, an invalid URL is an invalid path, and the
/// rest is a protocol error.
pub fn error_kind(failure: &ClientFailure) -> (kind: ErrorKind)
    ensures
        kind == spec_error_kind(*failure),
{
    match failure {
        ClientFailure::Transport(TransportKind::Io) => ErrorKind::IoError,
        ClientFailure::Transport(_) => ErrorKind::ConnectionError,
        ClientFailure::Status(status) => status_kind(*status),
        ClientFailure::Multistatus(Some(status)) => status_kind(*status),
        ClientFailure::Multistatus(None) => ErrorKind::ProtocolError,
        ClientFailure::InvalidUrl => ErrorKind::InvalidPath,
        ClientFailure::Other => ErrorKind::ProtocolError,
    }
}

/// Whether `status` is a redirection (3xx).
pub open spec fn is_redirection(status: u16) -> bool {
    300 <= status <= 399
}

/// Whether `status` is a success (2xx).
pub open spec fn is_success(status: u16) -> bool {
    200 <= status <= 299
}

/// A failed request whose server answered a status maps to that status's
/// kind, and so does a multi-status failure through its first failing
/// status; a multi-status failure without a readable failing status is a
/// protocol error.
pub proof fn lemma_status_failures_use_status_kind(status: u16)
    ensures
        spec_error_kind(ClientFailure::Status(status)) == spec_status_kind(status),
        spec_error_kind(ClientFailure::Multistatus(Some(status))) == spec_status_kind(status),
        spec_error_kind(ClientFailure::Multistatus(None)) == ErrorKind::ProtocolError,
{
}

} // verus!
