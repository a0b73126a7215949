use vstd::prelude::*;

verus! {

/// An I/O error of the byte sink, carried through unchanged.
#[verifier::external_type_specification]
#[verifier::external_body]
pub struct ExIoError(std::io::Error);

/// What went wrong with an event.
#[derive(Clone, Copy, Debug, PartialEq, Eq, Structural)]
pub enum EmitterErrorKind {
    IoError,
    DocumentStartAlreadyEmitted,
    UnexpectedEvent,
    InvalidWhitespaceEvent,
    InvalidName,
    InvalidPayload,
    EndElementMismatch,
}

/// An error returned by an event method: its kind, a fixed message and, for
/// sink failures, the underlying I/O error.
#[derive(Debug)]
pub struct EmitterError {
    pub kind: EmitterErrorKind,
    pub message: &'static str,
    pub cause: Option<std::io::Error>,
}

impl EmitterError {
    pub fn kind(&self) -> (r: EmitterErrorKind)
        ensures
            r == self.kind,
    {
        self.kind
    }

    pub fn message(&self) -> (r: &'static str)
        ensures
            r == self.message,
    {
        self.message
    }
}

pub type EmitterResult<T> = Result<T, EmitterError>;

/// An error of the given kind with no underlying cause.
pub fn error(kind: EmitterErrorKind, message: &'static str) -> (r: EmitterError)
    ensures
        r.kind == kind,
        r.message == message,
        r.cause is None,
{
    EmitterError { kind: kind, message: message, cause: None }
}

/// Wraps a sink error.
pub fn io_error(err: std::io::Error) -> (r: EmitterError)
    ensures
        r.kind == EmitterErrorKind::IoError,
        r.cause == Some(err),
{
    EmitterError { kind: EmitterErrorKind::IoError, message: "Input/output error", cause: Some(err) }
}

/// Converts the result of a sink operation, wrapping its error.
pub fn io_wrap<T>(result: Result<T, std::io::Error>) -> (r: EmitterResult<T>)
    ensures
        match result {
            Ok(v) => r matches Ok(w) && w == v,
            Err(e) => r matches Err(x) && x.kind == EmitterErrorKind::IoError && x.cause == Some(e),
        },
{
    match result {
        Ok(v) => Ok(v),
        Err(e) => Err(io_error(e)),
    }
}

} // verus!
