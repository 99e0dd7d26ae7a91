//! The errors of the library.
use vstd::prelude::*;

use std::time::Duration;

verus! {

/// The kind of an I/O failure that a transport reports, as far as the
/// library tells kinds apart.
#[derive(Clone, Copy, Debug, PartialEq, Eq, Structural)]
pub enum IoErrorKind {
    TimedOut,
    WouldBlock,
    Interrupted,
    UnexpectedEof,
    Other,
}

#[derive(Debug)]
pub enum Error {
    UnknownSysEx { code: u8 },
    BadByte { byte: u8 },
    StdIoError { kind: IoErrorKind },
    Utf8Error,
    MessageTooShort,
    PinOutOfBounds { pin: u8, max: u8 },
    Timeout { duration: Duration },
    UnexpectedMessage { expected: &'static str },
    HandshakeFailed { reason: String },
    UnsupportedMode { pin: u8, mode: u8 },
}

/// Whether an error is worth retrying: an I/O failure that timed out, would
/// have blocked, or was interrupted.
pub open spec fn transient(err: Error) -> bool {
    match err {
        Error::StdIoError { kind } => kind == IoErrorKind::TimedOut || kind
            == IoErrorKind::WouldBlock || kind == IoErrorKind::Interrupted,
        _ => false,
    }
}

impl Error {
    /// Whether the operation that failed with this error may succeed if
    /// retried.
    pub fn is_transient(&self) -> (r: bool)
        ensures
            r == transient(*self),
    {
        match self {
            Error::StdIoError { kind } => match kind {
                IoErrorKind::TimedOut | IoErrorKind::WouldBlock | IoErrorKind::Interrupted => true,
                _ => false,
            },
            _ => false,
        }
    }
}

pub type Result<T> = std::result::Result<T, Error>;

} // verus!
