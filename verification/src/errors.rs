//! The error type of the library.
use vstd::prelude::*;

verus! {

#[verifier::external_type_specification]
#[verifier::external_body]
pub struct ExIoError(std::io::Error);

/// The kind of an I/O error, as far as the library tells kinds apart.
#[derive(Debug, Clone, Copy, PartialEq, Eq, Structural)]
pub enum IoErrorKind {
    /// The input ended before what was to be read (`ErrorKind::UnexpectedEof`).
    UnexpectedEof,
    /// Any other kind.
    Other,
}

/// An I/O error, with its kind kept beside it as a plain value.
#[derive(Debug)]
pub struct IoError {
    pub kind: IoErrorKind,
    pub error: std::io::Error,
}

/// Everything that can go wrong while decoding or reassembling a response.
#[derive(Debug)]
#[non_exhaustive]
pub enum Error {
    Io(IoError),
    TryReserveError(std::collections::TryReserveError),
    UnexpectedHeader { expected: u8, actual: u8 },
    PacketTooShort { expected: usize, actual: usize },
    MultiPacketTooLarge,
    MismatchPacketId,
    InvalidBz2Size,
    ChecksumMismatch,
    NoBinaryChunks,
    SteamIdTooLong,
    InvalidBool { field: &'static str, value: u8 },
    InvalidResponse,
    Other(&'static str),
}

pub type Result<T> = core::result::Result<T, Error>;

/// The mathematical content of an [`Error`]: which error it is and the plain
/// values it carries; an I/O error by its kind.
pub enum ErrorView {
    Io(IoErrorKind),
    TryReserve,
    UnexpectedHeader { expected: u8, actual: u8 },
    PacketTooShort { expected: usize, actual: usize },
    MultiPacketTooLarge,
    MismatchPacketId,
    InvalidBz2Size,
    ChecksumMismatch,
    NoBinaryChunks,
    SteamIdTooLong,
    InvalidBool { field: Seq<char>, value: u8 },
    InvalidResponse,
    Other(Seq<char>),
}

impl View for Error {
    type V = ErrorView;

    open spec fn view(&self) -> ErrorView {
        match self {
            Error::Io(e) => ErrorView::Io(e.kind),
            Error::TryReserveError(_) => ErrorView::TryReserve,
            Error::UnexpectedHeader { expected, actual } => ErrorView::UnexpectedHeader {
                expected: *expected,
                actual: *actual,
            },
            Error::PacketTooShort { expected, actual } => ErrorView::PacketTooShort {
                expected: *expected,
                actual: *actual,
            },
            Error::MultiPacketTooLarge => ErrorView::MultiPacketTooLarge,
            Error::MismatchPacketId => ErrorView::MismatchPacketId,
            Error::InvalidBz2Size => ErrorView::InvalidBz2Size,
            Error::ChecksumMismatch => ErrorView::ChecksumMismatch,
            Error::NoBinaryChunks => ErrorView::NoBinaryChunks,
            Error::SteamIdTooLong => ErrorView::SteamIdTooLong,
            Error::InvalidBool { field, value } => ErrorView::InvalidBool {
                field: field@,
                value: *value,
            },
            Error::InvalidResponse => ErrorView::InvalidResponse,
            Error::Other(msg) => ErrorView::Other(msg@),
        }
    }
}

/// Calls `std::io::Error::from(std::io::ErrorKind::UnexpectedEof)`: the I/O
/// error of a read past the end of the input. The claim: its kind, recorded
/// beside it, is `UnexpectedEof`, as std documents that an error made from a
/// kind reports that kind.
#[verifier::external_body]
pub(crate) fn unexpected_eof() -> (r: IoError)
    ensures
        r.kind == IoErrorKind::UnexpectedEof,
{
    IoError {
        kind: IoErrorKind::UnexpectedEof,
        error: std::io::Error::from(std::io::ErrorKind::UnexpectedEof),
    }
}

/// The error of a read past the end of the input.
pub(crate) fn eof_error() -> (e: Error)
    ensures
        e@ == ErrorView::Io(IoErrorKind::UnexpectedEof),
{
    Error::Io(unexpected_eof())
}

} // verus!
