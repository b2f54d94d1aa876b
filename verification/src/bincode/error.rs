//! Errors of the deserializer.

use vstd::prelude::*;

verus! {

/// The error that `core::str::from_utf8` reports for bytes that are not UTF-8.
#[verifier::external_type_specification]
#[verifier::external_body]
pub struct ExUtf8Error(core::str::Utf8Error);

/// Errors of a byte source.
#[derive(Debug, Clone, Copy, PartialEq, Eq, Structural)]
pub enum IoError {
    /// The source ended (or a segment barrier was reached) before the
    /// requested bytes could be read.
    UnexpectedEof,
    /// Any other failure of the source.
    Other,
}

/// The kind of error that can be produced during deserialization.
#[derive(Debug)]
pub enum ErrorKind {
    /// An error of the underlying byte source.
    Io(IoError),
    /// A string that is not valid UTF-8.
    InvalidUtf8Encoding(core::str::Utf8Error),
    /// A bool that was encoded neither as 1 nor as 0.
    InvalidBoolEncoding(u8),
    /// A char that is not in the correct format.
    InvalidCharEncoding,
    /// An enum or option tag that is not in the expected range.
    InvalidTagEncoding(usize),
    /// `deserialize_any` is not supported by this format.
    DeserializeAnyNotSupported,
    /// The configured byte limit has been reached.
    SizeLimit,
    /// Sequences of unknown length cannot be encoded.
    SequenceMustHaveLength,
    /// A custom error message.
    Custom(String),
    /// The current segment does not contain enough data.
    SegmentEnded,
    /// A nested segment claims more bytes than its parent still holds.
    InvalidData,
}

impl ErrorKind {
    /// Converts a byte-source error: a premature end becomes
    /// `SegmentEnded`, anything else is kept as `Io`.
    pub fn from_io(err: IoError) -> (r: ErrorKind)
        ensures
            err == IoError::UnexpectedEof ==> r is SegmentEnded,
            err != IoError::UnexpectedEof ==> r == ErrorKind::Io(err),
    {
        match err {
            IoError::UnexpectedEof => ErrorKind::SegmentEnded,
            _ => ErrorKind::Io(err),
        }
    }

    /// Whether this is the `SegmentEnded` error.
    pub fn is_segment_ended(&self) -> (r: bool)
        ensures
            r == (*self is SegmentEnded),
    {
        matches!(self, ErrorKind::SegmentEnded)
    }
}

} // verus!
