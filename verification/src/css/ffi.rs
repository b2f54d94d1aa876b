//! Result values handed across the C interface.

use vstd::prelude::*;

verus! {

/// Error codes reported to C callers.
#[derive(Debug, Clone, Copy, PartialEq, Eq, Structural)]
pub enum FfiErrorCode {
    NoError,
    ThisNullPointer,
    PathNullPointer,
    PrefixNullPointer,
    SourceNullPointer,
    BufferNullPointer,
    ExprPtrNullPointer,
    StrNullPointer,
    InlineStyleTextNullPointer,
    InlineRuleNullPointer,
    StyleTextNullPointer,
    SelectorTextNullPointer,
    InvalidPath,
    JsonNullPointer,
    ArrayNullPointer,
    SelectorNullPointer,
    StyleSheetNullPointer,
    MapNullPointer,
    Unknown,
}

/// A value paired with an error code.
pub struct FfiResult<T> {
    pub value: T,
    pub err: FfiErrorCode,
}

impl<T> FfiResult<T> {
    /// A successful result carrying `value`.
    pub fn ok(value: T) -> (r: Self)
        ensures
            r.value == value,
            r.err == FfiErrorCode::NoError,
    {
        Self { value, err: FfiErrorCode::NoError }
    }

    /// A failed result carrying `err` and the fallback `default`.
    pub fn error(err: FfiErrorCode, default: T) -> (r: Self)
        ensures
            r.value == default,
            r.err == err,
    {
        Self { value: default, err }
    }
}

/// An RGBA color with 8-bit channels.
#[derive(Debug, Clone, Copy, PartialEq, Eq, Structural, Default)]
pub struct ColorValue {
    pub red: u8,
    pub green: u8,
    pub blue: u8,
    pub alpha: u8,
}

} // verus!
