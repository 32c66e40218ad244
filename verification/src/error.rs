//! The errors the codec reports.

use vstd::prelude::*;

verus! {

/// Why an encode or decode call failed. Every failure is final for the call
/// that reports it.
#[derive(Debug, Clone, Copy, PartialEq, Eq, Structural)]
pub enum CodecError {
    /// Fewer bytes are available than a length field or a fixed layout asks for.
    TruncatedInput,
    /// An identifier has no component, is not dotted decimal text, or has more
    /// components after compression than the one-byte count can hold.
    InvalidIdentifier,
    /// The type byte of a frame header is outside 1..=18; carries that byte.
    UnknownPduType(u8),
    /// The type code of a value is not one of the thirteen known codes;
    /// carries that code.
    UnknownValueType(u16),
    /// An upper bound was announced for a registration but its four bytes are
    /// not there.
    IncompleteUpperBoundContext,
}

impl CodecError {
    /// A short description of the error.
    pub fn message(&self) -> (s: &'static str)
        ensures
            s@ == match self {
                CodecError::TruncatedInput => "truncated input"@,
                CodecError::InvalidIdentifier => "invalid identifier"@,
                CodecError::UnknownPduType(_) => "unknown PDU type"@,
                CodecError::UnknownValueType(_) => "unknown value type"@,
                CodecError::IncompleteUpperBoundContext => "incomplete upper bound context"@,
            },
    {
        match self {
            CodecError::TruncatedInput => "truncated input",
            CodecError::InvalidIdentifier => "invalid identifier",
            CodecError::UnknownPduType(_) => "unknown PDU type",
            CodecError::UnknownValueType(_) => "unknown value type",
            CodecError::IncompleteUpperBoundContext => "incomplete upper bound context",
        }
    }
}

} // verus!
