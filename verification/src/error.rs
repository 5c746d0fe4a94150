//! The codec's error taxonomy.  Every error is surfaced to the caller of
//! the top-level entry points; errors are value-comparable and carry the
//! information needed for diagnostics.

use vstd::prelude::*;

verus! {

#[derive(Debug, Clone, PartialEq, Eq)]
pub enum Error {
    /// The value-description layer reported an error while serializing.
    Serializing(String),
    /// The value-description layer reported an error while deserializing.
    Deserializing(String),
    /// An array element's signature disagreed with the declared element
    /// signature: `(expected, got)`.
    MismatchSignature(Vec<u8>, Vec<u8>),
    /// Non-UTF-8 bytes where a string was expected.
    StringConversion,
    /// The message body had this many bytes unconsumed after the root
    /// decode.
    LeftoverData(usize),
    /// The signature had this many bytes unconsumed.
    LeftoverSignature(usize),
    /// A byte that is not a DBus signature code.
    UnrecognizedSignatureCharacter(u8),
    /// A signature code this core parses but refuses to decode.
    UnsupportedSignatureCharacter(u8),
    /// Expected one signature byte, got another: `(expected, got)`.
    SignatureError(u8, u8),
    /// Expected a signature fragment at the given signature index.
    SignatureErrorIx(Vec<u8>, usize),
    /// The signature ended while more was expected.
    SignatureExhausted,
    /// The data cursor advanced past the end of the buffer.
    IndexOutOfBounds(usize),
    /// An encoded boolean was neither 0 nor 1.
    InvalidBoolValue(u32),
    /// A decoded u32 is not a valid Unicode scalar value.
    CharTryFromError,
    /// Unbalanced brackets in a signature, noticed at the given index.
    MismatchedSignatureBracketing(usize),
    /// An array element ended at the first index, overrunning the array
    /// bound at the second.
    ArrayElementOverrun(usize, usize),
}

impl Error {
    /// A short, fixed description of the error kind.
    pub fn description(&self) -> &'static str {
        match self {
            Error::Serializing(_) => "error serializing",
            Error::Deserializing(_) => "error deserializing",
            Error::MismatchSignature(_, _) => "mismatched signature in array",
            Error::StringConversion => "converting from bytes to string",
            Error::LeftoverData(_) => "leftover data to deserialize",
            Error::LeftoverSignature(_) => "leftover signature to deserialize",
            Error::UnrecognizedSignatureCharacter(_) => "signature: unrecognized character",
            Error::UnsupportedSignatureCharacter(_) => "signature: unsupported character",
            Error::SignatureError(_, _) => "signature: unexpected character",
            Error::SignatureErrorIx(_, _) => "signature: unexpected fragment",
            Error::SignatureExhausted => "out of signature",
            Error::IndexOutOfBounds(_) => "index out of bounds",
            Error::InvalidBoolValue(_) => "invalid bool value",
            Error::CharTryFromError => "invalid char",
            Error::MismatchedSignatureBracketing(_) => "mismatched bracketing in signature",
            Error::ArrayElementOverrun(_, _) => "array element overran its bound",
        }
    }
}

} // verus!
