//! The error taxonomy for encoding and decoding.
//!
//! Every error is returned synchronously to the immediate caller; there is
//! no recovery inside the codec.  Wire values are built bottom-up from
//! fully-constructed children, so a failure never leaves a partially-built
//! wire value behind.

use crate::ty::{TyV, VariantTy};
use vstd::prelude::*;
use vstd::string::*;

verus! {

/// The mathematical model of an [`Error`].
#[verifier::ext_equal]
pub enum ErrorV {
    /// The wire shape disagrees with what was requested, or a scalar cannot
    /// be coerced to the declared signature; carries the offending type.
    TypeMismatch(TyV),
    /// The wire shape has no mapping for the requested operation.
    UnsupportedType(TyV),
    /// An enum discriminant was not recognized, or the tag type has no
    /// mapping.
    InvalidTag(TyV),
    /// A tuple or struct arity disagreement.
    LengthMismatch { expected: int, actual: int },
    /// A single-character string coercion met a string of the wrong length.
    ExpectedChar(Seq<char>),
    /// A narrowing conversion fell out of range.
    IntegerOverflow,
    /// A path or signature string failed validation.
    ValidationFailure(Seq<char>),
    /// A caller-supplied message.
    Custom(Seq<char>),
}

/// Error type for serialization and deserialization.
#[derive(Debug, PartialEq, Eq)]
pub enum Error {
    TypeMismatch(VariantTy),
    UnsupportedType(VariantTy),
    InvalidTag(VariantTy),
    LengthMismatch { expected: usize, actual: usize },
    ExpectedChar(String),
    IntegerOverflow,
    ValidationFailure(String),
    Custom(String),
}

impl View for Error {
    type V = ErrorV;

    open spec fn view(&self) -> ErrorV {
        match self {
            Error::TypeMismatch(t) => ErrorV::TypeMismatch(t@),
            Error::UnsupportedType(t) => ErrorV::UnsupportedType(t@),
            Error::InvalidTag(t) => ErrorV::InvalidTag(t@),
            Error::LengthMismatch { expected, actual } => ErrorV::LengthMismatch {
                expected: *expected as int,
                actual: *actual as int,
            },
            Error::ExpectedChar(s) => ErrorV::ExpectedChar(s@),
            Error::IntegerOverflow => ErrorV::IntegerOverflow,
            Error::ValidationFailure(s) => ErrorV::ValidationFailure(s@),
            Error::Custom(s) => ErrorV::Custom(s@),
        }
    }
}

impl Error {
    /// A short human-readable description of the error.  The description
    /// names the error's kind, followed by the offending type signature or
    /// string where the error carries one.
    pub fn message(&self) -> (m: String)
        ensures
            m@ == self@.message_text(),
    {
        match self {
            Error::TypeMismatch(t) => {
                let mut m = String::from_str("type mismatch: ");
                let ts = t.type_string();
                m.append(ts.as_str());
                m
            },
            Error::UnsupportedType(t) => {
                let mut m = String::from_str("type not supported: ");
                let ts = t.type_string();
                m.append(ts.as_str());
                m
            },
            Error::InvalidTag(t) => {
                let mut m = String::from_str("invalid enum tag type: ");
                let ts = t.type_string();
                m.append(ts.as_str());
                m
            },
            Error::LengthMismatch { expected: _, actual: _ } => {
                String::from_str("struct or tuple length mismatch")
            },
            Error::ExpectedChar(s) => {
                let mut m = String::from_str("expected a string with exactly one character: ");
                m.append(s.as_str());
                m
            },
            Error::IntegerOverflow => String::from_str("integer out of range"),
            Error::ValidationFailure(s) => {
                let mut m = String::from_str("malformed path or signature string: ");
                m.append(s.as_str());
                m
            },
            Error::Custom(s) => {
                let mut m = String::new();
                m.append(s.as_str());
                m
            },
        }
    }
}

impl ErrorV {
    /// What [`Error::message`] returns for each kind of error.
    pub open spec fn message_text(self) -> Seq<char> {
        match self {
            ErrorV::TypeMismatch(t) => "type mismatch: "@ + t.sig(),
            ErrorV::UnsupportedType(t) => "type not supported: "@ + t.sig(),
            ErrorV::InvalidTag(t) => "invalid enum tag type: "@ + t.sig(),
            ErrorV::LengthMismatch { expected, actual } => "struct or tuple length mismatch"@,
            ErrorV::ExpectedChar(s) => "expected a string with exactly one character: "@ + s,
            ErrorV::IntegerOverflow => "integer out of range"@,
            ErrorV::ValidationFailure(s) => "malformed path or signature string: "@ + s,
            ErrorV::Custom(s) => s,
        }
    }
}

} // verus!
