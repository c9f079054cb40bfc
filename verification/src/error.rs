//! Errors of identity parsing and integrity checks.

use vstd::prelude::*;

verus! {

/// Core parsing and integrity errors.
#[derive(Clone, Copy, Debug, PartialEq, Eq, Structural)]
pub enum CoreError {
    /// Reference was empty, too long, or contained controls.
    InvalidReference,
    /// Ecosystem prefix was not supported.
    UnsupportedEcosystem,
    /// Component name was invalid for its ecosystem.
    InvalidName,
    /// Requested version was malformed.
    InvalidVersion,
    /// URL was malformed or used an unsafe scheme/shape.
    InvalidUrl,
    /// Digest was not a lowercase prefixed SHA-256.
    InvalidDigest,
    /// Canonical JSON only accepts JSON values.
    CanonicalType,
    /// Bound hash did not match recomputed security fields.
    HashMismatch,
}

/// The message that describes each error.
pub open spec fn core_message(e: CoreError) -> Seq<char> {
    match e {
        CoreError::InvalidReference => "invalid component reference"@,
        CoreError::UnsupportedEcosystem => "unsupported component ecosystem"@,
        CoreError::InvalidName => "invalid component name"@,
        CoreError::InvalidVersion => "invalid component version"@,
        CoreError::InvalidUrl => "invalid component URL"@,
        CoreError::InvalidDigest => "invalid SHA-256 digest"@,
        CoreError::CanonicalType => "canonical JSON value had an unsupported shape"@,
        CoreError::HashMismatch => "integrity hash mismatch"@,
    }
}

impl CoreError {
    /// The error's message.
    pub fn message(&self) -> (s: &'static str)
        ensures
            s@ == core_message(*self),
    {
        match self {
            CoreError::InvalidReference => "invalid component reference",
            CoreError::UnsupportedEcosystem => "unsupported component ecosystem",
            CoreError::InvalidName => "invalid component name",
            CoreError::InvalidVersion => "invalid component version",
            CoreError::InvalidUrl => "invalid component URL",
            CoreError::InvalidDigest => "invalid SHA-256 digest",
            CoreError::CanonicalType => "canonical JSON value had an unsupported shape",
            CoreError::HashMismatch => "integrity hash mismatch",
        }
    }
}

} // verus!
