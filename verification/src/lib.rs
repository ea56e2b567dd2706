//! Canonical object signing and verification for append-only, peer-replicated
//! message feeds.
//!
//! A record is an ordered mapping from field names to structured values. It is
//! signed by serializing its fields (excluding any `"signature"` field) into a
//! deterministic byte sequence, optionally passing those bytes through a keyed
//! authentication step, and signing the result with an Ed25519 keypair. The
//! signature is stored back into the record as base64 text tagged with the
//! `.sig.ed25519` suffix. Verification reverses the same path.

use vstd::prelude::*;

pub mod auth;
pub mod canon;
pub mod codec;
pub mod keys;
pub mod protocol;
pub mod value;

verus! {

/// The failures that construction and verification distinguish from a plain
/// cryptographic mismatch (which is a `false` result, never an error).
#[derive(Clone, Copy, Debug, PartialEq, Eq, Structural)]
pub enum SigError {
    /// Key text is not valid base64, or decodes to bytes that cannot be a key.
    InvalidKeyEncoding,
    /// A binary key buffer has the wrong length.
    InvalidKeyLength,
    /// The value given as a record is not an object.
    ExpectedObject,
    /// The record has no `"signature"` field.
    MissingSignature,
    /// The record's `"signature"` field is not a string.
    CorruptSignatureField,
    /// The signature text does not decode to signature bytes.
    MalformedSignature,
}

/// The description that `SigError::describe` returns for each failure.
pub open spec fn spec_describe(e: SigError) -> Seq<char> {
    match e {
        SigError::InvalidKeyEncoding => "cannot decode the key bytes from base64"@,
        SigError::InvalidKeyLength => "key buffer must be 32 bytes"@,
        SigError::ExpectedObject => "expected the record to be an object"@,
        SigError::MissingSignature => "the signature field is missing from the record"@,
        SigError::CorruptSignatureField => "the signature field is corrupted or not a string"@,
        SigError::MalformedSignature => "unable to decode the signature base64 string"@,
    }
}

impl SigError {
    /// A human-readable description of the failure.
    pub fn describe(&self) -> (r: String)
        ensures
            r@ == spec_describe(*self),
    {
        match self {
            SigError::InvalidKeyEncoding => "cannot decode the key bytes from base64".to_owned(),
            SigError::InvalidKeyLength => "key buffer must be 32 bytes".to_owned(),
            SigError::ExpectedObject => "expected the record to be an object".to_owned(),
            SigError::MissingSignature => "the signature field is missing from the record".to_owned(),
            SigError::CorruptSignatureField => "the signature field is corrupted or not a string".to_owned(),
            SigError::MalformedSignature => "unable to decode the signature base64 string".to_owned(),
        }
    }
}

} // verus!
