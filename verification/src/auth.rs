//! The optional pre-authentication step.
//!
//! When an authentication key is supplied, the bytes that get signed are a
//! keyed authentication tag over the canonical bytes rather than the bytes
//! themselves; without one, the bytes pass through unchanged. Signing and
//! verification must make the same choice or verification fails.

use vstd::prelude::*;
use crate::keys::AuthKey;

verus! {

/// What `ssb_crypto::NetworkKey::authenticate` returns: the 32-byte keyed
/// authentication tag over the message, a function of the key and the
/// message alone.
pub uninterp spec fn hmac_tag(key: Seq<u8>, msg: Seq<u8>) -> Seq<u8>;

/// Relies on `ssb_crypto::NetworkKey::authenticate`: the keyed
/// authentication tag over the message, 32 bytes, total for a 32-byte key.
#[verifier::external_body]
fn hmac_raw(key: &Vec<u8>, msg: &Vec<u8>) -> (r: Vec<u8>)
    requires
        key@.len() == 32,
    ensures
        r@ == hmac_tag(key@, msg@),
        r@.len() == 32,
{
    let k = ssb_crypto::NetworkKey::from_slice(key.as_slice()).unwrap();
    k.authenticate(msg.as_slice()).0.to_vec()
}

/// The model of an optional authentication key.
pub open spec fn ak_view(ak: Option<&AuthKey>) -> Option<Seq<u8>> {
    match ak {
        None => None,
        Some(k) => Some(k@),
    }
}

/// The bytes that get signed: the canonical bytes themselves without an
/// authentication key, the tag over them with one.
pub open spec fn spec_payload(ak: Option<Seq<u8>>, msg: Seq<u8>) -> Seq<u8> {
    match ak {
        None => msg,
        Some(key) => hmac_tag(key, msg),
    }
}

/// Apply the optional pre-authentication step to the canonical bytes.
pub fn authenticate(ak: Option<&AuthKey>, msg: Vec<u8>) -> (r: Vec<u8>)
    ensures
        r@ == spec_payload(ak_view(ak), msg@),
{
    match ak {
        None => msg,
        Some(key) => hmac_raw(key.raw(), &msg),
    }
}

} // verus!
