//! Key material: keypairs, public keys, and the shared authentication key.
//!
//! Each kind of key is a fixed-length byte string with a base64 text
//! encoding. A keypair is 64 bytes (the 32-byte secret half followed by the
//! 32-byte public half); a public key and an authentication key are 32 bytes
//! each. Construction validates length, encoding, and (for signing and
//! verification keys) that the public bytes name a usable curve point, so
//! that the signing and verifying operations are total on constructed keys.

use vstd::prelude::*;
use crate::SigError;

verus! {

/// What `ssb_crypto::Keypair::from_base64` returns for the given text, as
/// the 64 secret-then-public bytes: base64 decoding with tolerance for an
/// optional key-type suffix.
pub uninterp spec fn kp_b64_decode(s: Seq<char>) -> Option<Seq<u8>>;

/// What `ssb_crypto::PublicKey::from_base64` returns for the given text:
/// base64 decoding with tolerance for an optional sigil prefix and key-type
/// suffix.
pub uninterp spec fn pk_b64_decode(s: Seq<char>) -> Option<Seq<u8>>;

/// What `ssb_crypto::NetworkKey::from_base64` returns for the given text.
pub uninterp spec fn authkey_b64_decode(s: Seq<char>) -> Option<Seq<u8>>;

/// Whether 32 bytes name a usable Ed25519 curve point: whether
/// `ed25519_dalek::PublicKey::from_bytes` accepts them.
pub uninterp spec fn ed25519_point_valid(pk: Seq<u8>) -> bool;

/// Relies on `ssb_crypto::Keypair::from_base64`: decodes base64 text (with
/// an optional suffix) into the 64-byte secret-then-public key pair, and
/// returns nothing on any other input.
#[verifier::external_body]
fn kp_from_base64(s: &str) -> (r: Option<Vec<u8>>)
    ensures
        r matches Some(b) ==> kp_b64_decode(s@) == Some(b@) && b@.len() == 64,
        r is None ==> kp_b64_decode(s@) is None,
{
    ssb_crypto::Keypair::from_base64(s).map(|kp| {
        let mut v = kp.secret.0.to_vec();
        v.extend_from_slice(&kp.public.0);
        v
    })
}

/// Relies on `ssb_crypto::PublicKey::from_base64`: decodes base64 text
/// (with an optional sigil prefix and suffix) into the 32 public key bytes,
/// and returns nothing on any other input.
#[verifier::external_body]
fn pk_from_base64(s: &str) -> (r: Option<Vec<u8>>)
    ensures
        r matches Some(b) ==> pk_b64_decode(s@) == Some(b@) && b@.len() == 32,
        r is None ==> pk_b64_decode(s@) is None,
{
    ssb_crypto::PublicKey::from_base64(s).map(|pk| pk.0.to_vec())
}

/// Relies on `ssb_crypto::NetworkKey::from_base64`: decodes base64 text
/// into the 32 authentication key bytes, and returns nothing on any other
/// input.
#[verifier::external_body]
fn authkey_from_base64(s: &str) -> (r: Option<Vec<u8>>)
    ensures
        r matches Some(b) ==> authkey_b64_decode(s@) == Some(b@) && b@.len() == 32,
        r is None ==> authkey_b64_decode(s@) is None,
{
    ssb_crypto::NetworkKey::from_base64(s).map(|k| k.0.to_vec())
}

/// Relies on `ed25519_dalek::PublicKey::from_bytes`: accepts exactly the
/// 32-byte strings that decompress to a curve point, the keys that the
/// signing and verifying primitives can use.
#[verifier::external_body]
fn point_check(b: &Vec<u8>) -> (r: bool)
    requires
        b@.len() == 32,
    ensures
        r == ed25519_point_valid(b@),
{
    ed25519_dalek::PublicKey::from_bytes(b.as_slice()).is_ok()
}

/// An Ed25519 keypair: the 32-byte secret half followed by the 32-byte
/// public half.
#[derive(Debug)]
pub struct Keypair {
    bytes: Vec<u8>,
}

impl View for Keypair {
    type V = Seq<u8>;

    closed spec fn view(&self) -> Seq<u8> {
        self.bytes@
    }
}

impl Keypair {
    #[verifier::type_invariant]
    spec fn inv(self) -> bool {
        self.bytes@.len() == 64 && ed25519_point_valid(self.bytes@.subrange(32, 64))
    }

    /// The public half of the keypair.
    pub open spec fn spec_public(&self) -> Seq<u8> {
        self@.subrange(32, 64)
    }

    /// Construct a keypair from its base64 text. Fails when the text does
    /// not decode to 64 bytes, or when the public half is not a usable
    /// curve point.
    pub fn from_base64(s: &str) -> (r: Result<Keypair, SigError>)
        ensures
            match r {
                Ok(kp) => {
                    &&& kp_b64_decode(s@) matches Some(b) && kp@ == b
                    &&& kp@.len() == 64
                    &&& ed25519_point_valid(kp.spec_public())
                },
                Err(e) => {
                    &&& e == SigError::InvalidKeyEncoding
                    &&& (kp_b64_decode(s@) matches Some(b) ==> !ed25519_point_valid(
                        b.subrange(32, 64),
                    ))
                },
            },
    {
        match kp_from_base64(s) {
            None => Err(SigError::InvalidKeyEncoding),
            Some(bytes) => {
                let mut public: Vec<u8> = Vec::new();
                let n = bytes.len();
                for i in 32..n
                    invariant
                        n == bytes.len() == 64,
                        public@ == bytes@.subrange(32, i as int),
                    decreases n - i,
                {
                    public.push(bytes[i]);
                    proof {
                        assert(bytes@.subrange(32, i + 1) =~= bytes@.subrange(32, i as int).push(
                            bytes@[i as int],
                        ));
                    }
                }
                proof {
                    assert(public@ =~= bytes@.subrange(32, 64));
                }
                if point_check(&public) {
                    Ok(Keypair { bytes })
                } else {
                    Err(SigError::InvalidKeyEncoding)
                }
            },
        }
    }

    /// The public key of this keypair.
    pub fn public_key(&self) -> (r: PublicKey)
        ensures
            r@ == self.spec_public(),
    {
        proof {
            use_type_invariant(&*self);
        }
        let mut public: Vec<u8> = Vec::new();
        let n = self.bytes.len();
        for i in 32..n
            invariant
                n == self.bytes.len() == 64,
                public@ == self.bytes@.subrange(32, i as int),
            decreases n - i,
        {
            public.push(self.bytes[i]);
            proof {
                assert(self.bytes@.subrange(32, i + 1) =~= self.bytes@.subrange(
                    32,
                    i as int,
                ).push(self.bytes@[i as int]));
            }
        }
        proof {
            assert(public@ =~= self.bytes@.subrange(32, 64));
        }
        PublicKey { bytes: public }
    }

    /// The keypair's bytes, for callers that need to pass them on.
    pub(crate) fn raw(&self) -> (r: &Vec<u8>)
        ensures
            r@ == self@,
            r@.len() == 64,
            ed25519_point_valid(self@.subrange(32, 64)),
    {
        proof {
            use_type_invariant(&*self);
        }
        &self.bytes
    }
}

/// An Ed25519 public key: 32 bytes naming a usable curve point.
#[derive(Debug)]
pub struct PublicKey {
    bytes: Vec<u8>,
}

impl View for PublicKey {
    type V = Seq<u8>;

    closed spec fn view(&self) -> Seq<u8> {
        self.bytes@
    }
}

impl PublicKey {
    #[verifier::type_invariant]
    spec fn inv(self) -> bool {
        self.bytes@.len() == 32 && ed25519_point_valid(self.bytes@)
    }

    /// Construct a public key from its base64 text. Fails when the text
    /// does not decode to 32 bytes, or when the bytes are not a usable
    /// curve point.
    pub fn from_base64(s: &str) -> (r: Result<PublicKey, SigError>)
        ensures
            match r {
                Ok(pk) => {
                    &&& pk_b64_decode(s@) matches Some(b) && pk@ == b
                    &&& pk@.len() == 32
                    &&& ed25519_point_valid(pk@)
                },
                Err(e) => {
                    &&& e == SigError::InvalidKeyEncoding
                    &&& (pk_b64_decode(s@) matches Some(b) ==> !ed25519_point_valid(b))
                },
            },
    {
        match pk_from_base64(s) {
            None => Err(SigError::InvalidKeyEncoding),
            Some(bytes) => {
                if point_check(&bytes) {
                    Ok(PublicKey { bytes })
                } else {
                    Err(SigError::InvalidKeyEncoding)
                }
            },
        }
    }

    /// The key's bytes, for callers that need to pass them on.
    pub(crate) fn raw(&self) -> (r: &Vec<u8>)
        ensures
            r@ == self@,
            r@.len() == 32,
            ed25519_point_valid(self@),
    {
        proof {
            use_type_invariant(&*self);
        }
        &self.bytes
    }
}

/// The shared authentication key: exactly 32 bytes.
#[derive(Debug)]
pub struct AuthKey {
    bytes: Vec<u8>,
}

impl View for AuthKey {
    type V = Seq<u8>;

    closed spec fn view(&self) -> Seq<u8> {
        self.bytes@
    }
}

impl AuthKey {
    #[verifier::type_invariant]
    spec fn inv(self) -> bool {
        self.bytes@.len() == 32
    }

    /// Construct an authentication key from a binary buffer. Fails unless
    /// the buffer holds exactly 32 bytes.
    pub fn from_bytes(bytes: Vec<u8>) -> (r: Result<AuthKey, SigError>)
        ensures
            match r {
                Ok(k) => k@ == bytes@ && bytes@.len() == 32,
                Err(e) => e == SigError::InvalidKeyLength && bytes@.len() != 32,
            },
    {
        if bytes.len() == 32 {
            Ok(AuthKey { bytes })
        } else {
            Err(SigError::InvalidKeyLength)
        }
    }

    /// Construct an authentication key from its base64 text.
    pub fn from_base64(s: &str) -> (r: Result<AuthKey, SigError>)
        ensures
            match r {
                Ok(k) => authkey_b64_decode(s@) == Some(k@),
                Err(e) => e == SigError::InvalidKeyEncoding && authkey_b64_decode(s@) is None,
            },
    {
        match authkey_from_base64(s) {
            None => Err(SigError::InvalidKeyEncoding),
            Some(bytes) => Ok(AuthKey { bytes }),
        }
    }

    /// The key's bytes, for callers that need to pass them on.
    pub(crate) fn raw(&self) -> (r: &Vec<u8>)
        ensures
            r@ == self@,
            r@.len() == 32,
    {
        proof {
            use_type_invariant(&*self);
        }
        &self.bytes
    }
}

} // verus!
