//! The signature codec: signing, verifying, and the tagged text form.
//!
//! A signature is 64 raw bytes from the Ed25519 primitive. Its text form is
//! base64 followed by the literal suffix `.sig.ed25519` naming the scheme;
//! decoding tolerates a missing suffix but the remainder must decode to
//! exactly 64 bytes whose trailing scalar half is in range.

use vstd::prelude::*;
use vstd::string::StrSliceExecFns;
use vstd::string::StringExecFns;
use vstd::utf8::encode_utf8;
use crate::keys::{Keypair, PublicKey, ed25519_point_valid};

verus! {

/// What `ssb_crypto::Keypair::sign` returns: the Ed25519 signature over the
/// message by the keypair, a function of the two alone (Ed25519 signing is
/// deterministic).
pub uninterp spec fn ed25519_sig(kp: Seq<u8>, msg: Seq<u8>) -> Seq<u8>;

/// What `ssb_crypto::PublicKey::verify` returns: whether the signature is
/// the named public key's signature over the message.
pub uninterp spec fn ed25519_verified(pk: Seq<u8>, sig: Seq<u8>, msg: Seq<u8>) -> bool;

/// What `base64::encode` returns for the given bytes: standard-alphabet,
/// padded base64 text.
pub uninterp spec fn b64_encode_of(b: Seq<u8>) -> Seq<char>;

/// What `base64::decode` returns for the given text bytes.
pub uninterp spec fn b64_decode_of(s: Seq<u8>) -> Option<Seq<u8>>;

/// A signature whose trailing scalar half is properly reduced: the form the
/// signing primitive produces, and the only form the verifying primitive
/// accepts without faulting.
pub open spec fn scalar_ok(sig: Seq<u8>) -> bool {
    sig.len() == 64 && sig[63] & 0xe0u8 == 0
}

/// Relies on `ssb_crypto::Keypair::sign`: the deterministic Ed25519
/// signature, 64 bytes with the scalar half reduced, for a 64-byte keypair
/// whose public half is a usable curve point.
#[verifier::external_body]
fn sign_raw(kp: &Vec<u8>, msg: &Vec<u8>) -> (r: Vec<u8>)
    requires
        kp@.len() == 64,
        ed25519_point_valid(kp@.subrange(32, 64)),
    ensures
        r@ == ed25519_sig(kp@, msg@),
        scalar_ok(r@),
{
    let keypair = ssb_crypto::Keypair::from_slice(kp.as_slice()).unwrap();
    keypair.sign(msg.as_slice()).0.to_vec()
}

/// Relies on `ssb_crypto::PublicKey::verify`: whether the signature is the
/// public key's Ed25519 signature over the message, for a key that is a
/// usable curve point and a signature with its scalar half in range.
#[verifier::external_body]
fn verify_raw(pk: &Vec<u8>, sig: &Vec<u8>, msg: &Vec<u8>) -> (r: bool)
    requires
        pk@.len() == 32,
        ed25519_point_valid(pk@),
        scalar_ok(sig@),
    ensures
        r == ed25519_verified(pk@, sig@, msg@),
{
    let key = ssb_crypto::PublicKey::from_slice(pk.as_slice()).unwrap();
    let signature = ssb_crypto::Signature::from_slice(sig.as_slice()).unwrap();
    key.verify(&signature, msg.as_slice())
}

/// Relies on `base64::encode`: standard-alphabet, padded base64 text, a
/// function of the bytes alone.
#[verifier::external_body]
fn b64_encode(b: &Vec<u8>) -> (r: String)
    ensures
        r@ == b64_encode_of(b@),
{
    base64::encode(b.as_slice())
}

/// Decoding `s` gave `r`, and `r` holds exactly the encoded bytes whenever
/// `s` is the text of an encoding.
pub open spec fn decode_inverts_encode(s: Seq<u8>, r: Option<Vec<u8>>) -> bool {
    forall|b: Seq<u8>|
        s == encode_utf8(b64_encode_of(b)) ==> (r matches Some(v) && v@ == b)
}

/// Relies on `base64::decode`: inverts `base64::encode`, so text that is
/// the encoding of some bytes decodes to exactly those bytes, and text it
/// cannot decode yields nothing, as a function of the text alone.
#[verifier::external_body]
fn b64_decode(s: &Vec<u8>) -> (r: Option<Vec<u8>>)
    ensures
        r matches Some(b) ==> b64_decode_of(s@) == Some(b@),
        r is None ==> b64_decode_of(s@) is None,
        decode_inverts_encode(s@, r),
{
    base64::decode(s.as_slice()).ok()
}

/// The scheme suffix of a signature's text form.
pub open spec fn sig_suffix() -> Seq<char> {
    ".sig.ed25519"@
}

/// The UTF-8 bytes of the scheme suffix.
pub open spec fn sig_suffix_bytes() -> Seq<u8> {
    seq![46u8, 115u8, 105u8, 103u8, 46u8, 101u8, 100u8, 50u8, 53u8, 53u8, 49u8, 57u8]
}

pub proof fn lemma_sig_suffix_bytes()
    ensures
        encode_utf8(sig_suffix()) == sig_suffix_bytes(),
        sig_suffix().len() == 12,
{
    reveal_strlit(".sig.ed25519");
    assert(vstd::utf8::is_ascii_chars(sig_suffix()));
    vstd::utf8::is_ascii_chars_encode_utf8(sig_suffix());
    assert(encode_utf8(sig_suffix()) =~= sig_suffix_bytes());
}

/// UTF-8 encoding distributes over concatenation.
pub proof fn lemma_encode_utf8_concat(a: Seq<char>, b: Seq<char>)
    ensures
        encode_utf8(a + b) == encode_utf8(a) + encode_utf8(b),
    decreases a,
{
    if a.len() == 0 {
        assert(a + b =~= b);
        assert(encode_utf8(a) =~= Seq::<u8>::empty());
        assert(encode_utf8(a) + encode_utf8(b) =~= encode_utf8(b));
    } else {
        assert((a + b).drop_first() =~= a.drop_first() + b);
        lemma_encode_utf8_concat(a.drop_first(), b);
        assert(encode_utf8(a + b) =~= encode_utf8(a) + encode_utf8(b));
    }
}

/// The text form of a signature: its base64, then the scheme suffix.
pub open spec fn spec_encode_sig(sig: Seq<u8>) -> Seq<char> {
    b64_encode_of(sig) + sig_suffix()
}

/// What decoding signature text yields: the suffix is stripped when
/// present, and the remainder must decode to 64 bytes with the scalar half
/// in range.
pub open spec fn spec_decode_sig(t: Seq<char>) -> Option<Seq<u8>> {
    let bs = encode_utf8(t);
    let stripped = if has_sig_suffix(bs) {
        bs.subrange(0, bs.len() - 12)
    } else {
        bs
    };
    match b64_decode_of(stripped) {
        None => None,
        Some(b) => if scalar_ok(b) {
            Some(b)
        } else {
            None
        },
    }
}

/// Whether text bytes end with the scheme suffix.
pub open spec fn has_sig_suffix(bs: Seq<u8>) -> bool {
    bs.len() >= 12 && bs.subrange(bs.len() - 12, bs.len() as int) == sig_suffix_bytes()
}

/// Sign the payload bytes with the keypair.
pub fn sign_bytes(kp: &Keypair, msg: &Vec<u8>) -> (r: Vec<u8>)
    ensures
        r@ == ed25519_sig(kp@, msg@),
        scalar_ok(r@),
{
    sign_raw(kp.raw(), msg)
}

/// Whether `sig` is `pk`'s signature over the payload bytes. A signature
/// whose scalar half is out of range is never valid and yields `false`.
pub fn verify_bytes(pk: &PublicKey, sig: &Vec<u8>, msg: &Vec<u8>) -> (r: bool)
    ensures
        scalar_ok(sig@) ==> r == ed25519_verified(pk@, sig@, msg@),
        !scalar_ok(sig@) ==> r == false,
{
    if sig.len() != 64 {
        return false;
    }
    let last = sig[63];
    if last & 0xe0 != 0 {
        return false;
    }
    verify_raw(pk.raw(), sig, msg)
}

/// The tagged base64 text of a signature.
pub fn encode_sig(sig: &Vec<u8>) -> (r: String)
    ensures
        r@ == spec_encode_sig(sig@),
{
    let b = b64_encode(sig);
    b.concat(".sig.ed25519")
}

/// Decoding inverts encoding: text that is the tagged form of an in-range
/// signature decodes to exactly that signature.
pub open spec fn sig_field_reduces(t: Seq<char>, r: Option<Seq<u8>>) -> bool {
    forall|sig: Seq<u8>| (t == spec_encode_sig(sig) && scalar_ok(sig)) ==> r == Some(sig)
}

/// Decode signature text: strip the scheme suffix when present, then
/// decode the base64 remainder into 64 signature bytes.
pub fn decode_sig(t: &str) -> (r: Option<Vec<u8>>)
    ensures
        r matches Some(b) ==> spec_decode_sig(t@) == Some(b@),
        r is None ==> spec_decode_sig(t@) is None,
        sig_field_reduces(t@, spec_decode_sig(t@)),
{
    let mut bs = t.as_bytes_vec();
    let suffix: Vec<u8> = vec![46u8, 115u8, 105u8, 103u8, 46u8, 101u8, 100u8, 50u8, 53u8, 53u8, 49u8, 57u8];
    proof {
        assert(suffix@ =~= sig_suffix_bytes());
    }
    let n = bs.len();
    if n >= 12 {
        let mut matches_suffix = true;
        for j in 0..12usize
            invariant
                n == bs.len() >= 12,
                suffix@ == sig_suffix_bytes(),
                matches_suffix ==> bs@.subrange(n - 12, n as int).subrange(0, j as int)
                    =~= suffix@.subrange(0, j as int),
                !matches_suffix ==> bs@.subrange(n - 12, n as int) != suffix@,
            decreases 12 - j,
        {
            let a = bs[n - 12 + j];
            let b = suffix[j];
            if a != b {
                proof {
                    assert(bs@.subrange(n - 12, n as int)[j as int] == a);
                    assert(bs@.subrange(n - 12, n as int) != suffix@);
                }
                matches_suffix = false;
            } else {
                proof {
                    if matches_suffix {
                        assert(bs@.subrange(n - 12, n as int).subrange(0, j + 1) =~= bs@.subrange(
                            n - 12,
                            n as int,
                        ).subrange(0, j as int).push(a));
                        assert(suffix@.subrange(0, j + 1) =~= suffix@.subrange(0, j as int).push(
                            b,
                        ));
                    }
                }
            }
        }
        proof {
            if matches_suffix {
                assert(bs@.subrange(n - 12, n as int).subrange(0, 12) =~= bs@.subrange(
                    n - 12,
                    n as int,
                ));
                assert(suffix@.subrange(0, 12) =~= suffix@);
            }
        }
        if matches_suffix {
            bs.truncate(n - 12);
            proof {
                assert(has_sig_suffix(encode_utf8(t@)));
            }
        } else {
            proof {
                assert(!has_sig_suffix(encode_utf8(t@)));
            }
        }
    } else {
        proof {
            assert(!has_sig_suffix(encode_utf8(t@)));
        }
    }
    let ghost bs0 = encode_utf8(t@);
    let ghost stripped = if has_sig_suffix(bs0) {
        bs0.subrange(0, bs0.len() - 12)
    } else {
        bs0
    };
    proof {
        assert(bs@ == stripped);
    }
    let dec = b64_decode(&bs);
    proof {
        assert forall|sig: Seq<u8>|
            (t@ == spec_encode_sig(sig) && scalar_ok(sig)) implies spec_decode_sig(t@) == Some(
            sig,
        ) by {
            lemma_sig_suffix_bytes();
            lemma_encode_utf8_concat(b64_encode_of(sig), sig_suffix());
            let enc = encode_utf8(b64_encode_of(sig));
            assert(bs0 == enc + sig_suffix_bytes());
            assert(bs0.subrange(bs0.len() - 12, bs0.len() as int) =~= sig_suffix_bytes());
            assert(has_sig_suffix(bs0));
            assert(stripped =~= enc);
            assert(decode_inverts_encode(stripped, dec));
            assert(dec matches Some(v) && v@ == sig);
            assert(b64_decode_of(stripped) == Some(sig));
        }
    }
    match dec {
        None => None,
        Some(b) => {
            if b.len() != 64 {
                return None;
            }
            let last = b[63];
            if last & 0xe0 != 0 {
                return None;
            }
            Some(b)
        },
    }
}

} // verus!
