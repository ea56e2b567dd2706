//! The two public operations: sign a record, verify a signed record.
//!
//! Signing canonicalizes the record without its `"signature"` field, applies
//! the optional pre-authentication step, signs the result, and writes the
//! tagged text of the signature into the `"signature"` field. Verification
//! reverses the path and distinguishes structural failures (missing or
//! corrupt signature field, undecodable signature text) from a plain
//! cryptographic mismatch, which is a `false` result.

use vstd::prelude::*;
use crate::SigError;
use crate::auth::{ak_view, authenticate, spec_payload};
use crate::canon::{canon_record, canonicalize, lemma_set_then_strip};
use crate::codec::{
    decode_sig, ed25519_sig, ed25519_verified, encode_sig, scalar_ok, sig_field_reduces,
    sign_bytes, spec_decode_sig, spec_encode_sig, verify_bytes,
};
use crate::keys::{AuthKey, Keypair, PublicKey};
use crate::value::{
    FieldsV, Record, Value, ValueV, has_key, key_index, lemma_set_key_lookup, set_key,
};

verus! {

/// The reserved field name that carries the signature.
pub open spec fn sig_field() -> Seq<char> {
    "signature"@
}

/// The model of signing: the record with its `"signature"` field set to the
/// tagged text of the signature over the authenticated canonical bytes of
/// the other fields.
pub open spec fn spec_sign_obj(kp: Seq<u8>, ak: Option<Seq<u8>>, fields: FieldsV) -> FieldsV {
    let msg = canon_record(fields, sig_field());
    let sig = ed25519_sig(kp, spec_payload(ak, msg));
    set_key(fields, sig_field(), ValueV::Str(spec_encode_sig(sig)))
}

/// The model of verification, with the exact failure taxonomy: no
/// `"signature"` field, a non-text one, and undecodable text are the three
/// errors; otherwise the result is the primitive's answer on the decoded
/// signature and the authenticated canonical bytes of the other fields.
pub open spec fn spec_verify_obj(pk: Seq<u8>, ak: Option<Seq<u8>>, fields: FieldsV) -> Result<
    bool,
    SigError,
> {
    if !has_key(fields, sig_field()) {
        Err(SigError::MissingSignature)
    } else {
        match fields[key_index(fields, sig_field())].1 {
            ValueV::Str(t) => match spec_decode_sig(t) {
                None => Err(SigError::MalformedSignature),
                Some(sig) => Ok(
                    ed25519_verified(pk, sig, spec_payload(ak, canon_record(fields, sig_field()))),
                ),
            },
            _ => Err(SigError::CorruptSignatureField),
        }
    }
}

/// Sign the record: its `"signature"` field (ignored and overwritten if
/// already present) is set to the signature text and the record is
/// returned.
pub fn sign_obj(kp: &Keypair, ak: Option<&AuthKey>, rec: Record) -> (r: Record)
    requires
        rec.wf(),
    ensures
        r@ == spec_sign_obj(kp@, ak_view(ak), rec@),
        r.wf(),
        scalar_ok(ed25519_sig(kp@, spec_payload(ak_view(ak), canon_record(rec@, sig_field())))),
{
    let msg = canonicalize(&rec, "signature");
    let payload = authenticate(ak, msg);
    let sig = sign_bytes(kp, &payload);
    let text = encode_sig(&sig);
    let mut rec = rec;
    rec.set("signature".to_owned(), Value::Str(text));
    rec
}

/// Whether `r` is the reduced verification result for any signature whose
/// tagged text stands in the record's `"signature"` field.
pub open spec fn verify_reduces(
    pk: Seq<u8>,
    ak: Option<Seq<u8>>,
    fields: FieldsV,
    r: Result<bool, SigError>,
) -> bool {
    forall|sig: Seq<u8>|
        (has_key(fields, sig_field()) && fields[key_index(fields, sig_field())].1 == ValueV::Str(
            spec_encode_sig(sig),
        ) && scalar_ok(sig)) ==> r == Ok::<bool, SigError>(
            ed25519_verified(pk, sig, spec_payload(ak, canon_record(fields, sig_field()))),
        )
}

/// Verify the record's `"signature"` field against the public key. The
/// record is only read. Structural failures are errors; a cryptographic
/// mismatch is `Ok(false)`.
pub fn verify_obj(pk: &PublicKey, ak: Option<&AuthKey>, rec: &Record) -> (r: Result<
    bool,
    SigError,
>)
    requires
        rec.wf(),
    ensures
        r == spec_verify_obj(pk@, ak_view(ak), rec@),
        verify_reduces(pk@, ak_view(ak), rec@, r),
{
    match rec.get("signature") {
        None => Err(SigError::MissingSignature),
        Some(v) => match v {
            Value::Str(t) => {
                let sig_opt = decode_sig(t.as_str());
                let msg = canonicalize(rec, "signature");
                let payload = authenticate(ak, msg);
                match sig_opt {
                    None => {
                        proof {
                            assert forall|sig: Seq<u8>|
                                (has_key(rec@, sig_field()) && rec@[key_index(
                                    rec@,
                                    sig_field(),
                                )].1 == ValueV::Str(spec_encode_sig(sig)) && scalar_ok(
                                    sig,
                                )) implies false by {
                                assert(t@ == spec_encode_sig(sig));
                                assert(sig_field_reduces(t@, spec_decode_sig(t@)));
                            }
                        }
                        Err(SigError::MalformedSignature)
                    },
                    Some(sig) => {
                        let ok = verify_bytes(pk, &sig, &payload);
                        proof {
                            assert forall|s: Seq<u8>|
                                (has_key(rec@, sig_field()) && rec@[key_index(
                                    rec@,
                                    sig_field(),
                                )].1 == ValueV::Str(spec_encode_sig(s)) && scalar_ok(
                                    s,
                                )) implies Ok::<bool, SigError>(ok) == Ok::<bool, SigError>(
                                ed25519_verified(
                                    pk@,
                                    s,
                                    spec_payload(ak_view(ak), canon_record(rec@, sig_field())),
                                ),
                            ) by {
                                assert(t@ == spec_encode_sig(s));
                                assert(sig_field_reduces(t@, spec_decode_sig(t@)));
                                assert(spec_decode_sig(t@) == Some(s));
                                assert(sig@ == s);
                            }
                        }
                        Ok(ok)
                    },
                }
            },
            _ => Err(SigError::CorruptSignatureField),
        },
    }
}

/// Round trip: verifying a record right after signing it reduces to the
/// primitive's check of the very signature that was produced, over the very
/// bytes that were signed — the canonicalization, authentication, and
/// signature-text paths of the two operations agree exactly. That check
/// succeeding for a keypair and its own public key is the signing
/// primitive's guarantee, exercised by the tests.
pub fn sign_then_verify(kp: &Keypair, pk: &PublicKey, ak: Option<&AuthKey>, rec: Record) -> (r:
    Result<bool, SigError>)
    requires
        rec.wf(),
    ensures
        r == Ok::<bool, SigError>(
            ed25519_verified(
                pk@,
                ed25519_sig(kp@, spec_payload(ak_view(ak), canon_record(rec@, sig_field()))),
                spec_payload(ak_view(ak), canon_record(rec@, sig_field())),
            ),
        ),
{
    let ghost fields = rec@;
    let signed = sign_obj(kp, ak, rec);
    let r = verify_obj(pk, ak, &signed);
    proof {
        let msg = canon_record(fields, sig_field());
        let sig = ed25519_sig(kp@, spec_payload(ak_view(ak), msg));
        let text = ValueV::Str(spec_encode_sig(sig));
        lemma_set_key_lookup(fields, sig_field(), text);
        assert(signed@[key_index(signed@, sig_field())].1 == ValueV::Str(spec_encode_sig(sig)));
        lemma_set_then_strip(fields, sig_field(), text);
        assert(canon_record(signed@, sig_field()) == canon_record(fields, sig_field()));
    }
    r
}

} // verus!
