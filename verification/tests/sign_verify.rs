use ssb_sign::SigError;
use ssb_sign::canon::canonicalize;
use ssb_sign::keys::{AuthKey, Keypair, PublicKey};
use ssb_sign::protocol::{sign_obj, sign_then_verify, verify_obj};
use ssb_sign::value::{Record, Value};

fn our_keypair() -> (Keypair, PublicKey) {
    let generated = ssb_crypto::Keypair::generate();
    let kp = Keypair::from_base64(&generated.as_base64()).unwrap();
    let pk = kp.public_key();
    (kp, pk)
}

fn post_record(text: &str) -> Record {
    let mut rec = Record::new();
    rec.set("type".to_string(), Value::Str("post".to_string()));
    rec.set("text".to_string(), Value::Str(text.to_string()));
    rec
}

#[test]
fn round_trip_without_authkey() {
    let (kp, pk) = our_keypair();
    let rec = post_record("hello");
    let signed = sign_obj(&kp, None, rec);
    assert_eq!(verify_obj(&pk, None, &signed), Ok(true));
}

#[test]
fn round_trip_with_authkey() {
    let (kp, pk) = our_keypair();
    let ak = AuthKey::from_bytes(vec![7u8; 32]).unwrap();
    let rec = post_record("hello");
    let signed = sign_obj(&kp, Some(&ak), rec);
    assert_eq!(verify_obj(&pk, Some(&ak), &signed), Ok(true));
}

#[test]
fn round_trip_combined_operation() {
    let (kp, pk) = our_keypair();
    let rec = post_record("hello");
    assert_eq!(sign_then_verify(&kp, &pk, None, rec), Ok(true));
}

#[test]
fn prior_signature_field_is_overwritten() {
    let (kp, pk) = our_keypair();
    let mut rec = post_record("hello");
    rec.set("signature".to_string(), Value::Str("stale".to_string()));
    let signed = sign_obj(&kp, None, rec);
    assert_eq!(verify_obj(&pk, None, &signed), Ok(true));
}

#[test]
fn canonicalization_is_deterministic() {
    let rec = post_record("hello");
    let a = canonicalize(&rec, "signature");
    let b = canonicalize(&rec, "signature");
    assert_eq!(a, b);
    let again = post_record("hello");
    assert_eq!(canonicalize(&again, "signature"), a);
}

#[test]
fn signature_field_added_then_removed_changes_nothing() {
    let mut rec = post_record("hello");
    let before = canonicalize(&rec, "signature");
    rec.set("signature".to_string(), Value::Str("placeholder".to_string()));
    rec.remove("signature");
    assert_eq!(canonicalize(&rec, "signature"), before);
}

#[test]
fn signature_field_is_excluded_from_canonical_bytes() {
    let mut r1 = post_record("hello");
    let mut r2 = post_record("hello");
    r1.set("signature".to_string(), Value::Str("one".to_string()));
    r2.set("signature".to_string(), Value::Str("two".to_string()));
    assert_eq!(canonicalize(&r1, "signature"), canonicalize(&r2, "signature"));
}

#[test]
fn authkey_domain_separation() {
    let (kp, pk) = our_keypair();
    let a = AuthKey::from_bytes(vec![1u8; 32]).unwrap();
    let b = AuthKey::from_bytes(vec![2u8; 32]).unwrap();

    let signed_with_a = sign_obj(&kp, Some(&a), post_record("hello"));
    assert_eq!(verify_obj(&pk, None, &signed_with_a), Ok(false));
    assert_eq!(verify_obj(&pk, Some(&b), &signed_with_a), Ok(false));

    let signed_plain = sign_obj(&kp, None, post_record("hello"));
    assert_eq!(verify_obj(&pk, Some(&a), &signed_plain), Ok(false));
}

fn signature_text(rec: &Record) -> String {
    match rec.get("signature") {
        Some(Value::Str(s)) => s.clone(),
        _ => panic!("signed record lacks a signature string"),
    }
}

#[test]
fn tampering_with_a_field_breaks_the_signature() {
    let (kp, pk) = our_keypair();
    let signed = sign_obj(&kp, None, post_record("hello"));
    let sig = signature_text(&signed);

    let mut tampered = post_record("hellO");
    tampered.set("signature".to_string(), Value::Str(sig));
    assert_eq!(verify_obj(&pk, None, &tampered), Ok(false));
}

#[test]
fn tampering_with_a_nested_field_breaks_the_signature() {
    let (kp, pk) = our_keypair();
    let mut rec = Record::new();
    rec.set("type".to_string(), Value::Str("vote".to_string()));
    rec.set(
        "vote".to_string(),
        Value::Obj(vec![
            ("link".to_string(), Value::Str("%abc".to_string())),
            ("value".to_string(), Value::Int(1)),
        ]),
    );
    let signed = sign_obj(&kp, None, rec);
    let sig = signature_text(&signed);

    let mut tampered = Record::new();
    tampered.set("type".to_string(), Value::Str("vote".to_string()));
    tampered.set(
        "vote".to_string(),
        Value::Obj(vec![
            ("link".to_string(), Value::Str("%abc".to_string())),
            ("value".to_string(), Value::Int(-1)),
        ]),
    );
    tampered.set("signature".to_string(), Value::Str(sig));
    assert_eq!(verify_obj(&pk, None, &tampered), Ok(false));
}

#[test]
fn missing_signature_is_an_error_not_false() {
    let (_, pk) = our_keypair();
    let empty = Record::new();
    assert_eq!(verify_obj(&pk, None, &empty), Err(SigError::MissingSignature));
}

#[test]
fn undecodable_signature_is_malformed() {
    let (_, pk) = our_keypair();
    let mut rec = Record::new();
    rec.set("signature".to_string(), Value::Str("not-base64!!".to_string()));
    assert_eq!(verify_obj(&pk, None, &rec), Err(SigError::MalformedSignature));
}

#[test]
fn non_text_signature_is_corrupt() {
    let (_, pk) = our_keypair();
    let mut rec = Record::new();
    rec.set("signature".to_string(), Value::Int(42));
    assert_eq!(verify_obj(&pk, None, &rec), Err(SigError::CorruptSignatureField));
}

#[test]
fn concrete_scenario() {
    let (kp, pk) = our_keypair();
    let signed = sign_obj(&kp, None, post_record("hello"));

    let sig = signature_text(&signed);
    assert!(sig.ends_with(".sig.ed25519"));
    assert_eq!(verify_obj(&pk, None, &signed), Ok(true));

    let mut changed = post_record("hellO");
    changed.set("signature".to_string(), Value::Str(sig));
    assert_eq!(verify_obj(&pk, None, &changed), Ok(false));

    let other = ssb_crypto::Keypair::generate();
    let other_pk = Keypair::from_base64(&other.as_base64()).unwrap().public_key();
    assert_eq!(verify_obj(&other_pk, None, &signed), Ok(false));
}

#[test]
fn verifies_signatures_made_by_the_reference_crypto() {
    let generated = ssb_crypto::Keypair::generate();
    let bytes = canonicalize(&post_record("hello"), "signature");
    let sig = generated.sign(&bytes);
    let text = format!("{}.sig.ed25519", base64::encode(&sig.0[..]));

    let mut signed = post_record("hello");
    signed.set("signature".to_string(), Value::Str(text));
    let pk = Keypair::from_base64(&generated.as_base64()).unwrap().public_key();
    assert_eq!(verify_obj(&pk, None, &signed), Ok(true));
}

#[test]
fn authenticated_payload_matches_the_reference_tag() {
    let ak = AuthKey::from_bytes(vec![5u8; 32]).unwrap();
    let tag = ssb_sign::auth::authenticate(Some(&ak), b"abc".to_vec());
    let reference = ssb_crypto::NetworkKey::from_slice(&[5u8; 32]).unwrap().authenticate(b"abc");
    assert_eq!(tag, reference.0.to_vec());
    assert_eq!(ssb_sign::auth::authenticate(None, b"abc".to_vec()), b"abc".to_vec());
}

#[test]
fn signature_text_agrees_with_the_reference_crypto() {
    let generated = ssb_crypto::Keypair::generate();
    let kp = Keypair::from_base64(&generated.as_base64()).unwrap();
    let signed = sign_obj(&kp, None, post_record("hello"));
    let sig_text = signature_text(&signed);
    let sig = ssb_crypto::Signature::from_base64(&sig_text).unwrap();

    let bytes = canonicalize(&post_record("hello"), "signature");
    assert!(generated.public.verify(&sig, &bytes));
}
