use ssb_sign::SigError;
use ssb_sign::canon::canonicalize;
use ssb_sign::codec::{decode_sig, encode_sig};
use ssb_sign::keys::{AuthKey, Keypair, PublicKey};
use ssb_sign::value::{Record, Value};

fn canon_string(rec: &Record) -> String {
    String::from_utf8(canonicalize(rec, "signature")).unwrap()
}

#[test]
fn empty_record_canonicalizes_to_braces() {
    let rec = Record::new();
    assert_eq!(canon_string(&rec), "{}");
}

#[test]
fn flat_record_has_two_space_indentation() {
    let mut rec = Record::new();
    rec.set("type".to_string(), Value::Str("post".to_string()));
    rec.set("text".to_string(), Value::Str("hello".to_string()));
    assert_eq!(canon_string(&rec), "{\n  \"type\": \"post\",\n  \"text\": \"hello\"\n}");
}

#[test]
fn field_order_is_insertion_order() {
    let mut ab = Record::new();
    ab.set("a".to_string(), Value::Int(1));
    ab.set("b".to_string(), Value::Int(2));
    let mut ba = Record::new();
    ba.set("b".to_string(), Value::Int(2));
    ba.set("a".to_string(), Value::Int(1));
    assert_eq!(canon_string(&ab), "{\n  \"a\": 1,\n  \"b\": 2\n}");
    assert_eq!(canon_string(&ba), "{\n  \"b\": 2,\n  \"a\": 1\n}");
}

#[test]
fn nested_values_canonicalize_recursively() {
    let mut rec = Record::new();
    rec.set(
        "content".to_string(),
        Value::Obj(vec![
            ("ok".to_string(), Value::Bool(true)),
            ("none".to_string(), Value::Null),
            ("items".to_string(), Value::Arr(vec![Value::Int(1), Value::Int(-2)])),
        ]),
    );
    assert_eq!(
        canon_string(&rec),
        "{\n  \"content\": {\n    \"ok\": true,\n    \"none\": null,\n    \"items\": [\n      1,\n      -2\n    ]\n  }\n}"
    );
}

#[test]
fn empty_array_and_object_values() {
    let mut rec = Record::new();
    rec.set("arr".to_string(), Value::Arr(Vec::new()));
    rec.set("obj".to_string(), Value::Obj(Vec::new()));
    assert_eq!(canon_string(&rec), "{\n  \"arr\": [],\n  \"obj\": {}\n}");
}

#[test]
fn extreme_integers_format_in_decimal() {
    let mut rec = Record::new();
    rec.set("max".to_string(), Value::Int(i64::MAX));
    rec.set("min".to_string(), Value::Int(i64::MIN));
    rec.set("zero".to_string(), Value::Int(0));
    assert_eq!(
        canon_string(&rec),
        "{\n  \"max\": 9223372036854775807,\n  \"min\": -9223372036854775808,\n  \"zero\": 0\n}"
    );
}

#[test]
fn strings_are_escaped_like_structured_text() {
    let mut rec = Record::new();
    rec.set("s".to_string(), Value::Str("a\"b\\c\nd\te\r\u{8}\u{c}\u{1}\u{1f}".to_string()));
    assert_eq!(
        canon_string(&rec),
        "{\n  \"s\": \"a\\\"b\\\\c\\nd\\te\\r\\b\\f\\u0001\\u001f\"\n}"
    );
}

#[test]
fn non_ascii_text_passes_through_as_utf8() {
    let mut rec = Record::new();
    rec.set("s".to_string(), Value::Str("héllo ☃".to_string()));
    assert_eq!(canon_string(&rec), "{\n  \"s\": \"héllo ☃\"\n}");
}

#[test]
fn excluded_field_is_omitted_entirely() {
    let mut rec = Record::new();
    rec.set("a".to_string(), Value::Int(1));
    rec.set("signature".to_string(), Value::Str("sig".to_string()));
    rec.set("b".to_string(), Value::Int(2));
    assert_eq!(canon_string(&rec), "{\n  \"a\": 1,\n  \"b\": 2\n}");
    // The record itself keeps the field.
    assert!(rec.has("signature"));
}

#[test]
fn nested_signature_fields_are_not_excluded() {
    let mut rec = Record::new();
    rec.set(
        "inner".to_string(),
        Value::Obj(vec![("signature".to_string(), Value::Str("keep".to_string()))]),
    );
    rec.set("signature".to_string(), Value::Str("drop".to_string()));
    assert_eq!(canon_string(&rec), "{\n  \"inner\": {\n    \"signature\": \"keep\"\n  }\n}");
}

#[test]
fn signature_text_encodes_base64_with_suffix() {
    let sig = encode_sig(&b"hello".to_vec());
    assert_eq!(sig, "aGVsbG8=.sig.ed25519");
}

#[test]
fn signature_text_decodes_with_or_without_suffix() {
    let bytes = vec![7u8; 64];
    let text = base64::encode(&bytes);
    assert_eq!(decode_sig(&format!("{}.sig.ed25519", text)), Some(bytes.clone()));
    assert_eq!(decode_sig(&text), Some(bytes));
}

#[test]
fn signature_text_of_wrong_length_is_refused() {
    assert_eq!(decode_sig("aGVsbG8=.sig.ed25519"), None);
    assert_eq!(decode_sig(""), None);
    assert_eq!(decode_sig(".sig.ed25519"), None);
}

#[test]
fn signature_with_out_of_range_scalar_is_refused() {
    let mut bytes = vec![0u8; 64];
    bytes[63] = 0xe0;
    let text = format!("{}.sig.ed25519", base64::encode(&bytes));
    assert_eq!(decode_sig(&text), None);
}

#[test]
fn keypair_decodes_from_base64_with_optional_suffix() {
    let text = "R6DKoOCt1Cj/IB2/ocvj2Eyp8AgmFdoJ9hH2TO4Tl8Yfapd5Lmw4pSpoY0WBEnqpHjz6UB4/QL2Wr0hWVAyi1w==";
    assert!(Keypair::from_base64(text).is_ok());
    assert!(Keypair::from_base64(&format!("{}.ed25519", text)).is_ok());
    assert_eq!(Keypair::from_base64("not base64").unwrap_err(), SigError::InvalidKeyEncoding);
    assert_eq!(Keypair::from_base64("aGVsbG8=").unwrap_err(), SigError::InvalidKeyEncoding);
}

#[test]
fn public_key_decodes_from_base64_with_sigil_and_suffix() {
    let text = "@H2qXeS5sOKUqaGNFgRJ6qR48+lAeP0C9lq9IVlQMotc=.ed25519";
    assert!(PublicKey::from_base64(text).is_ok());
    assert_eq!(PublicKey::from_base64("@@@").unwrap_err(), SigError::InvalidKeyEncoding);
}

#[test]
fn public_key_that_is_no_curve_point_is_refused() {
    // Find 32 bytes that the reference implementation refuses as a point,
    // then check that construction refuses their base64 too.
    let mut bytes = [0u8; 32];
    for b in 0..=255u8 {
        bytes[0] = b;
        if ed25519_dalek::PublicKey::from_bytes(&bytes).is_err() {
            let text = base64::encode(&bytes);
            assert_eq!(
                PublicKey::from_base64(&text).unwrap_err(),
                SigError::InvalidKeyEncoding
            );
            return;
        }
    }
    panic!("every candidate decoded as a point");
}

#[test]
fn authkey_requires_exactly_32_bytes() {
    assert!(AuthKey::from_bytes(vec![9u8; 32]).is_ok());
    assert_eq!(AuthKey::from_bytes(vec![9u8; 31]).unwrap_err(), SigError::InvalidKeyLength);
    assert_eq!(AuthKey::from_bytes(Vec::new()).unwrap_err(), SigError::InvalidKeyLength);
}

#[test]
fn authkey_decodes_from_base64() {
    let text = base64::encode(&[3u8; 32]);
    assert!(AuthKey::from_base64(&text).is_ok());
    assert_eq!(AuthKey::from_base64("!!!").unwrap_err(), SigError::InvalidKeyEncoding);
}

#[test]
fn record_field_operations() {
    let mut rec = Record::new();
    assert_eq!(rec.len(), 0);
    assert!(!rec.has("a"));
    rec.set("a".to_string(), Value::Int(1));
    rec.set("b".to_string(), Value::Int(2));
    rec.set("a".to_string(), Value::Int(3));
    assert_eq!(rec.len(), 2);
    assert!(matches!(rec.get("a"), Some(Value::Int(3))));
    rec.remove("a");
    assert_eq!(rec.len(), 1);
    assert!(rec.get("a").is_none());
    rec.remove("missing");
    assert_eq!(rec.len(), 1);
}

#[test]
fn from_value_accepts_only_objects() {
    let rec = Record::from_value(Value::Obj(vec![
        ("a".to_string(), Value::Int(1)),
        ("a".to_string(), Value::Int(2)),
        ("b".to_string(), Value::Int(3)),
    ]))
    .unwrap();
    assert_eq!(rec.len(), 2);
    assert!(matches!(rec.get("a"), Some(Value::Int(2))));

    assert_eq!(
        Record::from_value(Value::Str("nope".to_string())).unwrap_err(),
        SigError::ExpectedObject
    );
    assert_eq!(
        Record::from_value(Value::Arr(Vec::new())).unwrap_err(),
        SigError::ExpectedObject
    );
}

#[test]
fn errors_describe_themselves() {
    assert_eq!(
        SigError::MissingSignature.describe(),
        "the signature field is missing from the record"
    );
    assert_eq!(
        SigError::MalformedSignature.describe(),
        "unable to decode the signature base64 string"
    );
}
