use imdl_core::bencode::{decode, encode, DecodeError, DecodeErrorKind, Value};
use imdl_core::md5_digest::Md5Digest;

fn b(s: &str) -> Vec<u8> {
    s.as_bytes().to_vec()
}

#[test]
fn ser() {
    let digest = Md5Digest {
        bytes: [0, 1, 2, 3, 4, 5, 6, 7, 8, 9, 10, 11, 12, 13, 14, 15],
    };

    let bytes = encode(&Value::Bytes(digest.to_hex()));

    assert_eq!(
        std::str::from_utf8(&bytes).unwrap(),
        "32:000102030405060708090a0b0c0d0e0f"
    );

    let string_bytes = bendy::serde::ser::to_bytes(&"000102030405060708090a0b0c0d0e0f").unwrap();

    assert_eq!(bytes, string_bytes);
}

#[test]
fn encode_scalars() {
    assert_eq!(encode(&Value::Integer(0)), b("i0e"));
    assert_eq!(encode(&Value::Integer(42)), b("i42e"));
    assert_eq!(encode(&Value::Integer(-7)), b("i-7e"));
    assert_eq!(encode(&Value::Bytes(b("spam"))), b("4:spam"));
    assert_eq!(encode(&Value::Bytes(Vec::new())), b("0:"));
}

#[test]
fn encode_nested() {
    let v = Value::Dict(vec![
        (b("a"), Value::List(vec![Value::Integer(1), Value::Bytes(b("x"))])),
        (b("b"), Value::Dict(Vec::new())),
    ]);
    assert_eq!(encode(&v), b("d1:ali1e1:xe1:bdee"));
}

#[test]
fn decode_round_trip() {
    let input = b("d8:announce3:url4:infod6:lengthi5e4:name1:xee");
    let v = decode(&input).unwrap();
    assert_eq!(encode(&v), input);
    let again = decode(&encode(&v)).unwrap();
    assert_eq!(again, v);
}

#[test]
fn decode_rejects_leading_zero() {
    assert_eq!(
        decode(&b("i03e")),
        Err(DecodeError { position: 1, kind: DecodeErrorKind::BadNumber })
    );
    assert!(decode(&b("01:a")).is_err());
}

#[test]
fn decode_rejects_negative_zero() {
    assert!(decode(&b("i-0e")).is_err());
    assert_eq!(decode(&b("i-3e")), Ok(Value::Integer(-3)));
}

#[test]
fn decode_rejects_unsorted_and_duplicate_keys() {
    assert_eq!(
        decode(&b("d1:bi1e1:ai2ee")).unwrap_err().kind,
        DecodeErrorKind::UnsortedKey
    );
    assert_eq!(
        decode(&b("d1:ai1e1:ai2ee")).unwrap_err().kind,
        DecodeErrorKind::UnsortedKey
    );
}

#[test]
fn decode_rejects_trailing_and_truncated() {
    assert_eq!(
        decode(&b("i1ei2e")),
        Err(DecodeError { position: 3, kind: DecodeErrorKind::TrailingData })
    );
    assert_eq!(decode(&b("l1:a")).unwrap_err().kind, DecodeErrorKind::UnexpectedEnd);
    assert_eq!(decode(&b("5:abc")).unwrap_err().kind, DecodeErrorKind::UnexpectedEnd);
    assert_eq!(decode(&b("x")).unwrap_err().kind, DecodeErrorKind::UnexpectedByte);
    assert_eq!(decode(&Vec::new()).unwrap_err().kind, DecodeErrorKind::UnexpectedEnd);
}

#[test]
fn md5_hex_round_trip() {
    let d = Md5Digest::from_hex("000102030405060708090a0b0c0d0e0f");
    assert_eq!(d.bytes, [0, 1, 2, 3, 4, 5, 6, 7, 8, 9, 10, 11, 12, 13, 14, 15]);
    assert_eq!(d.to_hex(), b("000102030405060708090a0b0c0d0e0f"));
    let upper = Md5Digest::from_hex("FFfe0102030405060708090a0b0c0d0e");
    assert_eq!(upper.bytes[0], 255);
    assert_eq!(upper.bytes[1], 254);
}

#[test]
fn md5_from_data() {
    let d = Md5Digest::from_data(b"");
    assert_eq!(d.to_hex(), b("d41d8cd98f00b204e9800998ecf8427e"));
    let d = Md5Digest::from_data(b"hello");
    assert_eq!(d.to_hex(), b("5d41402abc4b2a76b9719d911017c592"));
}

#[test]
fn md5_lower_hex_only() {
    let d = Md5Digest::from_lower_hex(&b("000102030405060708090a0b0c0d0e0f")).unwrap();
    assert_eq!(d.bytes, [0, 1, 2, 3, 4, 5, 6, 7, 8, 9, 10, 11, 12, 13, 14, 15]);
    assert_eq!(Md5Digest::from_lower_hex(&b("000102030405060708090A0B0C0D0E0F")), None);
    assert_eq!(Md5Digest::from_lower_hex(&b("0001")), None);
    assert_eq!(Md5Digest::from_lower_hex(&b("zz0102030405060708090a0b0c0d0e0f")), None);
}
