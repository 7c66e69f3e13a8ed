//! Wire codec: encoding, strict decoding, round trips.

use liquid_dispatch::codec::{decode_args, decode_value, encode_values, make_int, Value};
use liquid_dispatch::ty::{IntWidth, TypeDescriptor};

fn encode_one(v: Value) -> Vec<u8> {
    encode_values(&vec![v])
}

#[test]
fn uint_encodes_little_endian() {
    assert_eq!(encode_one(Value::Uint(IntWidth::W8, 0x7f)), vec![0x7f]);
    assert_eq!(encode_one(Value::Uint(IntWidth::W16, 0x1234)), vec![0x34, 0x12]);
    assert_eq!(
        encode_one(Value::Uint(IntWidth::W32, 0xdeadbeef)),
        vec![0xef, 0xbe, 0xad, 0xde]
    );
    // A u128 payload is exactly 16 bytes.
    let bytes = encode_one(Value::Uint(IntWidth::W128, 1));
    assert_eq!(bytes.len(), 16);
    assert_eq!(bytes[0], 1);
    assert!(bytes[1..].iter().all(|b| *b == 0));
}

#[test]
fn bool_encodes_one_strict_byte() {
    assert_eq!(encode_one(Value::Bool(false)), vec![0]);
    assert_eq!(encode_one(Value::Bool(true)), vec![1]);
    // Decoding is strict: only 0 and 1 are booleans.
    assert!(decode_value(&TypeDescriptor::Bool, &vec![2], 0).is_none());
}

#[test]
fn bytes_and_string_are_length_prefixed() {
    let bytes = encode_one(Value::Bytes(b"hi".to_vec()));
    assert_eq!(bytes, vec![2, 0, 0, 0, b'h', b'i']);
    let s = encode_one(Value::Str(b"abc".to_vec()));
    assert_eq!(s, vec![3, 0, 0, 0, b'a', b'b', b'c']);
}

fn sample_descs() -> Vec<TypeDescriptor> {
    vec![
        TypeDescriptor::Uint(IntWidth::W64),
        TypeDescriptor::Bool,
        TypeDescriptor::Address,
        TypeDescriptor::FixedBytes(3),
        TypeDescriptor::Str,
        TypeDescriptor::DynArray(Box::new(TypeDescriptor::Uint(IntWidth::W16))),
        TypeDescriptor::FixedArray(Box::new(TypeDescriptor::Bool), 2),
        TypeDescriptor::Tuple(vec![TypeDescriptor::Uint(IntWidth::W8), TypeDescriptor::Bytes]),
    ]
}

fn sample_vals() -> Vec<Value> {
    vec![
        Value::Uint(IntWidth::W64, 42),
        Value::Bool(true),
        Value::Address(vec![7u8; 20]),
        Value::FixedBytes(vec![1, 2, 3]),
        Value::Str(b"hello".to_vec()),
        Value::Array(vec![
            Value::Uint(IntWidth::W16, 10),
            Value::Uint(IntWidth::W16, 20),
        ]),
        Value::FixedArray(vec![Value::Bool(false), Value::Bool(true)]),
        Value::Tuple(vec![Value::Uint(IntWidth::W8, 9), Value::Bytes(vec![0xaa])]),
    ]
}

#[test]
fn round_trip_all_supported_types() {
    let descs = sample_descs();
    let vals = sample_vals();
    let payload = encode_values(&vals);
    let decoded = decode_args(&descs, &payload).expect("round trip must succeed");
    assert_eq!(decoded, vals);
}

#[test]
fn truncated_payload_is_rejected() {
    let descs = sample_descs();
    let payload = encode_values(&sample_vals());
    // Every strict prefix fails; no partial decode is accepted.
    for cut in 0..payload.len() {
        let truncated: Vec<u8> = payload[..cut].to_vec();
        assert!(decode_args(&descs, &truncated).is_none());
    }
}

#[test]
fn overlength_payload_is_rejected() {
    let descs = sample_descs();
    let mut payload = encode_values(&sample_vals());
    payload.push(0);
    assert!(decode_args(&descs, &payload).is_none());
}

#[test]
fn empty_argument_list_takes_empty_payload_only() {
    let descs: Vec<TypeDescriptor> = vec![];
    assert_eq!(decode_args(&descs, &vec![]), Some(vec![]));
    assert!(decode_args(&descs, &vec![0]).is_none());
}

#[test]
fn dyn_array_count_beyond_payload_is_rejected() {
    let descs = vec![TypeDescriptor::DynArray(Box::new(TypeDescriptor::Uint(IntWidth::W8)))];
    // Claims 255 elements but carries none.
    let payload = vec![0xff, 0, 0, 0];
    assert!(decode_args(&descs, &payload).is_none());
}

#[test]
fn signed_values_use_twos_complement() {
    let minus_one = make_int(IntWidth::W8, true, 1).expect("fits");
    assert_eq!(encode_one(minus_one), vec![0xff]);
    let minus_128 = make_int(IntWidth::W8, true, 128).expect("fits");
    assert_eq!(encode_one(minus_128), vec![0x80]);
    let plus_127 = make_int(IntWidth::W8, false, 127).expect("fits");
    assert_eq!(encode_one(plus_127), vec![0x7f]);
    // Out of range for the width.
    assert!(make_int(IntWidth::W8, false, 128).is_none());
    assert!(make_int(IntWidth::W8, true, 129).is_none());
    assert!(make_int(IntWidth::W8, true, 0).is_none());
    // Signed round trip.
    let descs = vec![TypeDescriptor::Int(IntWidth::W16)];
    let v = make_int(IntWidth::W16, true, 2).expect("fits");
    let payload = encode_values(&vec![v]);
    assert_eq!(payload, vec![0xfe, 0xff]);
    let back = decode_args(&descs, &payload).expect("decodes");
    assert_eq!(back, vec![Value::Int(IntWidth::W16, 0xfffe)]);
}

#[test]
fn address_requires_twenty_bytes() {
    let descs = vec![TypeDescriptor::Address];
    let payload = vec![1u8; 20];
    let got = decode_args(&descs, &payload).expect("decodes");
    assert_eq!(got, vec![Value::Address(vec![1u8; 20])]);
    assert!(decode_args(&descs, &vec![1u8; 19]).is_none());
}
