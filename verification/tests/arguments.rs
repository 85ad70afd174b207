use heimdall::calldata::{
    decode_arguments, ArgumentList, ArgumentType, Confidence, DecodeError, DecodedValue, ElemType,
    ElemValue,
};
use heimdall::encode::encode_elementary_arguments;
use heimdall::hex::{is_transaction_hash, parse_hex};

fn slot_with_tail(tail: &[u8]) -> Vec<u8> {
    let mut s = vec![0u8; 32 - tail.len()];
    s.extend_from_slice(tail);
    s
}

fn decode_known(data: &Vec<u8>, sig: &Vec<ArgumentType>) -> Result<ArgumentList, DecodeError> {
    decode_arguments(data, Some(sig))
}

#[test]
fn decode_single_uint() {
    let data = slot_with_tail(&[42]);
    let sig = vec![ArgumentType::Elementary(ElemType::Uint(256))];
    let list = decode_known(&data, &sig).unwrap();
    assert_eq!(list.confidence, Confidence::Known);
    assert_eq!(list.types, sig);
    assert_eq!(list.values, vec![DecodedValue::Elem(ElemValue::Uint(data.clone()))]);
}

#[test]
fn decode_bool_and_fixed_bytes() {
    let mut data = slot_with_tail(&[1]);
    let mut second = vec![0xde, 0xad, 0xbe, 0xef];
    second.extend_from_slice(&[0u8; 28]);
    data.extend_from_slice(&second);
    let sig = vec![
        ArgumentType::Elementary(ElemType::Bool),
        ArgumentType::Elementary(ElemType::FixedBytes(4)),
    ];
    let list = decode_known(&data, &sig).unwrap();
    assert_eq!(
        list.values,
        vec![
            DecodedValue::Elem(ElemValue::Bool(true)),
            DecodedValue::Elem(ElemValue::FixedBytes(vec![0xde, 0xad, 0xbe, 0xef])),
        ]
    );
}

#[test]
fn declared_width_past_input_is_malformed() {
    // Two declared elementary types need 64 bytes of heads; only 32 given.
    let data = slot_with_tail(&[7]);
    let sig = vec![
        ArgumentType::Elementary(ElemType::Uint(256)),
        ArgumentType::Elementary(ElemType::Uint(256)),
    ];
    assert_eq!(decode_known(&data, &sig), Err(DecodeError::MalformedEncoding));
}

#[test]
fn dynamic_offset_past_input_is_malformed() {
    // The head slot points at offset 4096, far outside the input.
    let data = slot_with_tail(&[0x10, 0x00]);
    let sig = vec![ArgumentType::Bytes];
    assert_eq!(decode_known(&data, &sig), Err(DecodeError::MalformedEncoding));
}

#[test]
fn dynamic_length_past_input_is_malformed() {
    // Offset 32 is fine but the length there claims 200 bytes of content.
    let mut data = slot_with_tail(&[32]);
    data.extend_from_slice(&slot_with_tail(&[200]));
    let sig = vec![ArgumentType::Bytes];
    assert_eq!(decode_known(&data, &sig), Err(DecodeError::MalformedEncoding));
}

#[test]
fn dynamic_bytes_round_trip() {
    // Head: offset 32; tail: length 3 then the content.
    let mut data = slot_with_tail(&[32]);
    data.extend_from_slice(&slot_with_tail(&[3]));
    data.extend_from_slice(&[0x01, 0x02, 0x03]);
    let sig = vec![ArgumentType::Bytes];
    let list = decode_known(&data, &sig).unwrap();
    assert_eq!(list.values, vec![DecodedValue::Bytes(vec![0x01, 0x02, 0x03])]);
}

#[test]
fn dynamic_string_round_trip() {
    let mut data = slot_with_tail(&[32]);
    data.extend_from_slice(&slot_with_tail(&[2]));
    data.extend_from_slice(b"ok");
    let sig = vec![ArgumentType::Str];
    let list = decode_known(&data, &sig).unwrap();
    assert_eq!(list.values, vec![DecodedValue::Str(b"ok".to_vec())]);
}

#[test]
fn dynamic_array_of_uints_round_trip() {
    // Head: offset 32; tail: count 2, then two element slots.
    let mut data = slot_with_tail(&[32]);
    data.extend_from_slice(&slot_with_tail(&[2]));
    let e1 = slot_with_tail(&[5]);
    let e2 = slot_with_tail(&[9]);
    data.extend_from_slice(&e1);
    data.extend_from_slice(&e2);
    let sig = vec![ArgumentType::ArrayDyn(ElemType::Uint(256))];
    let list = decode_known(&data, &sig).unwrap();
    assert_eq!(
        list.values,
        vec![DecodedValue::Array(vec![ElemValue::Uint(e1), ElemValue::Uint(e2)])]
    );
}

#[test]
fn elementary_encode_decode_round_trip() {
    let sig = vec![
        ArgumentType::Elementary(ElemType::Uint(256)),
        ArgumentType::Elementary(ElemType::Bool),
        ArgumentType::Elementary(ElemType::FixedBytes(2)),
    ];
    let values = vec![
        DecodedValue::Elem(ElemValue::Uint(slot_with_tail(&[0x12, 0x34]))),
        DecodedValue::Elem(ElemValue::Bool(true)),
        DecodedValue::Elem(ElemValue::FixedBytes(vec![0xab, 0xcd])),
    ];
    let encoded = encode_elementary_arguments(&sig, &values).unwrap();
    assert_eq!(encoded.len(), 96);
    let list = decode_known(&encoded, &sig).unwrap();
    assert_eq!(list.values, values);
}

#[test]
fn encode_rejects_mismatched_values() {
    let sig = vec![ArgumentType::Elementary(ElemType::Uint(256))];
    let values = vec![DecodedValue::Elem(ElemValue::Uint(vec![1, 2, 3]))];
    assert!(encode_elementary_arguments(&sig, &values).is_none());
    let values2 = vec![DecodedValue::Bytes(vec![1])];
    assert!(encode_elementary_arguments(&sig, &values2).is_none());
}

#[test]
fn heuristic_guesses_address_shape() {
    // Top twelve bytes zero, twenty nonzero bytes: the address pattern.
    let mut data = vec![0u8; 12];
    data.extend_from_slice(&[0xab; 20]);
    let list = decode_arguments(&data, None).unwrap();
    assert_eq!(list.confidence, Confidence::Inferred);
    assert_eq!(list.types, vec![ArgumentType::Elementary(ElemType::Address)]);
    assert_eq!(list.values, vec![DecodedValue::Elem(ElemValue::Address(data.clone()))]);
}

#[test]
fn heuristic_guesses_bool_shape() {
    let data = slot_with_tail(&[1]);
    let list = decode_arguments(&data, None).unwrap();
    assert_eq!(list.types, vec![ArgumentType::Elementary(ElemType::Bool)]);
    assert_eq!(list.values, vec![DecodedValue::Elem(ElemValue::Bool(true))]);
    let zero = vec![0u8; 32];
    let list0 = decode_arguments(&zero, None).unwrap();
    assert_eq!(list0.values, vec![DecodedValue::Elem(ElemValue::Bool(false))]);
}

#[test]
fn heuristic_falls_back_to_uint() {
    let data = vec![0xff; 32];
    let list = decode_arguments(&data, None).unwrap();
    assert_eq!(list.types, vec![ArgumentType::Elementary(ElemType::Uint(256))]);
    assert_eq!(list.values, vec![DecodedValue::Elem(ElemValue::Uint(data.clone()))]);
}

#[test]
fn heuristic_recognises_dynamic_offset_shape() {
    // Word zero points at a well-formed length-prefixed tail.
    let mut data = slot_with_tail(&[32]);
    data.extend_from_slice(&slot_with_tail(&[3]));
    data.extend_from_slice(&[7, 8, 9]);
    let list = decode_arguments(&data, None).unwrap();
    assert_eq!(list.types[0], ArgumentType::Bytes);
    assert_eq!(list.values[0], DecodedValue::Bytes(vec![7, 8, 9]));
}

#[test]
fn heuristic_never_fails_and_ignores_trailing_partial_word() {
    let data: Vec<u8> = vec![1, 2, 3];
    let list = decode_arguments(&data, None).unwrap();
    assert!(list.types.is_empty());
    assert!(list.values.is_empty());
}

#[test]
fn known_decoding_is_deterministic() {
    let mut data = slot_with_tail(&[32]);
    data.extend_from_slice(&slot_with_tail(&[3]));
    data.extend_from_slice(&[0x01, 0x02, 0x03]);
    let sig = vec![ArgumentType::Bytes];
    let a = format!("{:?}", decode_known(&data, &sig));
    let b = format!("{:?}", decode_known(&data, &sig));
    assert_eq!(a, b);
}

#[test]
fn hex_parsing_round_trip_and_rejection() {
    let ok = parse_hex(&b"0xdeadBEEF".to_vec()).unwrap();
    assert_eq!(ok, vec![0xde, 0xad, 0xbe, 0xef]);
    let bare = parse_hex(&b"0102".to_vec()).unwrap();
    assert_eq!(bare, vec![1, 2]);
    assert!(parse_hex(&b"0x123".to_vec()).is_none());
    assert!(parse_hex(&b"zz".to_vec()).is_none());
    let empty = parse_hex(&b"0x".to_vec()).unwrap();
    assert!(empty.is_empty());
}

#[test]
fn transaction_hash_shape_is_checked() {
    let mut good = b"0x".to_vec();
    good.extend_from_slice(&[b'a'; 64]);
    assert!(is_transaction_hash(&good));
    let mut short = b"0x".to_vec();
    short.extend_from_slice(&[b'a'; 63]);
    assert!(!is_transaction_hash(&short));
    let mut bad = b"0x".to_vec();
    bad.extend_from_slice(&[b'g'; 64]);
    assert!(!is_transaction_hash(&bad));
}
