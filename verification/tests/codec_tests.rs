use kore_contract_sdk::codec::{decode, encode, encode_checked, is_wf};
use kore_contract_sdk::error::CodecError;
use kore_contract_sdk::value::{Value, ValueWrapper};

fn text(s: &str) -> Value {
    Value::Text(s.to_owned())
}

fn round_trip(v: Value) {
    let w = ValueWrapper(v);
    let bytes = encode(&w);
    let back = decode(&bytes).expect("round trip should decode");
    assert_eq!(w, back);
}

#[test]
fn test_value_wrapper() {
    let value = ValueWrapper(text("test"));
    let vec = encode(&value);
    let value2: ValueWrapper = decode(&vec).unwrap();
    assert_eq!(value, value2);
}

#[test]
fn round_trip_scalars() {
    round_trip(Value::Null);
    round_trip(Value::Bool(true));
    round_trip(Value::Bool(false));
    round_trip(Value::SignedInt(-1));
    round_trip(Value::SignedInt(i64::MIN));
    round_trip(Value::SignedInt(i64::MAX));
    round_trip(Value::UnsignedInt(0));
    round_trip(Value::UnsignedInt(u64::MAX));
    round_trip(Value::Float(1.5f64.to_bits()));
    round_trip(Value::Float((-0.0f64).to_bits()));
    round_trip(Value::Float(f64::MIN_POSITIVE.to_bits()));
    round_trip(text(""));
    round_trip(text("héllo wörld ✓"));
}

#[test]
fn round_trip_nested() {
    let v = Value::Object(vec![
        ("list".to_owned(), Value::Array(vec![
            Value::UnsignedInt(1),
            Value::SignedInt(-2),
            Value::Array(vec![Value::Null, Value::Bool(true)]),
        ])),
        ("name".to_owned(), text("nested")),
        ("flag".to_owned(), Value::Bool(false)),
        ("pi".to_owned(), Value::Float(3.141592653589793f64.to_bits())),
    ]);
    round_trip(v);
}

#[test]
fn number_subtype_preserved() {
    // An unsigned number must come back unsigned, not signed or float.
    let w = ValueWrapper(Value::UnsignedInt(5));
    let bytes = encode(&w);
    assert_eq!(bytes, vec![1u8, 2, 5, 0, 0, 0, 0, 0, 0, 0]);
    assert_eq!(decode(&bytes).unwrap(), ValueWrapper(Value::UnsignedInt(5)));

    let w = ValueWrapper(Value::SignedInt(5));
    let bytes = encode(&w);
    assert_eq!(bytes, vec![1u8, 1, 5, 0, 0, 0, 0, 0, 0, 0]);
    assert_eq!(decode(&bytes).unwrap(), ValueWrapper(Value::SignedInt(5)));

    let one = 1.0f64;
    let w = ValueWrapper(Value::Float(one.to_bits()));
    let bytes = encode(&w);
    let mut expected = vec![1u8, 0];
    expected.extend_from_slice(&one.to_bits().to_le_bytes());
    assert_eq!(bytes, expected);
    assert_eq!(decode(&bytes).unwrap(), ValueWrapper(Value::Float(one.to_bits())));
}

#[test]
fn golden_bytes() {
    assert_eq!(encode(&ValueWrapper(Value::Null)), vec![5u8]);
    assert_eq!(encode(&ValueWrapper(Value::Bool(true))), vec![0u8, 1]);
    assert_eq!(encode(&ValueWrapper(Value::Bool(false))), vec![0u8, 0]);
    assert_eq!(encode(&ValueWrapper(text("ab"))), vec![2u8, 2, 0, 0, 0, 97, 98]);
    assert_eq!(
        encode(&ValueWrapper(Value::Array(vec![Value::Null]))),
        vec![3u8, 1, 0, 0, 0, 5]
    );
    assert_eq!(
        encode(&ValueWrapper(Value::Object(vec![("a".to_owned(), Value::Null)]))),
        vec![4u8, 1, 0, 0, 0, 1, 0, 0, 0, 97, 5]
    );
    assert_eq!(
        encode(&ValueWrapper(Value::SignedInt(-1))),
        vec![1u8, 1, 255, 255, 255, 255, 255, 255, 255, 255]
    );
}

#[test]
fn object_key_order_preserved() {
    let v = Value::Object(vec![
        ("b".to_owned(), Value::UnsignedInt(1)),
        ("a".to_owned(), Value::UnsignedInt(2)),
    ]);
    let bytes = encode(&ValueWrapper(v));
    match decode(&bytes).unwrap().0 {
        Value::Object(pairs) => {
            let keys: Vec<&str> = pairs.iter().map(|p| p.0.as_str()).collect();
            assert_eq!(keys, vec!["b", "a"]);
            assert_eq!(pairs[0].1, Value::UnsignedInt(1));
            assert_eq!(pairs[1].1, Value::UnsignedInt(2));
        },
        other => panic!("expected an object, got {:?}", other),
    }
}

#[test]
fn invalid_leading_tag_rejected() {
    assert_eq!(decode(&vec![6u8]), Err(CodecError::InvalidTag(6)));
    assert_eq!(decode(&vec![9u8, 0, 0]), Err(CodecError::InvalidTag(9)));
    assert_eq!(decode(&vec![255u8]), Err(CodecError::InvalidTag(255)));
}

#[test]
fn truncated_inputs_rejected() {
    assert_eq!(decode(&vec![]), Err(CodecError::Truncated));
    assert_eq!(decode(&vec![0u8]), Err(CodecError::Truncated));
    assert_eq!(decode(&vec![1u8]), Err(CodecError::Truncated));
    assert_eq!(decode(&vec![1u8, 2, 5, 0]), Err(CodecError::Truncated));
    // String cut off in the middle of its bytes.
    assert_eq!(decode(&vec![2u8, 5, 0, 0, 0, 97, 98]), Err(CodecError::Truncated));
    // Array that promises more elements than the buffer holds.
    assert_eq!(decode(&vec![3u8, 2, 0, 0, 0, 5]), Err(CodecError::Truncated));
    // A valid encoding cut anywhere in the middle.
    let bytes = encode(&ValueWrapper(text("truncate me")));
    for cut in 0..bytes.len() {
        assert_eq!(decode(&bytes[..cut].to_vec()), Err(CodecError::Truncated));
    }
}

#[test]
fn invalid_inner_tags_rejected() {
    // Bool byte other than 0 or 1.
    assert_eq!(decode(&vec![0u8, 2]), Err(CodecError::InvalidTag(2)));
    // Number subtype outside 0..=2.
    assert_eq!(decode(&vec![1u8, 3, 0, 0, 0, 0, 0, 0, 0, 0]), Err(CodecError::InvalidTag(3)));
    // Bad tag nested inside an array.
    assert_eq!(decode(&vec![3u8, 1, 0, 0, 0, 7]), Err(CodecError::InvalidTag(7)));
}

#[test]
fn non_finite_float_rejected() {
    let mut bytes = vec![1u8, 0];
    bytes.extend_from_slice(&f64::NAN.to_bits().to_le_bytes());
    assert_eq!(decode(&bytes), Err(CodecError::InvalidNumber));

    let mut bytes = vec![1u8, 0];
    bytes.extend_from_slice(&f64::INFINITY.to_bits().to_le_bytes());
    assert_eq!(decode(&bytes), Err(CodecError::InvalidNumber));
}

#[test]
fn invalid_utf8_rejected() {
    assert_eq!(decode(&vec![2u8, 1, 0, 0, 0, 0xff]), Err(CodecError::InvalidString));
}

#[test]
fn trailing_bytes_rejected() {
    assert_eq!(decode(&vec![5u8, 0]), Err(CodecError::TrailingData));
}

#[test]
fn nesting_depth_bounded() {
    // Sixty-four nested arrays still decode; sixty-five do not.
    let mut ok_bytes = Vec::new();
    for _ in 0..64 {
        ok_bytes.extend_from_slice(&[3u8, 1, 0, 0, 0]);
    }
    ok_bytes.push(5u8);
    assert!(decode(&ok_bytes).is_ok());

    let mut deep_bytes = vec![3u8, 1, 0, 0, 0];
    deep_bytes.extend_from_slice(&ok_bytes);
    assert_eq!(decode(&deep_bytes), Err(CodecError::TooDeep));
}

#[test]
fn duplicate_wire_keys_keep_position_take_last_value() {
    // Two pairs under the same key: the decoded object holds one pair, at
    // the first position, with the later value.
    let mut bytes = vec![4u8, 2, 0, 0, 0];
    bytes.extend_from_slice(&[1, 0, 0, 0, 107]); // key "k"
    bytes.push(5); // Null
    bytes.extend_from_slice(&[1, 0, 0, 0, 107]); // key "k" again
    bytes.extend_from_slice(&[0, 1]); // Bool(true)
    let decoded = decode(&bytes).unwrap();
    assert_eq!(
        decoded,
        ValueWrapper(Value::Object(vec![("k".to_owned(), Value::Bool(true))]))
    );
}

#[test]
fn encode_checked_rejects_malformed_trees() {
    assert_eq!(encode_checked(&ValueWrapper(Value::Float(f64::NAN.to_bits()))), None);
    let dup = ValueWrapper(Value::Object(vec![
        ("k".to_owned(), Value::Null),
        ("k".to_owned(), Value::Bool(true)),
    ]));
    assert!(!is_wf(&dup.0));
    assert_eq!(encode_checked(&dup), None);
    let fine = ValueWrapper(Value::Array(vec![Value::Bool(true)]));
    assert!(is_wf(&fine.0));
    assert_eq!(encode_checked(&fine), Some(encode(&fine)));
}
