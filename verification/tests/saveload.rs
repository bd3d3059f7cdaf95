use deepwise::saveload::{decode_model, encode_model};
use deepwise::ModelIoError;

#[test]
fn null_encodes_to_nil_marker() {
    let v = serde_json::Value::Null;
    assert_eq!(encode_model(&v), Ok(vec![0xc0]));
}

#[test]
fn model_round_trip() {
    let v: serde_json::Value =
        serde_json::from_str(r#"{"layers": [[0.5, -1.25], [3]], "task": "binary", "frozen": [true, false]}"#)
            .unwrap();
    let bytes = encode_model(&v).unwrap();
    assert!(!bytes.is_empty());
    assert_eq!(decode_model(&bytes), Ok(v));
}

#[test]
fn empty_bytes_are_refused() {
    match decode_model(&[]) {
        Err(ModelIoError::Decode(_)) => {}
        other => panic!("unexpected {:?}", other),
    }
}

#[test]
fn truncated_bytes_are_refused() {
    let v: serde_json::Value = serde_json::from_str(r#"["abcdef", 1, 2]"#).unwrap();
    let bytes = encode_model(&v).unwrap();
    assert!(matches!(decode_model(&bytes[..bytes.len() - 2]), Err(ModelIoError::Decode(_))));
}
