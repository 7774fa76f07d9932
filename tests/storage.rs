use level_converter::storage::{
    decode_payload, directory_name, make_record, metadata_bytes, payload_bytes, payload_text,
    read_record, usage_of, StoreError,
};

#[test]
fn record_round_trip_ascii() {
    let json = r#"{"worldSeed":42,"changedBlocks":{},"worldSize":128,"version":1}"#;
    let rec = make_record("savedGame", json);
    assert_eq!(rec.key, "savedGame");
    assert_eq!(rec.utf16_length, json.len() as i32);
    assert_eq!((rec.conversion_type, rec.compression_type, rec.last_access_time), (1, 1, 0));
    assert_ne!(rec.value, json.as_bytes().to_vec());
    assert_eq!(read_record(&rec).unwrap(), json);
}

#[test]
fn record_round_trip_long_repetitive() {
    let json = "{\"a\":0,\"bt\":1},".repeat(5000);
    let rec = make_record("savedGame", &json);
    assert!(rec.value.len() < json.len() / 4);
    assert_eq!(decode_payload(&rec.value, rec.utf16_length).unwrap(), json);
}

#[test]
fn non_ascii_is_truncated() {
    assert_eq!(payload_bytes("aé\u{141}"), vec![b'a', 0xe9, 0x41]);
    let rec = make_record("settings", "\u{141}");
    assert_eq!(read_record(&rec).unwrap(), "A");
}

#[test]
fn payload_errors() {
    assert_eq!(payload_text(&vec![1, 2, 3], 2), Err(StoreError::TooLong));
    assert_eq!(payload_text(&vec![b'a'], 3).unwrap(), "a\0\0");
    assert_eq!(decode_payload(&vec![0xff, 0xff, 0xff, 0xff, 0xff, 0xff], 3), Err(StoreError::Corrupt));
    let rec = make_record("k", "abcdef");
    assert_eq!(decode_payload(&rec.value, 2), Err(StoreError::TooLong));
}

#[test]
fn usage_counts_characters() {
    let a = make_record("savedGame", "abc");
    let b = make_record("settings", "defgh");
    assert_eq!(usage_of(&[a, b]), 18);
}

#[test]
fn directory_name_replaces_reserved() {
    assert_eq!(directory_name("https://example.com:8080"), "https+++example.com+8080");
    assert_eq!(directory_name("a*b?c\"d>e<f|g\\h"), "a+b+c+d+e+f+g+h");
    assert_eq!(directory_name("plain"), "plain");
}

#[test]
fn metadata_layout() {
    let m = metadata_bytes(0x0102030405060708, "ab");
    assert_eq!(
        m,
        vec![1, 2, 3, 4, 5, 6, 7, 8, 0, 0, 0, 0, 0, 0, 0, 0, 0, 0, 2, b'a', b'b', 0]
    );
}
