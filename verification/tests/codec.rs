use kvlog::codec::{KeyValueEntry, StoreError};

#[test]
fn encode_a_key_value_entry() {
    let entry = KeyValueEntry::new(42, 42, 42);
    let got: Vec<u8> = entry.encode();
    let want = vec![
        0, 0, 0, 42, 0, 0, 0, 4, 0, 0, 0, 4, 0, 0, 0, 42, 0, 0, 0, 42,
    ];
    assert_eq!(want, got);
}

#[test]
fn decode_a_key_value_entry() {
    let bytes = vec![
        0, 0, 0, 42, 0, 0, 0, 4, 0, 0, 0, 4, 0, 0, 0, 42, 0, 0, 0, 42,
    ];
    let want = KeyValueEntry::new(42, 42, 42);
    let got = KeyValueEntry::decode(&bytes).unwrap();
    assert_eq!(want, got);
}

#[test]
fn round_trip_restores_every_field() {
    let entry = KeyValueEntry::new(7, "first_name", "john");
    let encoded = entry.encode();
    let decoded = KeyValueEntry::decode(&encoded).unwrap();
    assert_eq!(decoded.tstamp, 7);
    assert_eq!(decoded.ksz, 10);
    assert_eq!(decoded.value_sz, 4);
    assert_eq!(decoded.key, b"first_name".to_vec());
    assert_eq!(decoded.value, b"john".to_vec());
}

#[test]
fn encoded_record_layout() {
    let entry = KeyValueEntry::new(1, "key", "value-bytes");
    let encoded = entry.encode();
    assert_eq!(encoded.len(), 12 + 3 + 11);
    assert_eq!(entry.value_offset(), 12 + 3);
    assert_eq!(&encoded[12 + 3..], b"value-bytes");
    assert_eq!(&encoded[12..12 + 3], b"key");
}

#[test]
fn decode_short_header_is_truncated_input() {
    let bytes = vec![0, 0, 0, 42, 0, 0, 0];
    let got = KeyValueEntry::decode(&bytes);
    assert_eq!(got, Err(StoreError::TruncatedInput));
}

#[test]
fn decode_declared_sizes_past_end_is_truncated_input() {
    // Header declares a 4-byte key and a 4-byte value, but only the key follows.
    let bytes = vec![0, 0, 0, 42, 0, 0, 0, 4, 0, 0, 0, 4, 0, 0, 0, 42];
    let got = KeyValueEntry::decode(&bytes);
    assert_eq!(got, Err(StoreError::TruncatedInput));
}

#[test]
fn decode_ignores_trailing_bytes() {
    let mut bytes = vec![
        0, 0, 0, 42, 0, 0, 0, 4, 0, 0, 0, 4, 0, 0, 0, 42, 0, 0, 0, 42,
    ];
    bytes.extend_from_slice(&[9, 9, 9]);
    let want = KeyValueEntry::new(42, 42, 42);
    let got = KeyValueEntry::decode(&bytes).unwrap();
    assert_eq!(want, got);
}
