use openobserve::entry::EntryError;
use openobserve::entry::IngestEntry;
use openobserve::entry::IngestSource;

const BODY: &[u8] =
    b"\"kubernetes.annotations.kubectl.kubernetes.io/default-container\": \"prometheus\"";

#[test]
fn test_entry_w_stream_name_serialization() {
    let entry = IngestEntry::new(
        IngestSource::JSON,
        0,
        "default".to_string(),
        "root@example.com".to_string(),
        Some("default".to_string()),
        BODY.to_vec(),
    );

    let entry_bytes = entry.into_bytes().unwrap();
    let entry_decoded = IngestEntry::from_bytes(&entry_bytes).unwrap();
    assert_eq!(entry, entry_decoded);
}

#[test]
fn test_entry_wo_stream_name_serialization() {
    let entry = IngestEntry::new(
        IngestSource::JSON,
        0,
        "default".to_string(),
        "root@example.com".to_string(),
        None,
        BODY.to_vec(),
    );

    let entry_bytes = entry.into_bytes().unwrap();
    let entry_decoded = IngestEntry::from_bytes(&entry_bytes).unwrap();
    assert_eq!(entry, entry_decoded);
}

#[test]
fn test_entry_non_ascii_round_trip() {
    let entry = IngestEntry::new(
        IngestSource::Multi,
        0,
        "caf\u{e9} \u{4e16}\u{754c}".to_string(),
        "root@example.com".to_string(),
        Some("str\u{f8}m".to_string()),
        vec![0u8, 255u8, 7u8],
    );

    let bytes = entry.into_bytes().unwrap();
    let decoded = IngestEntry::from_bytes(&bytes).unwrap();
    assert_eq!(entry, decoded);
}

#[test]
fn test_entry_layout_exact() {
    let entry = IngestEntry::new(
        IngestSource::Bulk,
        0,
        "ab".to_string(),
        "c".to_string(),
        None,
        vec![9u8, 8u8],
    );
    let bytes = entry.into_bytes().unwrap();
    let expected: Vec<u8> = vec![
        1, // source tag
        0, 0, 0, 0, 0, 0, 0, 0, // thread id, big-endian
        0, 2, b'a', b'b', // org id
        0, 1, b'c', // user email
        0, // no stream name
        0, 2, 9, 8, // body
    ];
    assert_eq!(bytes, expected);
}

#[test]
fn test_entry_thread_id_decodes_to_leading_byte() {
    // The encoder writes the full 64-bit id; the decoder reads back only the
    // first (most significant) of the eight id bytes.
    let entry = IngestEntry::new(
        IngestSource::JSON,
        5,
        "default".to_string(),
        "root@example.com".to_string(),
        None,
        vec![1u8],
    );
    let bytes = entry.into_bytes().unwrap();
    let decoded = IngestEntry::from_bytes(&bytes).unwrap();
    assert_eq!(decoded.thread_id, 0);
}

#[test]
fn test_entry_truncated_input() {
    assert_eq!(
        IngestEntry::from_bytes(&[]),
        Err(EntryError::TruncatedInput)
    );
    assert_eq!(
        IngestEntry::from_bytes(&[3, 0, 0, 0]),
        Err(EntryError::TruncatedInput)
    );
    let entry = IngestEntry::new(
        IngestSource::JSON,
        0,
        "default".to_string(),
        "root@example.com".to_string(),
        None,
        vec![1u8, 2u8],
    );
    let bytes = entry.into_bytes().unwrap();
    let cut = &bytes[..bytes.len() - 1];
    assert_eq!(IngestEntry::from_bytes(cut), Err(EntryError::TruncatedInput));
}

#[test]
fn test_entry_unknown_source() {
    assert_eq!(
        IngestEntry::from_bytes(&[9, 0, 0, 0, 0, 0, 0, 0, 0]),
        Err(EntryError::UnknownSource)
    );
}

#[test]
fn test_entry_invalid_utf8() {
    let entry = IngestEntry::new(
        IngestSource::JSON,
        0,
        "default".to_string(),
        "root@example.com".to_string(),
        None,
        vec![],
    );
    let mut bytes = entry.into_bytes().unwrap();
    // The organization id starts right after the tag, the id bytes and its
    // two length bytes; 0xff alone is not valid UTF-8.
    bytes[11] = 0xff;
    assert_eq!(
        IngestEntry::from_bytes(&bytes),
        Err(EntryError::InvalidUtf8)
    );
}

#[test]
fn test_entry_field_too_long() {
    let entry = IngestEntry::new(
        IngestSource::JSON,
        0,
        "x".repeat(70000),
        "root@example.com".to_string(),
        None,
        vec![],
    );
    assert_eq!(entry.into_bytes(), Err(EntryError::FieldTooLong));

    let entry = IngestEntry::new(
        IngestSource::JSON,
        0,
        "default".to_string(),
        "root@example.com".to_string(),
        None,
        vec![0u8; 70000],
    );
    assert_eq!(entry.into_bytes(), Err(EntryError::FieldTooLong));
}

#[test]
fn test_source_tags_round_trip() {
    let sources = [
        IngestSource::Bulk,
        IngestSource::Multi,
        IngestSource::JSON,
        IngestSource::KinesisFH,
        IngestSource::GCP,
    ];
    for s in sources {
        let tag = s.to_u8();
        assert_eq!(IngestSource::from_u8(tag), Some(s));
    }
    assert_eq!(IngestSource::from_u8(0), None);
    assert_eq!(IngestSource::from_u8(6), None);
}
