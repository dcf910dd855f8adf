use kreuzberg::iwork::pages::{is_likely_heading, is_likely_title};
use kreuzberg::iwork::{decode_iwa_stream, dedup_text, extract_plist_tag, extract_text_from_proto, read_varint};

#[test]
fn test_extract_text_from_proto_basic() {
    let text = b"Hello World from iWork";
    let mut proto = vec![0x1A, text.len() as u8];
    proto.extend_from_slice(text);

    let extracted = extract_text_from_proto(&proto);
    assert!(
        extracted.iter().any(|s| s.contains("Hello World")),
        "Should extract the embedded UTF-8 string: {:?}",
        extracted
    );
}

#[test]
fn test_extract_text_from_proto_skips_binary() {
    let binary: Vec<u8> = (0..20).map(|i| i * 7 + 3).collect();
    let mut proto = vec![0x1A, binary.len() as u8];
    proto.extend_from_slice(&binary);

    let extracted = extract_text_from_proto(&proto);
    for s in &extracted {
        assert!(
            !s.chars().all(|c| c.is_alphabetic()),
            "Binary blob should not produce clean alphabetic strings: {s}"
        );
    }
}

#[test]
fn test_extract_text_from_proto_nested() {
    let inner_text = b"Nested Content";
    let mut inner = vec![0x1A, inner_text.len() as u8];
    inner.extend_from_slice(inner_text);

    let mut outer = vec![0x12, inner.len() as u8];
    outer.extend_from_slice(&inner);

    let extracted = extract_text_from_proto(&outer);
    assert!(
        extracted.iter().any(|s| s.contains("Nested Content")),
        "Should extract text from nested protobuf messages: {:?}",
        extracted
    );
}

#[test]
fn proto_short_and_trimmed_strings() {
    // "  ab  " trims to two bytes and is dropped; " abc " trims to "abc".
    let proto = vec![0x0A, 6, b' ', b' ', b'a', b'b', b' ', b' ', 0x0A, 5, b' ', b'a', b'b', b'c', b' '];
    assert_eq!(extract_text_from_proto(&proto), vec!["abc".to_string()]);
}

#[test]
fn proto_skips_varint_and_fixed_fields() {
    // field 1 varint 300, field 2 fixed64, then a string field.
    let mut proto = vec![0x08, 0xAC, 0x02, 0x11, 1, 2, 3, 4, 5, 6, 7, 8, 0x1A, 3];
    proto.extend_from_slice(b"xyz");
    assert_eq!(extract_text_from_proto(&proto), vec!["xyz".to_string()]);
}

#[test]
fn proto_truncated_field_stops() {
    let proto = vec![0x1A, 10, b'a', b'b', b'c'];
    assert!(extract_text_from_proto(&proto).is_empty());
}

#[test]
fn varint_values() {
    assert_eq!(read_varint(&[0x96, 0x01], 0), Some((150, 2)));
    assert_eq!(read_varint(&[0x00, 0x7F], 1), Some((127, 1)));
    assert_eq!(read_varint(&[0x80], 0), None);
    assert_eq!(read_varint(&[0xFF; 10], 0), None);
}

#[test]
fn dedup_keeps_first_occurrence() {
    let v = vec!["b".to_string(), "a".to_string(), "b".to_string(), "c".to_string(), "a".to_string()];
    assert_eq!(dedup_text(v), vec!["b".to_string(), "a".to_string(), "c".to_string()]);
}

#[test]
fn dedup_twice_is_once() {
    let v = vec!["x".to_string(), "x".to_string(), "y".to_string()];
    let once = dedup_text(v);
    assert_eq!(dedup_text(once.clone()), once);
}

#[test]
fn plist_tag_values() {
    assert_eq!(extract_plist_tag("<key>title</key>", "key"), Some("title".to_string()));
    assert_eq!(extract_plist_tag("  <string>My Doc</string>", "string"), Some("My Doc".to_string()));
    assert_eq!(extract_plist_tag("<string>x</string>", "key"), None);
}

#[test]
fn iwa_stream_uncompressed_and_unknown_chunks() {
    let data = vec![0x01, 3, 0, 0, b'a', b'b', b'c', 0x07, 1, 0, 0, b'z', 0x01, 1, 0, 0, b'd'];
    assert_eq!(decode_iwa_stream(&data), Ok(b"abcd".to_vec()));
}

#[test]
fn iwa_stream_out_of_bounds_message() {
    let data = vec![0x01, 9, 0, 0, b'a'];
    assert_eq!(
        decode_iwa_stream(&data),
        Err("IWA chunk out of bounds: offset=4, chunk_len=9, data_len=5".to_string())
    );
}

#[test]
fn iwa_stream_snappy_chunk() {
    // A raw Snappy block: length 3, literal of 3 bytes "xyz".
    let data = vec![0x00, 5, 0, 0, 0x03, 0x08, b'x', b'y', b'z'];
    assert_eq!(decode_iwa_stream(&data), Ok(b"xyz".to_vec()));
}

#[test]
fn title_and_heading_heuristics() {
    assert!(is_likely_title("Quarterly Report"));
    assert!(!is_likely_title("This ends a sentence."));
    assert!(!is_likely_title("12345"));
    assert!(is_likely_heading("Introduction"));
    assert!(is_likely_heading("2 Methods"));
    assert!(!is_likely_heading("lowercase start"));
    assert!(!is_likely_heading("One two three four five six seven eight nine ten eleven"));
}

#[test]
fn dedup_text_removes_near_duplicates() {
    let v = vec!["Title".to_string(), "Title ".to_string(), " x".to_string(), "x".to_string(), "y".to_string()];
    assert_eq!(dedup_text(v), vec!["Title".to_string(), " x".to_string(), "y".to_string()]);
}
