use lima::cursor::{cursor_bytes, cursor_from_bytes, decode_cursor, encode_cursor, Cursor, CursorError};

fn cursor(updated_at: &str, id: &str, rank: Option<u64>) -> Cursor {
    Cursor { updated_at: updated_at.to_string(), id: id.to_string(), rank }
}

fn same(a: &Cursor, b: &Cursor) -> bool {
    a.updated_at == b.updated_at && a.id == b.id && a.rank == b.rank
}

#[test]
fn frame_is_canonical_json() {
    let c = cursor("2024-01-01T00:00:00Z", "abc", None);
    assert_eq!(cursor_bytes(&c), br#"{"updated_at":"2024-01-01T00:00:00Z","id":"abc","rank":null}"#.to_vec());
    let r = cursor("2024-01-01T00:00:00Z", "abc", Some(42));
    assert_eq!(cursor_bytes(&r), br#"{"updated_at":"2024-01-01T00:00:00Z","id":"abc","rank":42}"#.to_vec());
}

#[test]
fn text_is_base64_of_the_frame() {
    let c = cursor("2024-01-01T00:00:00Z", "abc", None);
    assert_eq!(encode_cursor(&c), "eyJ1cGRhdGVkX2F0IjoiMjAyNC0wMS0wMVQwMDowMDowMFoiLCJpZCI6ImFiYyIsInJhbmsiOm51bGx9");
    let r = cursor("2024-01-01T00:00:00Z", "abc", Some(42));
    assert_eq!(encode_cursor(&r), "eyJ1cGRhdGVkX2F0IjoiMjAyNC0wMS0wMVQwMDowMDowMFoiLCJpZCI6ImFiYyIsInJhbmsiOjQyfQ");
}

#[test]
fn cursor_round_trips() {
    let cases = vec![
        cursor("2024-01-01T00:00:00Z", "abc", None),
        cursor("2024-01-01T00:00:00Z", "abc", Some(0)),
        cursor("", "", Some(u64::MAX)),
        cursor("quote\" back\\slash", "tab\tnl\ncr\r\u{1}", Some(7)),
        cursor("ünïcødé ✓", "日本", None),
    ];
    for c in cases {
        let text = encode_cursor(&c);
        let back = decode_cursor(&text).expect("decodes");
        assert!(same(&back, &c));
    }
}

#[test]
fn escapes_control_characters() {
    let c = cursor("a\u{1f}", "\"", None);
    assert_eq!(cursor_bytes(&c), br#"{"updated_at":"a\u001f","id":"\"","rank":null}"#.to_vec());
}

#[test]
fn tampered_or_truncated_text_is_rejected() {
    let good = encode_cursor(&cursor("2024", "abc", Some(3)));
    assert_eq!(decode_cursor("!!!").unwrap_err(), CursorError::InvalidCursor);
    assert_eq!(decode_cursor(&good[..good.len() - 4]).unwrap_err(), CursorError::InvalidCursor);
    assert_eq!(decode_cursor("").unwrap_err(), CursorError::InvalidCursor);
    // base64 of {"id":1}
    assert_eq!(decode_cursor("eyJpZCI6MX0").unwrap_err(), CursorError::InvalidCursor);
    // padded and standard-alphabet text is refused
    let padded = format!("{}==", good);
    assert_eq!(decode_cursor(&padded).unwrap_err(), CursorError::InvalidCursor);
    for cut in 0..good.len() {
        assert!(decode_cursor(&good[..cut]).is_err());
    }
}

#[test]
fn frame_reader_is_strict() {
    assert!(cursor_from_bytes(&br#"{"updated_at":"a","id":"b","rank":null}"#.to_vec()).is_some());
    assert!(cursor_from_bytes(&br#"{"updated_at": "a","id":"b","rank":null}"#.to_vec()).is_none());
    assert!(cursor_from_bytes(&br#"{"updated_at":"a","id":"b","rank":-1}"#.to_vec()).is_none());
    assert!(cursor_from_bytes(&br#"{"updated_at":"a","id":"b","rank":18446744073709551616}"#.to_vec()).is_none());
    assert!(cursor_from_bytes(&br#"{"updated_at":"a","id":"b"}"#.to_vec()).is_none());
    let parsed = cursor_from_bytes(&br#"{"updated_at":"a","id":"b","rank":18446744073709551615}"#.to_vec()).unwrap();
    assert_eq!(parsed.rank, Some(u64::MAX));
}

#[test]
fn cursor_text_is_url_safe() {
    let c = cursor("ÿÿÿ>>>???", "~~~\u{ff}", Some(u64::MAX));
    let text = encode_cursor(&c);
    assert!(!text.is_empty());
    assert!(text.chars().all(|ch| ch.is_ascii_alphanumeric() || ch == '-' || ch == '_'));
    assert!(same(&decode_cursor(&text).unwrap(), &c));
}
