use nginx_cache_purge::stored_key::{parse_stored_key, scan_stored_key, KeyScan};

#[test]
fn stored_key_after_header_and_label() {
    let content = b"\x00\x01header\nKEY: http/blog/post1\nHTTP/1.1 200 OK\r\n";
    assert_eq!(parse_stored_key(content), Some(b"http/blog/post1".to_vec()));
}

#[test]
fn stored_key_line_ends() {
    assert_eq!(parse_stored_key(b"h\r\nKEY: k1\r\nrest"), Some(b"k1".to_vec()));
    assert_eq!(parse_stored_key(b"h\n\rKEY: k2\rrest"), Some(b"k2".to_vec()));
    assert_eq!(parse_stored_key(b"h\rKEY: k3"), Some(b"k3".to_vec()));
    // Two line feeds are two line ends: the five skipped bytes start at the
    // second one.
    assert_eq!(parse_stored_key(b"h\n\nKEY: k4"), Some(b" k4".to_vec()));
}

#[test]
fn stored_key_label_is_skipped_whatever_it_holds() {
    assert_eq!(parse_stored_key(b"h\nXXXXXkey"), Some(b"key".to_vec()));
}

#[test]
fn stored_key_empty() {
    assert_eq!(parse_stored_key(b"h\nKEY: \nbody"), Some(Vec::new()));
}

#[test]
fn stored_key_missing() {
    assert_eq!(parse_stored_key(b""), None);
    assert_eq!(parse_stored_key(b"header only"), None);
    assert_eq!(parse_stored_key(b"h\n"), None);
    assert_eq!(parse_stored_key(b"h\nKEY: "), None);
    assert_eq!(parse_stored_key(b"h\nKEY"), None);
}

#[test]
fn scan_waits_for_the_end_of_the_key_line() {
    assert_eq!(scan_stored_key(b"h\nKEY: http/bl", false), KeyScan::NeedMore);
    assert_eq!(scan_stored_key(b"h\n", false), KeyScan::NeedMore);
    assert_eq!(scan_stored_key(b"", false), KeyScan::NeedMore);
    assert_eq!(
        scan_stored_key(b"h\nKEY: http/blog\n", false),
        KeyScan::Found(b"http/blog".to_vec())
    );
}

#[test]
fn scan_at_end_is_final() {
    assert_eq!(scan_stored_key(b"h\nKEY: http/bl", true), KeyScan::Found(b"http/bl".to_vec()));
    assert_eq!(scan_stored_key(b"h\n", true), KeyScan::Malformed);
}
