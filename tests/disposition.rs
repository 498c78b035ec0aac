use mlist::disposition::{
    ascii_filename_fallback, content_disposition_inline, escape_quoted_string,
    is_rfc5987_attr_char, rfc5987_encode, to_hex_upper,
};

#[test]
fn content_disposition_contains_ascii_filename() {
    let disposition = content_disposition_inline("/tmp/video.mkv");
    assert!(disposition.contains("filename=\"video.mkv\""));
    assert!(disposition.contains("filename*=UTF-8''video.mkv"));
}

#[test]
fn content_disposition_encodes_utf8_filename() {
    let disposition = content_disposition_inline("/tmp/你好 字幕.ass");
    assert!(disposition.contains("filename=\"__ __.ass\""));
    assert!(
        disposition.contains("filename*=UTF-8''%E4%BD%A0%E5%A5%BD%20%E5%AD%97%E5%B9%95.ass")
    );
}

#[test]
fn content_disposition_full_value() {
    assert_eq!(
        content_disposition_inline("/srv/a b\"c.txt"),
        "inline; filename=\"a b_c.txt\"; filename*=UTF-8''a%20b%22c.txt"
    );
    assert_eq!(
        content_disposition_inline("/"),
        "inline; filename=\"file\"; filename*=UTF-8''file"
    );
}

#[test]
fn fallback_replaces_and_trims() {
    assert_eq!(ascii_filename_fallback("你好 字幕.ass"), "__ __.ass");
    assert_eq!(ascii_filename_fallback("\ta\\b\u{7f}"), "a_b_");
    assert_eq!(ascii_filename_fallback("   "), "file");
    assert_eq!(ascii_filename_fallback(""), "file");
    assert_eq!(ascii_filename_fallback("\u{3000}x\u{3000}"), "x");
}

#[test]
fn quoting_and_percent_encoding() {
    assert_eq!(escape_quoted_string("a\"b\\c"), "a\\\"b\\\\c");
    assert_eq!(rfc5987_encode("a-b_c.~!"), "a-b_c.~!");
    assert_eq!(rfc5987_encode("é /"), "%C3%A9%20%2F");
    assert!(is_rfc5987_attr_char(b'`'));
    assert!(!is_rfc5987_attr_char(b'%'));
    assert_eq!(to_hex_upper(11), 'B');
    assert_eq!(to_hex_upper(3), '3');
    assert_eq!(to_hex_upper(16), '0');
}
