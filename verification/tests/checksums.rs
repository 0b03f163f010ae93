//! Content-fingerprint behaviour: digest computation, tag normalisation and
//! the conservative comparison rule.

use s3gui_core::fingerprint::{compare_checksums, md5_hex, normalize_remote_tag};

#[test]
fn test_compare_checksums_matching() {
    let md5 = "d41d8cd98f00b204e9800998ecf8427e";
    let etag = "\"d41d8cd98f00b204e9800998ecf8427e\"";
    assert!(compare_checksums(md5, etag));
}

#[test]
fn test_compare_checksums_not_matching() {
    let md5 = "d41d8cd98f00b204e9800998ecf8427e";
    let etag = "\"a41d8cd98f00b204e9800998ecf8427e\"";
    assert!(!compare_checksums(md5, etag));
}

#[test]
fn test_compare_checksums_multipart() {
    let md5 = "d41d8cd98f00b204e9800998ecf8427e";
    let etag = "\"d41d8cd98f00b204e9800998ecf8427e-5\"";
    assert!(!compare_checksums(md5, etag));
}

#[test]
fn compare_checksums_ignores_ascii_case() {
    // An upper-case local digest still matches the quoted lower-case tag.
    assert!(compare_checksums(
        "D41D8CD98F00B204E9800998ECF8427E",
        "\"d41d8cd98f00b204e9800998ecf8427e\"",
    ));
}

#[test]
fn compare_checksums_hyphen_rejected_whatever_the_digest() {
    // A composite tag matches nothing, not even its own leading part.
    assert!(!compare_checksums("abc-3", "\"abc-3\""));
    assert!(!compare_checksums("", "-"));
}

#[test]
fn compare_checksums_empty_values() {
    assert!(compare_checksums("", ""));
    assert!(compare_checksums("", "\"\""));
    assert!(!compare_checksums("a", ""));
}

#[test]
fn normalize_remote_tag_strips_surrounding_quotes() {
    assert_eq!(normalize_remote_tag("\"abc\""), "abc");
    assert_eq!(normalize_remote_tag("abc"), "abc");
    assert_eq!(normalize_remote_tag("\"\"abc\"\""), "abc");
    assert_eq!(normalize_remote_tag("\"\""), "");
    assert_eq!(normalize_remote_tag("a\"b"), "a\"b");
}

#[test]
fn md5_hex_of_empty_input() {
    assert_eq!(md5_hex(b""), "d41d8cd98f00b204e9800998ecf8427e");
}

#[test]
fn md5_hex_of_known_input() {
    // The well-known digest of "abc"; a hash that merely echoed or resized
    // its input would not produce it.
    assert_eq!(md5_hex(b"abc"), "900150983cd24fb0d6963f7d28e17f72");
}

#[test]
fn md5_hex_matches_its_own_quoted_tag() {
    let digest = md5_hex(b"some file content");
    assert_eq!(digest.len(), 32);
    let quoted = format!("\"{}\"", digest);
    assert!(compare_checksums(&digest, &quoted));
}
