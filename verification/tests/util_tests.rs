use sure_shot::platform::{fresh_uuid, now_rfc3339, sha256_hex};
use sure_shot::strutil::{
    contains_sub, eq_str, is_blank, starts_with_str, str_le, strip_prefix_str, trim_str,
    u64_to_string,
};
use sure_shot::whoami::parse_whoami_output;

#[test]
fn decimal_rendering() {
    assert_eq!(u64_to_string(0), "0");
    assert_eq!(u64_to_string(7), "7");
    assert_eq!(u64_to_string(105), "105");
    assert_eq!(u64_to_string(u64::MAX), "18446744073709551615");
}

#[test]
fn trimming_and_blanks() {
    assert_eq!(trim_str("  alice \n"), "alice");
    assert_eq!(trim_str("alice"), "alice");
    assert_eq!(trim_str(" \t\r\n "), "");
    assert!(is_blank(""));
    assert!(is_blank("  \t"));
    assert!(!is_blank(" a "));
}

#[test]
fn prefix_handling() {
    assert!(starts_with_str("Bearer tok", "Bearer "));
    assert!(!starts_with_str("Bear", "Bearer "));
    assert_eq!(strip_prefix_str("Bearer tok", "Bearer "), Some("tok".to_string()));
    assert_eq!(strip_prefix_str("tok", "Bearer "), None);
}

#[test]
fn substring_search() {
    assert!(contains_sub("hello world", "lo wo"));
    assert!(contains_sub("hello", ""));
    assert!(!contains_sub("hello", "world"));
    assert!(!contains_sub("", "a"));
    assert!(contains_sub("aaa", "aaa"));
}

#[test]
fn string_ordering_is_lexicographic() {
    assert!(str_le("2024-01-01", "2024-01-02"));
    assert!(!str_le("2024-01-02", "2024-01-01"));
    assert!(str_le("abc", "abc"));
    assert!(str_le("ab", "abc"));
    assert!(!str_le("abc", "ab"));
    assert!(str_le("", "a"));
}

#[test]
fn string_equality_is_by_characters() {
    assert!(eq_str("abc", "abc"));
    assert!(!eq_str("abc", "abd"));
    assert!(!eq_str("abc", "ab"));
    assert!(eq_str("", ""));
}

#[test]
fn digest_matches_known_vector() {
    // SHA-256 of "admin" with an empty salt, a published test value.
    assert_eq!(
        sha256_hex("admin", ""),
        "8c6976e5b5410415bde908bd4dee15dfb167a9c873fc4bb8a81f6f2ab448a918"
    );
    // Splitting the input differently must hash the same bytes.
    assert_eq!(sha256_hex("ad", "min"), sha256_hex("admin", ""));
    assert_ne!(sha256_hex("admin", "salt"), sha256_hex("admin", ""));
}

#[test]
fn uuids_are_long_and_distinct() {
    let a = fresh_uuid();
    let b = fresh_uuid();
    assert_eq!(a.len(), 36);
    assert_ne!(a, b);
}

#[test]
fn clock_renders_a_timestamp() {
    let t = now_rfc3339();
    assert!(t.len() >= 20);
    assert!(t.starts_with("20"));
}

#[test]
fn whoami_output_is_cleaned() {
    assert_eq!(parse_whoami_output("alice\n"), "alice");
    assert_eq!(parse_whoami_output("DOMAIN\\alice\r\n"), "alice");
    assert_eq!(parse_whoami_output("  bob  "), "bob");
}
