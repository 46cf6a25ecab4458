use localshare::text::{
    chars_of, concat2, concat3, eq_ignore_ascii_case, hex_encode, push_decimal, replace_bytes,
    starts_with, string_from_chars, trim_end_matches_char,
};

#[test]
fn hex_encode_gives_two_lower_case_digits_per_byte() {
    assert_eq!(hex_encode(&[0x00, 0x0f, 0xab, 0xff]), "000fabff");
    assert_eq!(hex_encode(&[]), "");
}

#[test]
fn decimal_rendering() {
    let mut s = String::from("n=");
    push_decimal(&mut s, 0);
    assert_eq!(s, "n=0");
    let mut s = String::new();
    push_decimal(&mut s, 53317);
    assert_eq!(s, "53317");
    let mut s = String::new();
    push_decimal(&mut s, u64::MAX);
    assert_eq!(s, "18446744073709551615");
}

#[test]
fn trailing_slashes_are_trimmed() {
    assert_eq!(trim_end_matches_char("/tmp//", '/'), "/tmp");
    assert_eq!(trim_end_matches_char("/", '/'), "");
    assert_eq!(trim_end_matches_char("a/b", '/'), "a/b");
}

#[test]
fn prefixes_and_case() {
    assert!(starts_with("text/html; charset=utf-8", "text/"));
    assert!(!starts_with("application/json", "text/"));
    assert!(!starts_with("te", "text/"));
    assert!(eq_ignore_ascii_case("NaTiVe", "native"));
    assert!(!eq_ignore_ascii_case("nativ", "native"));
    assert!(!eq_ignore_ascii_case("nätive", "native"));
}

#[test]
fn replacement_is_left_to_right_and_non_overlapping() {
    let s = b"aaaa".to_vec();
    assert_eq!(replace_bytes(&s, &b"aa".to_vec(), &b"b".to_vec()), b"bb".to_vec());
    let s = b"xaay".to_vec();
    assert_eq!(replace_bytes(&s, &b"aa".to_vec(), &b"".to_vec()), b"xy".to_vec());
    let s = b"abc".to_vec();
    assert_eq!(replace_bytes(&s, &b"abcd".to_vec(), &b"z".to_vec()), b"abc".to_vec());
}

#[test]
fn char_helpers() {
    assert_eq!(chars_of("héllo"), vec!['h', 'é', 'l', 'l', 'o']);
    assert_eq!(string_from_chars(&vec!['o', 'k']), "ok");
    assert_eq!(concat2("a", "b"), "ab");
    assert_eq!(concat3("a", "b", "c"), "abc");
}
