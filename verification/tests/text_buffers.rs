use user_directory::text::{
    bytes_to_string, buffer_equals, contains_nul, copy_string, eq_ignore_ascii_case,
    get_nullt_index_from_u8, same_string, str_cmp, string_to_bytes, text_matches,
    to_ascii_lower, u8_to_string_no_nullt, username_matches,
};

#[test]
fn copy_string_copies_and_terminates() {
    let mut dest = [0xAAu8; 8];
    copy_string(&mut dest, "abc", 7);
    assert_eq!(dest, [b'a', b'b', b'c', 0, 0xAA, 0xAA, 0xAA, 0xAA]);
}

#[test]
fn copy_string_truncates_at_the_bound() {
    let mut dest = [0xAAu8; 8];
    copy_string(&mut dest, "abcdef", 2);
    assert_eq!(dest, [b'a', b'b', 0, 0xAA, 0xAA, 0xAA, 0xAA, 0xAA]);
}

#[test]
fn copy_string_without_room_for_a_terminator_writes_none() {
    let mut dest = [0xAAu8; 3];
    copy_string(&mut dest, "abc", 3);
    assert_eq!(dest, [b'a', b'b', b'c']);
}

#[test]
fn copy_string_of_nothing_terminates_at_the_front() {
    let mut dest = [0xAAu8; 4];
    copy_string(&mut dest, "", 3);
    assert_eq!(dest, [0, 0xAA, 0xAA, 0xAA]);
}

#[test]
fn terminator_index_is_the_first_zero() {
    assert_eq!(get_nullt_index_from_u8(b"ab\0cd\0"), 2);
    assert_eq!(get_nullt_index_from_u8(b"\0"), 0);
}

#[test]
fn terminator_index_without_zero_is_the_length() {
    assert_eq!(get_nullt_index_from_u8(b"abcd"), 4);
    assert_eq!(get_nullt_index_from_u8(b""), 0);
}

#[test]
fn str_cmp_ignores_trailing_zeros_only() {
    assert!(str_cmp(b"abc\0\0", "abc"));
    assert!(str_cmp(b"abc", "abc"));
    assert!(!str_cmp(b"ab\0cd\0\0", "ab"));
    assert!(str_cmp(b"ab\0cd\0\0", "ab\0cd"));
    assert!(!str_cmp(b"abc\0", "abd"));
    assert!(!str_cmp(b"abc\0", "ab"));
    assert!(!str_cmp(b"abc\0", "Abc"));
}

#[test]
fn str_cmp_reads_malformed_bytes_as_the_empty_string() {
    assert!(str_cmp(&[0xFF, 0x00], ""));
    assert!(!str_cmp(&[0xFF, 0x00], "x"));
    assert!(str_cmp(&[0, 0, 0], ""));
    assert!(str_cmp(&[], ""));
}

#[test]
fn str_cmp_accepts_multibyte_text() {
    let mut buffer = [0u8; 8];
    buffer[..3].copy_from_slice("\u{20AC}".as_bytes());
    assert!(str_cmp(&buffer, "\u{20AC}"));
    assert!(buffer_equals(&buffer, "\u{20AC}"));
    // the first two bytes alone are not well-formed
    assert!(!str_cmp(&buffer[..2], "\u{20AC}"));
    assert!(str_cmp(&buffer[..2], ""));
}

#[test]
fn bytes_to_string_stops_at_the_terminator() {
    assert_eq!(bytes_to_string(b"hi\0there"), "hi");
    assert_eq!(bytes_to_string(b"plain"), "plain");
    assert_eq!(bytes_to_string(b"\0"), "");
    assert_eq!(u8_to_string_no_nullt(b"hi\0there"), "hi");
}

#[test]
fn bytes_to_string_replaces_malformed_bytes() {
    assert_eq!(bytes_to_string(&[0x66, 0xFF, 0x6F, 0x00, 0x41]), "f\u{FFFD}o");
    assert_eq!(u8_to_string_no_nullt(&[0xC3, 0x00]), "\u{FFFD}");
    assert_eq!(bytes_to_string(&[0xC3, 0xA9, 0x00]), "\u{E9}");
}

#[test]
fn string_to_bytes_pads_with_zeros() {
    let buffer = string_to_bytes("token".to_string());
    assert_eq!(&buffer[..5], b"token");
    assert!(buffer[5..].iter().all(|b| *b == 0));
    assert_eq!(buffer.len(), 32);
}

#[test]
fn string_to_bytes_keeps_thirty_one_bytes_at_most() {
    let long = "0123456789012345678901234567890123456789".to_string();
    let buffer = string_to_bytes(long);
    assert_eq!(&buffer[..31], b"0123456789012345678901234567890");
    assert_eq!(buffer[31], 0);
    let exact = string_to_bytes("0123456789012345678901234567890".to_string());
    assert_eq!(&exact[..31], b"0123456789012345678901234567890");
    assert_eq!(exact[31], 0);
}

#[test]
fn case_is_ignored_for_ascii_letters_only() {
    assert!(eq_ignore_ascii_case(b"AlIcE", b"alice"));
    assert!(eq_ignore_ascii_case(b"", b""));
    assert!(!eq_ignore_ascii_case(b"alice", b"alice1"));
    assert!(!eq_ignore_ascii_case(b"[", b"{"));
    assert!(!eq_ignore_ascii_case(b"@", b"`"));
    assert!(eq_ignore_ascii_case(b"Z9_z", b"z9_Z"));
    assert!(!eq_ignore_ascii_case(&[0xC9], &[0xE9]));
}

#[test]
fn lower_case_of_single_bytes() {
    assert_eq!(to_ascii_lower(b'A'), b'a');
    assert_eq!(to_ascii_lower(b'Z'), b'z');
    assert_eq!(to_ascii_lower(b'a'), b'a');
    assert_eq!(to_ascii_lower(b'@'), b'@');
    assert_eq!(to_ascii_lower(b'['), b'[');
    assert_eq!(to_ascii_lower(0xC9), 0xC9);
}

#[test]
fn username_is_matched_up_to_the_terminator() {
    assert!(username_matches(b"Alice\0garbage", "alice"));
    assert!(username_matches(b"Alice", "ALICE"));
    assert!(!username_matches(b"Alice\0", "alic"));
    assert!(!username_matches(b"Alice\0", "alice\0"));
    assert!(username_matches(b"\0", ""));
    assert!(text_matches(b"Bob\0", b"bOB"));
    assert!(!text_matches(b"Bob\0", b"bo"));
}

#[test]
fn strings_are_compared_whole() {
    assert!(same_string("abc", "abc"));
    assert!(!same_string("abc", "abd"));
    assert!(!same_string("abc", "ab"));
    assert!(same_string("", ""));
    assert!(!same_string("Abc", "abc"));
}

#[test]
fn zero_bytes_are_found_in_strings() {
    assert!(contains_nul("a\0b"));
    assert!(contains_nul("\0"));
    assert!(!contains_nul("ab"));
    assert!(!contains_nul(""));
}
