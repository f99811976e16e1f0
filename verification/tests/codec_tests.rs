use keywords_reply_bot::codec::byte_to_utf16;
use keywords_reply_bot::codec::utf16_to_byte;
use keywords_reply_bot::codec::utf16_to_char_idx;
use keywords_reply_bot::codec::utf16_prefix;

#[test]
fn round_trip_ascii_boundaries() {
    let s = "hello world";
    for (b, _) in s.char_indices() {
        let u = byte_to_utf16(s, b);
        assert_eq!(utf16_to_byte(s, u), b);
    }
    let end = s.len();
    let u = byte_to_utf16(s, end);
    assert_eq!(utf16_to_byte(s, u), end);
}

#[test]
fn round_trip_multibyte_boundaries() {
    // Two-byte, three-byte and four-byte characters, and an ASCII mix.
    let s = "a\u{e9}\u{4e16}\u{1f600}z";
    for (b, _) in s.char_indices() {
        let u = byte_to_utf16(s, b);
        assert_eq!(utf16_to_byte(s, u), b);
    }
    let end = s.len();
    let u = byte_to_utf16(s, end);
    assert_eq!(utf16_to_byte(s, u), end);
}

#[test]
fn utf16_counts_surrogate_pairs() {
    // U+1F600 needs two UTF-16 units but four UTF-8 bytes.
    let s = "\u{1f600}";
    assert_eq!(byte_to_utf16(s, 4), 2);
    assert_eq!(utf16_to_byte(s, 2), 4);
    // An offset inside the character stops at its boundary.
    assert_eq!(byte_to_utf16(s, 1), 2);
    assert_eq!(utf16_to_byte(s, 1), 4);
}

#[test]
fn offsets_past_the_end_are_clamped() {
    let s = "ab\u{4e16}";
    assert_eq!(byte_to_utf16(s, 10_000), 3);
    assert_eq!(utf16_to_byte(s, 10_000), 5);
    assert_eq!(utf16_to_char_idx(s, 10_000), 3);
}

#[test]
fn empty_text_is_all_zero() {
    assert_eq!(byte_to_utf16("", 0), 0);
    assert_eq!(byte_to_utf16("", 7), 0);
    assert_eq!(utf16_to_byte("", 7), 0);
    assert_eq!(utf16_to_char_idx("", 7), 0);
}

#[test]
fn char_index_of_utf16_offset() {
    let s = "a\u{1f600}b";
    assert_eq!(utf16_to_char_idx(s, 0), 0);
    assert_eq!(utf16_to_char_idx(s, 1), 1);
    // Offset 2 splits the surrogate pair; the scan stops past the pair.
    assert_eq!(utf16_to_char_idx(s, 2), 2);
    assert_eq!(utf16_to_char_idx(s, 3), 2);
    assert_eq!(utf16_to_char_idx(s, 4), 3);
    assert_eq!(utf16_prefix(s, 2), 3);
}
