use text_input::utf16::{
    char_len_utf16, char_len_utf8, offset_from_utf16, offset_to_utf16, range_from_utf16,
    range_to_utf16,
};

// "a" is 1 byte and 1 unit, "あ" 3 bytes and 1 unit, "😀" 4 bytes and 2 units.
const MIXED: &str = "aあ😀b";

#[test]
fn char_widths_follow_the_encodings() {
    assert_eq!(char_len_utf8('a'), 1);
    assert_eq!(char_len_utf8('é'), 2);
    assert_eq!(char_len_utf8('あ'), 3);
    assert_eq!(char_len_utf8('😀'), 4);
    assert_eq!(char_len_utf16('a'), 1);
    assert_eq!(char_len_utf16('あ'), 1);
    assert_eq!(char_len_utf16('\u{ffff}'), 1);
    assert_eq!(char_len_utf16('\u{10000}'), 2);
    assert_eq!(char_len_utf16('😀'), 2);
    let edges =
        ['\0', 'a', '\u{7f}', '\u{80}', '\u{7ff}', '\u{800}', '\u{ffff}', '\u{10000}', '\u{10ffff}'];
    for c in edges {
        assert_eq!(char_len_utf8(c), c.len_utf8());
        assert_eq!(char_len_utf16(c), c.len_utf16());
    }
}

#[test]
fn to_utf16_counts_characters_that_start_before_the_offset() {
    assert_eq!(offset_to_utf16(MIXED, 0), 0);
    assert_eq!(offset_to_utf16(MIXED, 1), 1);
    assert_eq!(offset_to_utf16(MIXED, 4), 2);
    assert_eq!(offset_to_utf16(MIXED, 8), 4);
    assert_eq!(offset_to_utf16(MIXED, 9), 5);
}

#[test]
fn to_utf16_inside_a_character_counts_that_character() {
    assert_eq!(offset_to_utf16(MIXED, 2), 2);
    assert_eq!(offset_to_utf16(MIXED, 3), 2);
    assert_eq!(offset_to_utf16(MIXED, 5), 4);
}

#[test]
fn to_utf16_beyond_the_text_is_its_utf16_length() {
    assert_eq!(offset_to_utf16(MIXED, 10), 5);
    assert_eq!(offset_to_utf16(MIXED, usize::MAX), 5);
    assert_eq!(offset_to_utf16("", 3), 0);
}

#[test]
fn from_utf16_sums_native_widths() {
    assert_eq!(offset_from_utf16(MIXED, 0), 0);
    assert_eq!(offset_from_utf16(MIXED, 1), 1);
    assert_eq!(offset_from_utf16(MIXED, 2), 4);
    assert_eq!(offset_from_utf16(MIXED, 4), 8);
    assert_eq!(offset_from_utf16(MIXED, 5), 9);
}

#[test]
fn from_utf16_inside_a_surrogate_pair_ends_behind_the_character() {
    assert_eq!(offset_from_utf16(MIXED, 3), 8);
}

#[test]
fn from_utf16_never_leaves_the_text() {
    assert_eq!(offset_from_utf16(MIXED, 6), 9);
    assert_eq!(offset_from_utf16(MIXED, usize::MAX), 9);
    assert_eq!(offset_from_utf16("", 1), 0);
    for offset16 in 0..8 {
        let native = offset_from_utf16(MIXED, offset16);
        assert!(native <= MIXED.len());
        assert!(MIXED.is_char_boundary(native));
    }
}

#[test]
fn native_offsets_survive_the_round_trip() {
    for text in ["", "hello", MIXED, "é\nö", "👨‍👩‍👧"] {
        for offset in 0..=text.len() {
            if text.is_char_boundary(offset) {
                assert_eq!(offset_from_utf16(text, offset_to_utf16(text, offset)), offset);
            }
        }
    }
}

#[test]
fn utf16_offsets_on_a_boundary_survive_the_round_trip() {
    // The UTF-16 boundaries of MIXED are 0, 1, 2, 4 and 5.
    for offset16 in [0, 1, 2, 4, 5] {
        assert_eq!(offset_to_utf16(MIXED, offset_from_utf16(MIXED, offset16)), offset16);
    }
    // 3 splits the surrogate pair and does not come back.
    assert_eq!(offset_to_utf16(MIXED, offset_from_utf16(MIXED, 3)), 4);
}

#[test]
fn ranges_are_mapped_end_by_end() {
    assert_eq!(range_to_utf16(MIXED, &(1..8)), 1..4);
    assert_eq!(range_from_utf16(MIXED, &(1..4)), 1..8);
    assert_eq!(range_to_utf16(MIXED, &(8..1)), 4..1);
    assert_eq!(range_from_utf16(MIXED, &(0..100)), 0..9);
}
