use text_input::boundary::{
    next_boundary, next_boundary_in, previous_boundary, previous_boundary_in,
};

// "e" with a combining acute accent is one cluster of 3 bytes.
const ACCENTED: &str = "e\u{301}x";

#[test]
fn previous_boundary_is_the_greatest_start_below() {
    assert_eq!(previous_boundary("abc", 3), 2);
    assert_eq!(previous_boundary("abc", 2), 1);
    assert_eq!(previous_boundary("abc", 1), 0);
    assert_eq!(previous_boundary(ACCENTED, 4), 3);
    assert_eq!(previous_boundary(ACCENTED, 3), 0);
}

#[test]
fn previous_boundary_is_zero_where_no_start_is_below() {
    assert_eq!(previous_boundary("abc", 0), 0);
    assert_eq!(previous_boundary("", 0), 0);
    assert_eq!(previous_boundary("", 7), 0);
}

#[test]
fn previous_boundary_from_inside_a_cluster_is_its_start() {
    assert_eq!(previous_boundary(ACCENTED, 1), 0);
    assert_eq!(previous_boundary(ACCENTED, 2), 0);
}

#[test]
fn previous_boundary_beyond_the_text_is_the_last_start() {
    assert_eq!(previous_boundary("abc", 100), 2);
}

#[test]
fn next_boundary_is_the_least_start_above() {
    assert_eq!(next_boundary("abc", 0), 1);
    assert_eq!(next_boundary("abc", 1), 2);
    assert_eq!(next_boundary(ACCENTED, 0), 3);
    assert_eq!(next_boundary(ACCENTED, 1), 3);
}

#[test]
fn next_boundary_is_the_length_where_no_start_is_above() {
    assert_eq!(next_boundary("abc", 2), 3);
    assert_eq!(next_boundary("abc", 3), 3);
    assert_eq!(next_boundary("abc", 100), 3);
    assert_eq!(next_boundary(ACCENTED, 3), 4);
    assert_eq!(next_boundary("", 0), 0);
}

#[test]
fn clusters_of_several_characters_are_one_stop() {
    // A family emoji joined by zero-width joiners, and a carriage return
    // with its line feed.
    let family = "👨‍👩‍👧";
    assert_eq!(next_boundary(family, 0), family.len());
    assert_eq!(previous_boundary(family, family.len()), 0);
    assert_eq!(next_boundary("a\r\nb", 1), 3);
    assert_eq!(previous_boundary("a\r\nb", 3), 1);
}

#[test]
fn boundaries_among_given_starts() {
    let starts = vec![0, 3, 6, 11];
    assert_eq!(previous_boundary_in(&starts, 0), 0);
    assert_eq!(previous_boundary_in(&starts, 3), 0);
    assert_eq!(previous_boundary_in(&starts, 4), 3);
    assert_eq!(previous_boundary_in(&starts, 13), 11);
    assert_eq!(next_boundary_in(&starts, 0, 13), 3);
    assert_eq!(next_boundary_in(&starts, 10, 13), 11);
    assert_eq!(next_boundary_in(&starts, 11, 13), 13);
    assert_eq!(previous_boundary_in(&Vec::new(), 5), 0);
    assert_eq!(next_boundary_in(&Vec::new(), 5, 9), 9);
}

#[test]
fn the_two_stops_bracket_every_offset() {
    for text in ["", "abc", ACCENTED, "a\r\nb", "aあ😀b", "👨‍👩‍👧x"] {
        for offset in 0..=text.len() {
            assert!(previous_boundary(text, next_boundary(text, offset)) <= offset);
            assert!(offset <= next_boundary(text, previous_boundary(text, offset)));
        }
    }
}

#[test]
fn the_stops_are_character_boundaries() {
    for text in [ACCENTED, "aあ😀b", "👨‍👩‍👧x"] {
        for offset in 0..=text.len() + 1 {
            assert!(text.is_char_boundary(previous_boundary(text, offset)));
            assert!(text.is_char_boundary(next_boundary(text, offset)));
        }
    }
}

#[test]
fn the_first_cluster_starts_at_zero() {
    for text in ["a", ACCENTED, "\u{301}x", "\n", "😀", "👨‍👩‍👧x", " a"] {
        assert_eq!(previous_boundary(text, 1), 0);
        assert_eq!(previous_boundary(text, next_boundary(text, 0)), 0);
    }
}
