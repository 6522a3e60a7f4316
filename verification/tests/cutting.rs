use text_input::content::{byte_len, clamp_range, floor_char_boundary, replace_range, text_between};

#[test]
fn byte_len_counts_bytes() {
    assert_eq!(byte_len(""), 0);
    assert_eq!(byte_len("aあ😀b"), 9);
}

#[test]
fn floor_char_boundary_moves_back_to_the_start_of_the_character() {
    assert_eq!(floor_char_boundary("aあb", 0), 0);
    assert_eq!(floor_char_boundary("aあb", 1), 1);
    assert_eq!(floor_char_boundary("aあb", 2), 1);
    assert_eq!(floor_char_boundary("aあb", 3), 1);
    assert_eq!(floor_char_boundary("aあb", 4), 4);
    assert_eq!(floor_char_boundary("aあb", 5), 5);
}

#[test]
fn floor_char_boundary_beyond_the_text_is_its_length() {
    assert_eq!(floor_char_boundary("aあb", 6), 5);
    assert_eq!(floor_char_boundary("aあb", usize::MAX), 5);
    assert_eq!(floor_char_boundary("", 2), 0);
}

#[test]
fn clamp_range_brings_the_end_inside_and_the_start_below_it() {
    assert_eq!(clamp_range("hello", 1, 3), (1, 3));
    assert_eq!(clamp_range("hello", 3, 100), (3, 5));
    assert_eq!(clamp_range("hello", 100, 200), (5, 5));
    assert_eq!(clamp_range("hello", 4, 2), (2, 2));
    assert_eq!(clamp_range("aあb", 2, 3), (1, 1));
    assert_eq!(clamp_range("aあb", 2, 4), (1, 4));
}

#[test]
fn text_between_returns_the_range() {
    assert_eq!(text_between("hello", 1, 3), "el");
    assert_eq!(text_between("hello", 0, 5), "hello");
    assert_eq!(text_between("hello", 2, 2), "");
    assert_eq!(text_between("hello", 3, 100), "lo");
    assert_eq!(text_between("aあb", 1, 4), "あ");
    assert_eq!(text_between("aあb", 2, 5), "あb");
}

#[test]
fn replace_range_splices_the_new_text_in() {
    assert_eq!(replace_range("hello", 1, 3, "XY"), "hXYlo");
    assert_eq!(replace_range("hello", 5, 5, "!"), "hello!");
    assert_eq!(replace_range("hello", 0, 0, ">"), ">hello");
    assert_eq!(replace_range("hello", 0, 5, ""), "");
    assert_eq!(replace_range("", 0, 0, "あ"), "あ");
    assert_eq!(replace_range("aあb", 1, 4, "い"), "aいb");
}

#[test]
fn replace_range_absorbs_ranges_that_do_not_fit() {
    assert_eq!(replace_range("hello", 3, 100, ""), "hel");
    assert_eq!(replace_range("hello", 100, 200, "!"), "hello!");
    assert_eq!(replace_range("hello", 4, 2, "X"), "heXllo");
    assert_eq!(replace_range("aあb", 2, 3, "X"), "aXあb");
}
