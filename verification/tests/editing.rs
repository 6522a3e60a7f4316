use text_input::input::TextInput;

fn field(text: &str) -> TextInput {
    let mut input = TextInput::new();
    input.replace_text_in_range(None, text);
    input
}

fn field_at(text: &str, cursor: usize) -> TextInput {
    let mut input = field(text);
    input.move_to(cursor);
    input
}

fn field_selecting(text: &str, anchor: usize, cursor: usize) -> TextInput {
    let mut input = field_at(text, anchor);
    input.select_to(cursor);
    input
}

#[test]
fn a_new_field_is_empty() {
    let input = TextInput::new();
    assert_eq!(input.content(), "");
    assert_eq!(input.selected_range(), 0..0);
    assert!(!input.selection_reversed());
    assert_eq!(input.marked_range(), None);
    assert!(!input.is_selecting());
    assert_eq!(input.cursor_offset(), 0);
}

#[test]
fn typing_puts_the_cursor_behind_the_new_text() {
    let mut input = TextInput::new();
    input.replace_text_in_range(None, "he");
    assert_eq!(input.content(), "he");
    assert_eq!(input.selected_range(), 2..2);
    input.replace_text_in_range(None, "llo");
    assert_eq!(input.content(), "hello");
    assert_eq!(input.selected_range(), 5..5);
    input.move_to(0);
    input.replace_text_in_range(None, "あ");
    assert_eq!(input.content(), "あhello");
    assert_eq!(input.selected_range(), 3..3);
}

#[test]
fn typing_replaces_the_selection() {
    let mut input = field_selecting("hello", 1, 4);
    input.replace_text_in_range(None, "ipp");
    assert_eq!(input.content(), "hippo");
    assert_eq!(input.selected_range(), 4..4);
}

#[test]
fn a_given_range_is_in_utf16_offsets() {
    // "😀" is 2 units and 4 bytes: the units 2..3 are the bytes 4..5.
    let mut input = field_at("😀ab", 0);
    input.replace_text_in_range(Some(2..3), "X");
    assert_eq!(input.content(), "😀Xb");
    assert_eq!(input.selected_range(), 5..5);
}

#[test]
fn a_given_range_wins_over_the_marked_range_and_the_selection() {
    let mut input = field("abcdef");
    input.replace_and_mark_text_in_range(Some(2..4), "CD", None);
    input.move_to(0);
    input.replace_text_in_range(Some(5..6), "F");
    assert_eq!(input.content(), "abCDeF");
    assert_eq!(input.selected_range(), 6..6);
    assert_eq!(input.marked_range(), None);
}

#[test]
fn the_marked_range_wins_over_the_selection() {
    let mut input = field("abcdef");
    input.replace_and_mark_text_in_range(Some(2..4), "CD", None);
    input.move_to(0);
    input.replace_text_in_range(None, "x");
    assert_eq!(input.content(), "abxef");
    assert_eq!(input.selected_range(), 3..3);
    assert_eq!(input.marked_range(), None);
}

#[test]
fn a_range_beyond_the_content_is_brought_inside() {
    let mut input = field("hello");
    input.replace_text_in_range(Some(3..100), "p");
    assert_eq!(input.content(), "help");
    assert_eq!(input.selected_range(), 4..4);
    input.replace_text_in_range(Some(50..60), "!");
    assert_eq!(input.content(), "help!");
    assert_eq!(input.selected_range(), 5..5);
}

#[test]
fn a_range_whose_start_lies_behind_its_end_is_an_insertion_at_the_end() {
    let mut input = field("hello");
    input.replace_text_in_range(Some(4..2), "X");
    assert_eq!(input.content(), "heXllo");
    assert_eq!(input.selected_range(), 3..3);
}

#[test]
fn a_cursor_inside_a_character_edits_before_that_character() {
    // Moving down from column 1 lands inside "あ", which takes the bytes 3..6.
    let mut input = field_at("ab\nあ", 1);
    input.down();
    assert_eq!(input.cursor_offset(), 4);
    input.replace_text_in_range(None, "x");
    assert_eq!(input.content(), "ab\nxあ");
    assert_eq!(input.selected_range(), 4..4);
}

#[test]
fn move_to_stops_at_the_end_of_the_content() {
    let mut input = field("abc");
    input.move_to(2);
    assert_eq!(input.selected_range(), 2..2);
    input.move_to(3);
    assert_eq!(input.selected_range(), 3..3);
    input.move_to(4);
    assert_eq!(input.selected_range(), 3..3);
    input.move_to(usize::MAX);
    assert_eq!(input.selected_range(), 3..3);
}

#[test]
fn select_to_stops_at_the_end_of_the_content() {
    let mut input = field_at("abc", 1);
    input.select_to(100);
    assert_eq!(input.selected_range(), 1..3);
    assert!(!input.selection_reversed());
}

#[test]
fn select_to_keeps_the_ends_in_order_in_both_directions() {
    let mut input = field_at("abcdef", 3);
    input.select_to(5);
    assert_eq!(input.selected_range(), 3..5);
    assert!(!input.selection_reversed());
    assert_eq!(input.cursor_offset(), 5);
    input.select_to(1);
    assert_eq!(input.selected_range(), 1..3);
    assert!(input.selection_reversed());
    assert_eq!(input.cursor_offset(), 1);
    input.select_to(6);
    assert_eq!(input.selected_range(), 3..6);
    assert!(!input.selection_reversed());
    assert_eq!(input.cursor_offset(), 6);
}

#[test]
fn left_and_right_step_over_whole_clusters() {
    let mut input = field_at("ae\u{301}b", 0);
    input.right();
    assert_eq!(input.selected_range(), 1..1);
    input.right();
    assert_eq!(input.selected_range(), 4..4);
    input.right();
    assert_eq!(input.selected_range(), 5..5);
    input.right();
    assert_eq!(input.selected_range(), 5..5);
    input.left();
    assert_eq!(input.selected_range(), 4..4);
    input.left();
    assert_eq!(input.selected_range(), 1..1);
    input.left();
    assert_eq!(input.selected_range(), 0..0);
    input.left();
    assert_eq!(input.selected_range(), 0..0);
}

#[test]
fn left_and_right_collapse_a_selection_to_its_ends() {
    let mut input = field_selecting("abcdef", 2, 5);
    input.left();
    assert_eq!(input.selected_range(), 2..2);
    let mut input = field_selecting("abcdef", 2, 5);
    input.right();
    assert_eq!(input.selected_range(), 5..5);
    let mut input = field_selecting("abcdef", 5, 2);
    input.left();
    assert_eq!(input.selected_range(), 2..2);
}

#[test]
fn select_left_and_select_right_extend_by_one_cluster() {
    let mut input = field_at("abe\u{301}", 2);
    input.select_right();
    assert_eq!(input.selected_range(), 2..5);
    assert!(!input.selection_reversed());
    input.select_left();
    assert_eq!(input.selected_range(), 2..2);
    input.select_left();
    assert_eq!(input.selected_range(), 1..2);
    assert!(input.selection_reversed());
    input.select_left();
    assert_eq!(input.selected_range(), 0..2);
    input.select_right();
    assert_eq!(input.selected_range(), 1..2);
}

#[test]
fn select_all_selects_the_whole_content() {
    let mut input = field_at("hello", 2);
    input.select_all();
    assert_eq!(input.selected_range(), 0..5);
    assert_eq!(input.cursor_offset(), 5);
    let mut empty = TextInput::new();
    empty.select_all();
    assert_eq!(empty.selected_range(), 0..0);
}

#[test]
fn select_all_from_a_reversed_selection() {
    let mut input = field_selecting("hello", 4, 1);
    assert!(input.selection_reversed());
    input.select_all();
    assert_eq!(input.selected_range(), 0..5);
    assert_eq!(input.cursor_offset(), 5);
}

#[test]
fn home_and_end_go_to_the_ends_of_the_content() {
    let mut input = field_at("ab\ncd", 4);
    input.home();
    assert_eq!(input.selected_range(), 0..0);
    input.end();
    assert_eq!(input.selected_range(), 5..5);
}

#[test]
fn up_and_down_move_between_lines() {
    let mut input = field_at("abc\nde\nfgh", 2);
    input.down();
    assert_eq!(input.selected_range(), 6..6);
    input.down();
    assert_eq!(input.selected_range(), 9..9);
    input.down();
    assert_eq!(input.selected_range(), 9..9);
    input.up();
    assert_eq!(input.selected_range(), 6..6);
    input.up();
    assert_eq!(input.selected_range(), 2..2);
    input.up();
    assert_eq!(input.selected_range(), 2..2);
}

#[test]
fn up_and_down_start_from_the_cursor_of_a_selection() {
    let mut input = field_selecting("abc\ndef", 1, 2);
    input.down();
    assert_eq!(input.selected_range(), 6..6);
    let mut input = field_selecting("abc\ndef", 6, 5);
    input.up();
    assert_eq!(input.selected_range(), 1..1);
}

#[test]
fn down_on_the_last_line_leaves_a_selection_as_it_is() {
    let mut input = field_selecting("ab", 0, 2);
    input.down();
    assert_eq!(input.selected_range(), 0..2);
    assert!(!input.selection_reversed());
    assert_eq!(input.content(), "ab");
    let mut input = field_selecting("ab\ncd", 5, 3);
    input.down();
    assert_eq!(input.selected_range(), 3..5);
    assert!(input.selection_reversed());
    let mut input = field_selecting("ab\ncd", 1, 4);
    input.down();
    assert_eq!(input.selected_range(), 1..4);
    assert_eq!(input.cursor_offset(), 4);
}

#[test]
fn up_on_the_first_line_leaves_a_selection_as_it_is() {
    let mut input = field_selecting("ab", 0, 2);
    input.up();
    assert_eq!(input.selected_range(), 0..2);
    assert!(!input.selection_reversed());
    assert_eq!(input.content(), "ab");
    let mut input = field_selecting("ab\ncd", 2, 0);
    input.up();
    assert_eq!(input.selected_range(), 0..2);
    assert!(input.selection_reversed());
    let mut input = field_selecting("ab\ncd", 4, 1);
    input.up();
    assert_eq!(input.selected_range(), 1..4);
    assert_eq!(input.cursor_offset(), 1);
}

#[test]
fn up_and_down_without_a_line_to_move_to_keep_the_composition_and_the_drag() {
    let mut input = field("ab");
    input.replace_and_mark_text_in_range(None, "cd", Some(0..2));
    input.down();
    input.up();
    assert_eq!(input.content(), "abcd");
    assert_eq!(input.marked_range(), Some(2..4));
    assert_eq!(input.selected_range(), 2..4);
}

#[test]
fn up_and_down_to_a_line_collapse_a_selection() {
    let mut input = field_selecting("ab\ncd", 0, 2);
    input.down();
    assert_eq!(input.selected_range(), 5..5);
    let mut input = field_selecting("ab\ncd", 5, 3);
    input.up();
    assert_eq!(input.selected_range(), 0..0);
}

#[test]
fn enter_inserts_a_newline() {
    let mut input = field_at("abcd", 2);
    input.enter();
    assert_eq!(input.content(), "ab\ncd");
    assert_eq!(input.selected_range(), 3..3);
    let mut input = field_selecting("abcd", 1, 3);
    input.enter();
    assert_eq!(input.content(), "a\nd");
    assert_eq!(input.selected_range(), 2..2);
}

#[test]
fn backspace_on_a_cursor_removes_one_cluster() {
    let mut input = field_at("ae\u{301}b", 4);
    input.backspace();
    assert_eq!(input.content(), "ab");
    assert_eq!(input.selected_range(), 1..1);
    input.backspace();
    assert_eq!(input.content(), "b");
    assert_eq!(input.selected_range(), 0..0);
    input.backspace();
    assert_eq!(input.content(), "b");
    assert_eq!(input.selected_range(), 0..0);
}

#[test]
fn backspace_removes_a_whole_emoji_sequence() {
    let family = "👨‍👩‍👧";
    let mut input = field(&format!("x{family}"));
    input.backspace();
    assert_eq!(input.content(), "x");
    assert_eq!(input.selected_range(), 1..1);
}

#[test]
fn backspace_on_a_selection_removes_the_selected_text() {
    let mut input = field_selecting("hello", 1, 4);
    input.backspace();
    assert_eq!(input.content(), "ho");
    assert_eq!(input.selected_range(), 1..1);
    let mut input = field_selecting("hello", 4, 1);
    input.backspace();
    assert_eq!(input.content(), "ho");
    assert_eq!(input.selected_range(), 1..1);
}

#[test]
fn backspace_while_composing_removes_the_marked_text() {
    let mut input = field("ab");
    input.replace_and_mark_text_in_range(None, "xyz", None);
    input.move_to(1);
    input.select_to(2);
    input.backspace();
    assert_eq!(input.content(), "ab");
    assert_eq!(input.selected_range(), 2..2);
    assert_eq!(input.marked_range(), None);
}

#[test]
fn delete_on_a_cursor_removes_one_cluster() {
    let mut input = field_at("ae\u{301}b", 1);
    input.delete();
    assert_eq!(input.content(), "ab");
    assert_eq!(input.selected_range(), 1..1);
    input.delete();
    assert_eq!(input.content(), "a");
    assert_eq!(input.selected_range(), 1..1);
    input.delete();
    assert_eq!(input.content(), "a");
    assert_eq!(input.selected_range(), 1..1);
}

#[test]
fn delete_on_a_selection_removes_the_selected_text() {
    let mut input = field_selecting("hello", 0, 2);
    input.delete();
    assert_eq!(input.content(), "llo");
    assert_eq!(input.selected_range(), 0..0);
}

#[test]
fn copy_returns_the_selected_text_and_changes_nothing() {
    let input = field_selecting("hello", 1, 3);
    assert_eq!(input.copy(), Some("el".to_string()));
    assert_eq!(input.content(), "hello");
    assert_eq!(input.selected_range(), 1..3);
}

#[test]
fn copy_of_a_cursor_is_nothing() {
    assert_eq!(field_at("hello", 2).copy(), None);
    assert_eq!(TextInput::new().copy(), None);
}

#[test]
fn cut_returns_the_selected_text_and_removes_it() {
    let mut input = field_selecting("hello", 1, 3);
    assert_eq!(input.cut(), Some("el".to_string()));
    assert_eq!(input.content(), "hlo");
    assert_eq!(input.selected_range(), 1..1);
}

#[test]
fn cut_of_a_cursor_does_nothing() {
    let mut input = field_at("hello", 2);
    assert_eq!(input.cut(), None);
    assert_eq!(input.content(), "hello");
    assert_eq!(input.selected_range(), 2..2);
}

#[test]
fn paste_replaces_the_selection() {
    let mut input = field_selecting("hello", 1, 4);
    input.paste(Some("a"));
    assert_eq!(input.content(), "hao");
    assert_eq!(input.selected_range(), 2..2);
}

#[test]
fn paste_of_an_empty_clipboard_does_nothing() {
    let mut input = field_selecting("hello", 1, 4);
    input.paste(None);
    assert_eq!(input.content(), "hello");
    assert_eq!(input.selected_range(), 1..4);
}

#[test]
fn reset_empties_the_field() {
    let mut input = field_selecting("hello", 4, 1);
    input.replace_and_mark_text_in_range(None, "x", None);
    input.reset();
    assert_eq!(input.content(), "");
    assert_eq!(input.selected_range(), 0..0);
    assert!(!input.selection_reversed());
    assert_eq!(input.marked_range(), None);
    assert!(!input.is_selecting());
}

#[test]
fn the_field_converts_offsets_of_its_content() {
    let input = field("a😀b");
    assert_eq!(input.offset_to_utf16(5), 3);
    assert_eq!(input.offset_to_utf16(6), 4);
    assert_eq!(input.offset_from_utf16(3), 5);
    assert_eq!(input.offset_from_utf16(9), 6);
    assert_eq!(input.range_to_utf16(&(1..5)), 1..3);
    assert_eq!(input.range_from_utf16(&(1..3)), 1..5);
}

#[test]
fn the_field_finds_the_cursor_stops_of_its_content() {
    let input = field("ae\u{301}b");
    assert_eq!(input.previous_boundary(4), 1);
    assert_eq!(input.previous_boundary(1), 0);
    assert_eq!(input.previous_boundary(0), 0);
    assert_eq!(input.next_boundary(1), 4);
    assert_eq!(input.next_boundary(4), 5);
    assert_eq!(input.next_boundary(5), 5);
}

#[test]
fn delete_at_the_start_removes_the_first_cluster() {
    let mut input = field_at("e\u{301}b", 0);
    input.delete();
    assert_eq!(input.content(), "b");
    assert_eq!(input.selected_range(), 0..0);
    input.delete();
    assert_eq!(input.content(), "");
    input.delete();
    assert_eq!(input.content(), "");
}
