use text_input::input::TextInput;
use text_input::lines::{
    line_index_for_offset, line_start_offsets, move_by_line, selection_on_line, shaped_lines,
};

#[test]
fn every_newline_starts_a_line() {
    assert_eq!(line_start_offsets(""), vec![0]);
    assert_eq!(line_start_offsets("ab"), vec![0]);
    assert_eq!(line_start_offsets("ab\ncd"), vec![0, 3]);
    assert_eq!(line_start_offsets("ab\n"), vec![0, 3]);
    assert_eq!(line_start_offsets("\n\n"), vec![0, 1, 2]);
    assert_eq!(line_start_offsets("あ\nい"), vec![0, 4]);
}

#[test]
fn an_offset_is_on_the_last_line_that_starts_at_or_before_it() {
    let starts = vec![0, 3, 6];
    assert_eq!(line_index_for_offset(&starts, 0), 0);
    assert_eq!(line_index_for_offset(&starts, 2), 0);
    assert_eq!(line_index_for_offset(&starts, 3), 1);
    assert_eq!(line_index_for_offset(&starts, 5), 1);
    assert_eq!(line_index_for_offset(&starts, 6), 2);
    assert_eq!(line_index_for_offset(&starts, 100), 2);
    assert_eq!(line_index_for_offset(&vec![0], 7), 0);
}

#[test]
fn down_keeps_the_column() {
    assert_eq!(move_by_line("ab\ncd", 0, true), Some(3));
    assert_eq!(move_by_line("ab\ncd", 1, true), Some(4));
    assert_eq!(move_by_line("ab\ncd", 2, true), Some(5));
}

#[test]
fn up_keeps_the_column() {
    assert_eq!(move_by_line("ab\ncd", 3, false), Some(0));
    assert_eq!(move_by_line("ab\ncd", 4, false), Some(1));
    assert_eq!(move_by_line("ab\ncd", 5, false), Some(2));
}

#[test]
fn a_shorter_line_stops_the_cursor_at_its_end() {
    assert_eq!(move_by_line("abcd\nxy", 4, true), Some(7));
    assert_eq!(move_by_line("xy\nabcd", 7, false), Some(2));
    assert_eq!(move_by_line("abcd\n\nxy", 3, true), Some(5));
}

#[test]
fn there_is_no_line_above_the_first_or_below_the_last() {
    assert_eq!(move_by_line("ab\ncd", 1, false), None);
    assert_eq!(move_by_line("ab\ncd", 0, false), None);
    assert_eq!(move_by_line("ab\ncd", 2, false), None);
    assert_eq!(move_by_line("ab\ncd", 3, true), None);
    assert_eq!(move_by_line("ab\ncd", 4, true), None);
    assert_eq!(move_by_line("ab\ncd", 5, true), None);
    assert_eq!(move_by_line("", 0, true), None);
    assert_eq!(move_by_line("", 0, false), None);
    assert_eq!(move_by_line("abc", 2, true), None);
    assert_eq!(move_by_line("abc", 2, false), None);
}

#[test]
fn a_trailing_newline_leaves_an_empty_last_line() {
    assert_eq!(move_by_line("ab\n", 1, true), Some(3));
    assert_eq!(move_by_line("ab\n", 3, false), Some(0));
    assert_eq!(move_by_line("ab\n", 3, true), None);
}

#[test]
fn the_end_of_the_content_is_on_its_last_line() {
    assert_eq!(move_by_line("ab\ncd", 5, false), Some(2));
    assert_eq!(move_by_line("a\nbcd", 5, false), Some(1));
}

#[test]
fn vertical_movement_stays_inside_the_content_and_leaves_the_line() {
    for text in ["", "ab\ncd", "ab\n", "\n\nabc", "あい\nう"] {
        for cursor in 0..=text.len() {
            for down in [false, true] {
                if let Some(target) = move_by_line(text, cursor, down) {
                    assert!(target <= text.len());
                    assert_eq!(target > cursor, down);
                }
            }
        }
    }
}

#[test]
fn the_lines_that_are_laid_out() {
    assert_eq!(shaped_lines(""), vec![(0, 0)]);
    assert_eq!(shaped_lines("ab"), vec![(0, 2)]);
    assert_eq!(shaped_lines("ab\ncd"), vec![(0, 2), (3, 2)]);
    assert_eq!(shaped_lines("ab\n"), vec![(0, 2)]);
    assert_eq!(shaped_lines("\n"), vec![(0, 0)]);
    assert_eq!(shaped_lines("\n\nab"), vec![(0, 0), (1, 0), (2, 2)]);
    assert_eq!(shaped_lines("あ\nい\n"), vec![(0, 3), (4, 3)]);
}

#[test]
fn the_lines_that_are_laid_out_are_those_that_end_with_or_without_a_newline() {
    for text in ["ab", "ab\ncd", "ab\n", "\n", "\n\nab", "a\n\n", "x\ny\nz\n"] {
        let expected: Vec<(usize, usize)> = text
            .split_inclusive('\n')
            .scan(0, |start, line| {
                let span = (*start, line.trim_end_matches('\n').len());
                *start += line.len();
                Some(span)
            })
            .collect();
        assert_eq!(shaped_lines(text), expected);
    }
}

#[test]
fn the_part_of_a_selection_on_a_line() {
    // The line "cd" of "ab\ncd\nef" starts at 3; its newline sits at 5.
    assert_eq!(selection_on_line(3, 5, 3, 2, 1), Some((0, 2)));
    assert_eq!(selection_on_line(4, 5, 3, 2, 1), Some((1, 2)));
    assert_eq!(selection_on_line(0, 8, 3, 2, 1), Some((0, 2)));
    assert_eq!(selection_on_line(0, 4, 3, 2, 1), Some((0, 1)));
    assert_eq!(selection_on_line(4, 8, 3, 2, 1), Some((1, 2)));
}

#[test]
fn a_selection_that_shows_nothing_on_a_line() {
    assert_eq!(selection_on_line(0, 3, 3, 2, 1), None);
    assert_eq!(selection_on_line(6, 8, 3, 2, 1), None);
    assert_eq!(selection_on_line(4, 4, 3, 2, 1), None);
    // Only the newline of the line is selected.
    assert_eq!(selection_on_line(5, 6, 3, 2, 1), None);
    assert_eq!(selection_on_line(5, 8, 3, 2, 1), None);
    assert_eq!(selection_on_line(0, 0, 0, 0, 0), None);
}

#[test]
fn the_line_and_the_column_of_the_cursor() {
    let mut input = TextInput::new();
    assert_eq!(input.cursor_position(), (0, 0));
    input.replace_text_in_range(None, "ab\ncd\n");
    assert_eq!(input.cursor_position(), (2, 0));
    input.move_to(4);
    assert_eq!(input.cursor_position(), (1, 1));
    input.move_to(2);
    assert_eq!(input.cursor_position(), (0, 2));
    input.select_to(0);
    assert_eq!(input.cursor_position(), (0, 0));
    input.select_to(5);
    assert_eq!(input.cursor_position(), (1, 2));
}
