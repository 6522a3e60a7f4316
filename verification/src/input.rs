//! An editable text field and every operation on it: cursor movement,
//! selection, edits, clipboard, input-method composition and pointer hit
//! testing.

use vstd::prelude::*;
use std::ops::Range;
use crate::boundary::{
    grapheme_starts, is_cursor_stop, is_start, is_start_sequence, next_boundary,
    next_boundary_of, previous_boundary, previous_boundary_of, starts_on_boundaries,
};
use crate::content::{
    byte_len, clamp_range, lemma_floor_boundary, replace_range, slice_text, text_between,
};
use crate::geometry::{beyond, lines_beyond, Bounds, Point};
use crate::hit_test::{index_in_line, line_below, line_start, Layout, PointerTarget};
use crate::lines::{
    as_ints, lemma_line_containing, lemma_line_starts_ordered, line_containing,
    line_index_for_offset, line_start_offsets, line_starts, move_by_line, vertical_target,
};
use crate::model::TextInputView;
use crate::selection::Selection;
use crate::utf16::{
    from_utf16, is_native_boundary, lemma_utf8_len_nonnegative, lemma_utf8_len_positive,
    offset_from_utf16, offset_to_utf16, range_from_utf16, range_to_utf16, to_utf16, utf8_len,
};

verus! {

/// A selection in UTF-16 offsets, as an input method sees it.
#[derive(Debug)]
pub struct Utf16Selection {
    /// The selected range.
    pub range: Range<usize>,
    /// Whether the cursor is at the start of the range.
    pub reversed: bool,
}

/// An editable, multi-line text field.
pub struct TextInput {
    content: String,
    selection: Selection,
    marked_range: Option<(usize, usize)>,
    last_layout: Option<Layout>,
    is_selecting: bool,
}

impl View for TextInput {
    type V = TextInputView;

    closed spec fn view(&self) -> TextInputView {
        TextInputView {
            text: self.content@,
            selection: self.selection,
            marked: self.marked_range,
            layout: match self.last_layout {
                Some(layout) => Some(layout@),
                None => None,
            },
            selecting: self.is_selecting,
        }
    }
}

impl TextInput {
    /// An empty field with the cursor at 0, nothing marked and no layout.
    pub fn new() -> (input: TextInput)
        ensures
            input@ == TextInputView::empty(),
            input@.wf(),
    {
        TextInput {
            content: String::new(),
            selection: Selection::new(),
            marked_range: None,
            last_layout: None,
            is_selecting: false,
        }
    }

    /// The content.
    pub fn content(&self) -> (text: &str)
        ensures
            text@ == self@.text,
    {
        self.content.as_str()
    }

    /// The selected range.
    pub fn selected_range(&self) -> (range: Range<usize>)
        ensures
            range.start == self@.selection.start,
            range.end == self@.selection.end,
    {
        self.selection.start..self.selection.end
    }

    /// Whether the cursor is at the start of the selection.
    pub fn selection_reversed(&self) -> (reversed: bool)
        ensures
            reversed == self@.selection.reversed,
    {
        self.selection.reversed
    }

    /// The offset of the cursor: the start of a reversed selection, the end
    /// of any other.
    pub fn cursor_offset(&self) -> (offset: usize)
        ensures
            offset == self@.selection.cursor(),
    {
        self.selection.cursor_offset()
    }

    /// Collapses the selection to a cursor at `offset`, or at the end of the
    /// content if `offset` lies beyond it.
    pub fn move_to(&mut self, offset: usize)
        requires
            old(self)@.wf(),
        ensures
            final(self)@ == old(self)@.moved_to(offset as int),
            final(self)@.wf(),
    {
        let len = byte_len(self.content.as_str());
        let target = if offset <= len {
            offset
        } else {
            len
        };
        self.selection.move_to(target);
    }

    /// Takes the cursor to `offset`, or to the end of the content if
    /// `offset` lies beyond it, and keeps the anchor. The selection has its
    /// ends in order afterwards, whichever way the cursor went.
    pub fn select_to(&mut self, offset: usize)
        requires
            old(self)@.wf(),
        ensures
            final(self)@ == old(self)@.selected_to(offset as int),
            final(self)@.selection.start <= final(self)@.selection.end,
            final(self)@.wf(),
    {
        let len = byte_len(self.content.as_str());
        let target = if offset <= len {
            offset
        } else {
            len
        };
        self.selection.select_to(target);
    }

    /// The native offset in the content of a UTF-16 offset: always a
    /// character boundary inside the content.
    pub fn offset_from_utf16(&self, offset: usize) -> (native: usize)
        ensures
            native == from_utf16(self@.text, offset as int),
            native <= self@.len(),
            is_native_boundary(self@.text, native as int),
    {
        offset_from_utf16(self.content.as_str(), offset)
    }

    /// The UTF-16 offset of a native offset in the content.
    pub fn offset_to_utf16(&self, offset: usize) -> (offset16: usize)
        ensures
            offset16 == to_utf16(self@.text, offset as int),
    {
        offset_to_utf16(self.content.as_str(), offset)
    }

    /// Maps both ends of a native range to UTF-16 offsets.
    pub fn range_to_utf16(&self, range: &Range<usize>) -> (range16: Range<usize>)
        ensures
            range16.start == to_utf16(self@.text, range.start as int),
            range16.end == to_utf16(self@.text, range.end as int),
    {
        range_to_utf16(self.content.as_str(), range)
    }

    /// Maps both ends of a UTF-16 range to native offsets: each is a
    /// character boundary inside the content.
    pub fn range_from_utf16(&self, range_utf16: &Range<usize>) -> (range: Range<usize>)
        ensures
            range.start == from_utf16(self@.text, range_utf16.start as int),
            range.end == from_utf16(self@.text, range_utf16.end as int),
            range.start <= self@.len(),
            range.end <= self@.len(),
            is_native_boundary(self@.text, range.start as int),
            is_native_boundary(self@.text, range.end as int),
    {
        range_from_utf16(self.content.as_str(), range_utf16)
    }

    /// The cursor stop before `offset`: the greatest start of a grapheme
    /// cluster that is strictly less than `offset`, or 0 if there is none.
    /// The stop is a character boundary of the content, and stepping forward
    /// from it never stops short of an `offset` inside the content.
    pub fn previous_boundary(&self, offset: usize) -> (stop: usize)
        ensures
            stop == previous_boundary_of(self@.text, offset as int),
            stop <= offset,
            offset > 0 ==> stop < offset,
            stop <= self@.len(),
            is_native_boundary(self@.text, stop as int),
            is_cursor_stop(self@.text, offset as int) ==> is_native_boundary(
                self@.text,
                offset as int,
            ),
            offset > 0 && is_cursor_stop(self@.text, offset as int) ==> next_boundary_of(
                self@.text,
                stop as int,
            ) == offset,
            offset <= self@.len() ==> offset <= next_boundary_of(self@.text, stop as int),
            forall|i: int|
                0 <= i < grapheme_starts(self@.text).len() && grapheme_starts(self@.text)[i]
                    < offset ==> is_start(grapheme_starts(self@.text), stop as int)
                    && grapheme_starts(self@.text)[i] <= stop,
            is_cursor_stop(self@.text, stop as int),
            is_start_sequence(grapheme_starts(self@.text), self@.len()),
            starts_on_boundaries(grapheme_starts(self@.text), self@.text),
    {
        previous_boundary(self.content.as_str(), offset)
    }

    /// The cursor stop after `offset`: the least start of a grapheme cluster
    /// that is strictly greater than `offset`, or the length of the content
    /// if there is none. The stop is a character boundary of the content,
    /// and stepping back from it never stops behind an `offset` inside the
    /// content.
    pub fn next_boundary(&self, offset: usize) -> (stop: usize)
        ensures
            stop == next_boundary_of(self@.text, offset as int),
            stop <= self@.len(),
            offset < self@.len() ==> offset < stop,
            is_native_boundary(self@.text, stop as int),
            is_cursor_stop(self@.text, offset as int) ==> is_native_boundary(
                self@.text,
                offset as int,
            ),
            offset < self@.len() && is_cursor_stop(self@.text, offset as int)
                ==> previous_boundary_of(self@.text, stop as int) == offset,
            offset <= self@.len() ==> previous_boundary_of(self@.text, stop as int) <= offset,
            forall|i: int|
                0 <= i < grapheme_starts(self@.text).len() && grapheme_starts(self@.text)[i]
                    > offset ==> is_start(grapheme_starts(self@.text), stop as int)
                    && grapheme_starts(self@.text)[i] >= stop,
            stop != self@.len() ==> is_start(grapheme_starts(self@.text), stop as int) && stop
                > offset,
            is_cursor_stop(self@.text, stop as int),
            is_start_sequence(grapheme_starts(self@.text), self@.len()),
            starts_on_boundaries(grapheme_starts(self@.text), self@.text),
    {
        next_boundary(self.content.as_str(), offset)
    }

    /// Replaces a range of the content by `new_text`. The range is the one
    /// given, in UTF-16 offsets, else the marked range, else the selection;
    /// it is brought inside the content and onto character boundaries before
    /// the cut. Afterwards the cursor stands behind the new text and nothing
    /// is marked.
    pub fn replace_text_in_range(&mut self, range_utf16: Option<Range<usize>>, new_text: &str)
        requires
            old(self)@.wf(),
            old(self)@.len() + utf8_len(new_text@) <= usize::MAX,
        ensures
            final(self)@ == old(self)@.replaced(range_utf16, new_text@),
            final(self)@.marked is None,
            ({
                let (start, end) = old(self)@.edit_range(range_utf16);
                final(self)@.len() == old(self)@.len() - (end - start) + utf8_len(new_text@)
            }),
            final(self)@.wf(),
    {
        let (start, end) = self.resolve_range(&range_utf16);
        let (cut_start, _) = clamp_range(self.content.as_str(), start, end);
        let inserted = byte_len(new_text);
        self.content = replace_range(self.content.as_str(), start, end, new_text);
        let cursor = cut_start + inserted;
        self.selection.start = cursor;
        self.selection.end = cursor;
        self.marked_range = None;
    }

    /// Steps the cursor one grapheme cluster back; a selection collapses to
    /// its start instead.
    pub fn left(&mut self)
        requires
            old(self)@.wf(),
        ensures
            final(self)@ == old(self)@.after_left(),
            final(self)@.wf(),
    {
        if self.selection.is_empty() {
            let stop = previous_boundary(self.content.as_str(), self.cursor_offset());
            self.move_to(stop);
        } else {
            let start = self.selection.start;
            self.move_to(start);
        }
    }

    /// Steps the cursor one grapheme cluster forward; a selection collapses
    /// to its end instead.
    pub fn right(&mut self)
        requires
            old(self)@.wf(),
        ensures
            final(self)@ == old(self)@.after_right(),
            final(self)@.wf(),
    {
        if self.selection.is_empty() {
            let stop = next_boundary(self.content.as_str(), self.selection.end);
            self.move_to(stop);
        } else {
            let end = self.selection.end;
            self.move_to(end);
        }
    }

    /// Extends the selection one grapheme cluster back.
    pub fn select_left(&mut self)
        requires
            old(self)@.wf(),
        ensures
            final(self)@ == old(self)@.after_select_left(),
            final(self)@.wf(),
    {
        let stop = previous_boundary(self.content.as_str(), self.cursor_offset());
        self.select_to(stop);
    }

    /// Extends the selection one grapheme cluster forward.
    pub fn select_right(&mut self)
        requires
            old(self)@.wf(),
        ensures
            final(self)@ == old(self)@.after_select_right(),
            final(self)@.wf(),
    {
        let stop = next_boundary(self.content.as_str(), self.cursor_offset());
        self.select_to(stop);
    }

    /// Selects the whole content.
    pub fn select_all(&mut self)
        requires
            old(self)@.wf(),
        ensures
            final(self)@ == old(self)@.after_select_all(),
            final(self)@.selection.start == 0,
            final(self)@.selection.end == old(self)@.len(),
            final(self)@.wf(),
    {
        self.move_to(0);
        let len = byte_len(self.content.as_str());
        self.select_to(len);
    }

    /// Takes the cursor to the start of the content.
    pub fn home(&mut self)
        requires
            old(self)@.wf(),
        ensures
            final(self)@ == old(self)@.moved_to(0),
            final(self)@.wf(),
    {
        self.move_to(0);
    }

    /// Takes the cursor to the end of the content.
    pub fn end(&mut self)
        requires
            old(self)@.wf(),
        ensures
            final(self)@ == old(self)@.moved_to(old(self)@.len()),
            final(self)@.wf(),
    {
        let len = byte_len(self.content.as_str());
        self.move_to(len);
    }

    /// Moves the cursor one line up and keeps its column, or stops at the
    /// end of a shorter line; a selection collapses to that cursor. On the
    /// first line nothing changes, a selection included.
    pub fn up(&mut self)
        requires
            old(self)@.wf(),
        ensures
            final(self)@ == old(self)@.after_vertical(false),
            vertical_target(old(self)@.text, old(self)@.selection.cursor() as int, false)
                is None ==> final(self)@ == old(self)@,
            final(self)@.wf(),
    {
        match move_by_line(self.content.as_str(), self.cursor_offset(), false) {
            Some(target) => {
                self.move_to(target);
            },
            None => {},
        }
    }

    /// Moves the cursor one line down and keeps its column, or stops at the
    /// end of a shorter line; a selection collapses to that cursor. On the
    /// last line nothing changes, a selection included.
    pub fn down(&mut self)
        requires
            old(self)@.wf(),
        ensures
            final(self)@ == old(self)@.after_vertical(true),
            vertical_target(old(self)@.text, old(self)@.selection.cursor() as int, true)
                is None ==> final(self)@ == old(self)@,
            final(self)@.wf(),
    {
        match move_by_line(self.content.as_str(), self.cursor_offset(), true) {
            Some(target) => {
                self.move_to(target);
            },
            None => {},
        }
    }

    /// Replaces the resolved range by a newline.
    pub fn enter(&mut self)
        requires
            old(self)@.wf(),
            old(self)@.len() + 1 <= usize::MAX,
        ensures
            final(self)@ == old(self)@.replaced(None, seq!['\n']),
            final(self)@.wf(),
    {
        proof {
            reveal_strlit("\n");
            assert("\n"@ =~= seq!['\n']);
            assert(utf8_len("\n"@) == 1) by {
                assert("\n"@.drop_first() =~= Seq::<char>::empty());
                reveal_with_fuel(utf8_len, 2);
            }
        }
        self.replace_text_in_range(None, "\n");
    }

    /// Deletes backward. A plain cursor first selects back to the previous
    /// cursor stop; then the resolved range is removed. A cursor behind a
    /// whole cluster so removes exactly that cluster, and a selection
    /// exactly the selected text, the cursor left where the removed text
    /// began.
    pub fn backspace(&mut self)
        requires
            old(self)@.wf(),
        ensures
            final(self)@ == old(self)@.after_backspace(),
            final(self)@.wf(),
            old(self)@.cursor_behind_cluster() ==> ({
                let cursor = old(self)@.selection.end as int;
                let stop = previous_boundary_of(old(self)@.text, cursor);
                &&& 0 <= stop < cursor
                &&& next_boundary_of(old(self)@.text, stop) == cursor
                &&& old(self)@.removed(stop, cursor, final(self)@)
            }),
            old(self)@.selects_text() ==> old(self)@.removed(
                old(self)@.selection.start as int,
                old(self)@.selection.end as int,
                final(self)@,
            ),
    {
        proof {
            reveal_strlit("");
            assert(""@ =~= Seq::<char>::empty());
            lemma_floor_boundary(self@.text, self@.selection.start as int);
            lemma_floor_boundary(self@.text, self@.selection.end as int);
        }
        if self.selection.is_empty() {
            let cursor = self.cursor_offset();
            let stop = previous_boundary(self.content.as_str(), cursor);
            proof {
                lemma_floor_boundary(self@.text, stop as int);
            }
            self.select_to(stop);
        }
        self.replace_text_in_range(None, "");
    }

    /// Deletes forward. A plain cursor first selects up to the next cursor
    /// stop; then the resolved range is removed. A cursor before a whole
    /// cluster so removes exactly that cluster, and a selection exactly the
    /// selected text, the cursor left where the removed text began.
    pub fn delete(&mut self)
        requires
            old(self)@.wf(),
        ensures
            final(self)@ == old(self)@.after_delete(),
            final(self)@.wf(),
            old(self)@.cursor_before_cluster() ==> ({
                let cursor = old(self)@.selection.end as int;
                let stop = next_boundary_of(old(self)@.text, cursor);
                &&& cursor < stop <= old(self)@.len()
                &&& previous_boundary_of(old(self)@.text, stop) == cursor
                &&& old(self)@.removed(cursor, stop, final(self)@)
            }),
            old(self)@.selects_text() ==> old(self)@.removed(
                old(self)@.selection.start as int,
                old(self)@.selection.end as int,
                final(self)@,
            ),
    {
        proof {
            reveal_strlit("");
            assert(""@ =~= Seq::<char>::empty());
            lemma_floor_boundary(self@.text, self@.selection.start as int);
            lemma_floor_boundary(self@.text, self@.selection.end as int);
        }
        if self.selection.is_empty() {
            let cursor = self.cursor_offset();
            let stop = next_boundary(self.content.as_str(), cursor);
            proof {
                lemma_floor_boundary(self@.text, stop as int);
            }
            self.select_to(stop);
        }
        self.replace_text_in_range(None, "");
    }

    /// The text for the clipboard: the selected text, or `None` where the
    /// selection is a plain cursor.
    pub fn copy(&self) -> (clip: Option<String>)
        requires
            self@.wf(),
        ensures
            clip.is_some() == self@.copied().is_some(),
            clip.is_some() ==> clip.unwrap()@ == self@.copied().unwrap(),
    {
        if !self.selection.is_empty() {
            Some(text_between(self.content.as_str(), self.selection.start, self.selection.end))
        } else {
            None
        }
    }

    /// Like `copy`, and removes the resolved range where there was text to
    /// copy.
    pub fn cut(&mut self) -> (clip: Option<String>)
        requires
            old(self)@.wf(),
        ensures
            clip.is_some() == old(self)@.copied().is_some(),
            clip.is_some() ==> clip.unwrap()@ == old(self)@.copied().unwrap(),
            final(self)@ == old(self)@.after_cut(),
            final(self)@.wf(),
    {
        if !self.selection.is_empty() {
            let clip = text_between(
                self.content.as_str(),
                self.selection.start,
                self.selection.end,
            );
            proof {
                reveal_strlit("");
                assert(""@ =~= Seq::<char>::empty());
            }
            self.replace_text_in_range(None, "");
            Some(clip)
        } else {
            None
        }
    }

    /// Replaces the resolved range by the text of the clipboard, if it holds
    /// any.
    pub fn paste(&mut self, clipboard: Option<&str>)
        requires
            old(self)@.wf(),
            clipboard.is_some() ==> old(self)@.len() + utf8_len(clipboard.unwrap()@)
                <= usize::MAX,
        ensures
            final(self)@ == (match clipboard {
                Some(text) => old(self)@.replaced(None, text@),
                None => old(self)@,
            }),
            final(self)@.wf(),
    {
        if let Some(text) = clipboard {
            self.replace_text_in_range(None, text);
        }
    }

    /// Replaces the resolved range by `new_text` and marks the new text as
    /// under composition; empty new text ends the composition. The new
    /// selection is given in UTF-16 offsets counted from the start of the new
    /// text; without one the cursor stands behind the new text.
    pub fn replace_and_mark_text_in_range(
        &mut self,
        range_utf16: Option<Range<usize>>,
        new_text: &str,
        new_selected_range_utf16: Option<Range<usize>>,
    )
        requires
            old(self)@.wf(),
            old(self)@.len() + utf8_len(new_text@) <= usize::MAX,
        ensures
            final(self)@ == old(self)@.marked_with(
                range_utf16,
                new_text@,
                new_selected_range_utf16,
            ),
            ({
                let (start, end) = old(self)@.edit_range(range_utf16);
                final(self)@.len() == old(self)@.len() - (end - start) + utf8_len(new_text@)
            }),
            final(self)@.wf(),
    {
        let (start, end) = self.resolve_range(&range_utf16);
        let (cut_start, _) = clamp_range(self.content.as_str(), start, end);
        let inserted = byte_len(new_text);
        self.content = replace_range(self.content.as_str(), start, end, new_text);
        let behind = cut_start + inserted;
        if inserted > 0 {
            self.marked_range = Some((cut_start, behind));
        } else {
            self.marked_range = None;
        }
        proof {
            lemma_utf8_len_nonnegative(new_text@);
            if new_text@.len() > 0 {
                lemma_utf8_len_nonnegative(new_text@.drop_first());
            }
        }
        match new_selected_range_utf16 {
            Some(range) => {
                let native = range_from_utf16(new_text, &range);
                let last = cut_start + native.end;
                let first = cut_start + native.start;
                self.selection.start = if first <= last {
                    first
                } else {
                    last
                };
                self.selection.end = last;
            },
            None => {
                self.selection.start = behind;
                self.selection.end = behind;
            },
        }
    }

    /// Ends the composition and leaves the content as it is.
    pub fn unmark_text(&mut self)
        requires
            old(self)@.wf(),
        ensures
            final(self)@ == old(self)@.unmarked(),
            final(self)@.wf(),
    {
        self.marked_range = None;
    }

    /// The text of a range given in UTF-16 offsets. The range is brought
    /// onto character boundaries, its start to at most its end, and
    /// `actual_range` receives the range whose text is returned, in UTF-16
    /// offsets.
    pub fn text_for_range(
        &self,
        range_utf16: Range<usize>,
        actual_range: &mut Option<Range<usize>>,
    ) -> (text: Option<String>)
        requires
            self@.wf(),
        ensures
            text.is_some(),
            text.unwrap()@ == slice_text(
                self@.text,
                self@.edit_range(Some(range_utf16)).0,
                self@.edit_range(Some(range_utf16)).1,
            ),
            final(actual_range).is_some(),
            final(actual_range).unwrap().start == to_utf16(
                self@.text,
                self@.edit_range(Some(range_utf16)).0,
            ),
            final(actual_range).unwrap().end == to_utf16(
                self@.text,
                self@.edit_range(Some(range_utf16)).1,
            ),
    {
        let range = range_from_utf16(self.content.as_str(), &range_utf16);
        let (start, end) = clamp_range(self.content.as_str(), range.start, range.end);
        *actual_range = Some(range_to_utf16(self.content.as_str(), &(start..end)));
        Some(text_between(self.content.as_str(), range.start, range.end))
    }

    /// The selection in UTF-16 offsets.
    pub fn selected_text_range(&self, _ignore_disabled_input: bool) -> (selected: Option<
        Utf16Selection,
    >)
        requires
            self@.wf(),
        ensures
            selected.is_some(),
            selected.unwrap().range.start == to_utf16(self@.text, self@.selection.start as int),
            selected.unwrap().range.end == to_utf16(self@.text, self@.selection.end as int),
            selected.unwrap().reversed == self@.selection.reversed,
    {
        let range = self.selection.start..self.selection.end;
        Some(
            Utf16Selection {
                range: range_to_utf16(self.content.as_str(), &range),
                reversed: self.selection.reversed,
            },
        )
    }

    /// The range under composition in UTF-16 offsets, if there is one.
    pub fn marked_text_range(&self) -> (marked: Option<Range<usize>>)
        requires
            self@.wf(),
        ensures
            marked.is_some() == self@.marked.is_some(),
            marked.is_some() ==> marked.unwrap().start == to_utf16(
                self@.text,
                self@.marked.unwrap().0 as int,
            ) && marked.unwrap().end == to_utf16(self@.text, self@.marked.unwrap().1 as int),
    {
        match self.marked_range {
            Some((start, end)) => Some(
                range_to_utf16(self.content.as_str(), &(start..end)),
            ),
            None => None,
        }
    }

    /// The range under composition in native offsets, if there is one.
    pub fn marked_range(&self) -> (marked: Option<Range<usize>>)
        ensures
            marked.is_some() == self@.marked.is_some(),
            marked.is_some() ==> marked.unwrap().start == self@.marked.unwrap().0
                && marked.unwrap().end == self@.marked.unwrap().1,
    {
        match self.marked_range {
            Some((start, end)) => Some(start..end),
            None => None,
        }
    }

    /// Whether a pointer drag is extending the selection.
    pub fn is_selecting(&self) -> (selecting: bool)
        ensures
            selecting == self@.selecting,
    {
        self.is_selecting
    }

    /// Empties the field: no content, the cursor at 0, nothing marked, no
    /// layout and no drag.
    pub fn reset(&mut self)
        ensures
            final(self)@ == TextInputView::empty(),
            final(self)@.wf(),
    {
        *self = TextInput::new();
    }

    /// Takes over what is kept of a repaint, in place of what was kept of
    /// the one before.
    pub fn set_layout(&mut self, layout: Layout)
        ensures
            final(self)@ == (TextInputView { layout: Some(layout@), ..old(self)@ }),
            old(self)@.wf() ==> final(self)@.wf(),
    {
        proof {
            vstd::std_specs::vec::axiom_spec_len(&layout.line_lengths);
        }
        self.last_layout = Some(layout);
    }

    /// The line of the layout that shows `offset` and the index on it.
    fn line_position(&self, starts: &Vec<usize>, offset: usize) -> (position: Option<
        (usize, usize),
    >)
        requires
            self@.wf(),
            as_ints(starts@) == line_starts(self@.text),
        ensures
            position.is_some() == self@.line_position(offset as int).is_some(),
            position.is_some() ==> position.unwrap().0 == self@.line_position(
                offset as int,
            ).unwrap().0 && position.unwrap().1 == self@.line_position(offset as int).unwrap().1
                && position.unwrap().0 < self@.layout.unwrap().line_lengths.len(),
    {
        match &self.last_layout {
            Some(layout) => {
                let line = line_index_for_offset(starts, offset);
                proof {
                    lemma_line_starts_ordered(self@.text);
                    lemma_line_containing(line_starts(self@.text), offset as int);
                    assert(as_ints(starts@).len() == starts@.len());
                    assert(as_ints(starts@)[line as int] == starts@[line as int] as int);
                }
                if line < layout.line_lengths.len() {
                    let column = offset - starts[line];
                    let length = layout.line_lengths[line];
                    Some(
                        (
                            line,
                            if column <= length {
                                column
                            } else {
                                length
                            },
                        ),
                    )
                } else {
                    None
                }
            },
            None => None,
        }
    }

    /// The rectangle that the range `range_utf16` takes up inside `bounds`:
    /// from the upper edge of the line that holds its start, at the
    /// horizontal position of the start, to the lower edge of the line that
    /// holds its end, at the horizontal position of the end. `None` where
    /// nothing was laid out or the layout lacks one of the two lines.
    /// `x_for_index` is asked for a line of the layout and an index on it.
    pub fn bounds_for_range<F: Fn(usize, usize) -> i64>(
        &self,
        range_utf16: Range<usize>,
        bounds: Bounds,
        x_for_index: F,
    ) -> (rectangle: Option<Bounds>)
        requires
            self@.wf(),
            self@.accepts_position_query(x_for_index),
        ensures
            self@.is_bounds_for(range_utf16, bounds, x_for_index, rectangle),
    {
        let range = range_from_utf16(self.content.as_str(), &range_utf16);
        let starts = line_start_offsets(self.content.as_str());
        let first = self.line_position(&starts, range.start);
        let last = self.line_position(&starts, range.end);
        let layout = match &self.last_layout {
            Some(layout) => layout,
            None => {
                return None;
            },
        };
        let line_height = layout.line_height;
        let count = layout.line_lengths.len();
        match (first, last) {
            (Some((first_line, first_index)), Some((last_line, last_index))) => {
                let first_x = x_for_index(first_line, first_index);
                let last_x = x_for_index(last_line, last_index);
                assert(call_ensures(x_for_index, (first_line, first_index), first_x));
                assert(call_ensures(x_for_index, (last_line, last_index), last_x));
                let rectangle = Bounds::from_corners(
                    Point {
                        x: beyond(bounds.left(), first_x),
                        y: lines_beyond(bounds.top(), line_height, first_line),
                    },
                    Point {
                        x: beyond(bounds.left(), last_x),
                        y: lines_beyond(bounds.top(), line_height, last_line + 1),
                    },
                );
                assert(rectangle == self@.rectangle(
                    bounds,
                    first_line as int,
                    first_x,
                    last_line as int,
                    last_x,
                ));
                assert(self@.line_position(range.start as int) == Some(
                    (first_line as int, first_index as int),
                ));
                assert(self@.line_position(range.end as int) == Some(
                    (last_line as int, last_index as int),
                ));
                Some(rectangle)
            },
            _ => {
                assert(self@.line_position(range.start as int) is None || self@.line_position(
                    range.end as int,
                ) is None);
                None
            },
        }
    }

    /// The UTF-16 offset that `point` points to, for an input method that
    /// places its cursor: `None` where nothing was laid out, where the point
    /// lies outside the rectangle of the layout or where `index_for_x` finds
    /// no index; the end of the content below the last line. `index_for_x`
    /// is asked for a line of the layout and a distance from its left edge.
    pub fn character_index_for_point<F: Fn(usize, i64) -> Option<usize>>(
        &self,
        point: Point,
        index_for_x: F,
    ) -> (index: Option<usize>)
        requires
            self@.wf(),
            self@.accepts_index_query(index_for_x),
        ensures
            self@.is_character_index_for(point, index_for_x, index),
    {
        let layout = match &self.last_layout {
            Some(layout) => layout,
            None => {
                return None;
            },
        };
        let local = match layout.bounds.localize(&point) {
            Some(local) => local,
            None => {
                return None;
            },
        };
        let len = byte_len(self.content.as_str());
        let below = layout.line_height <= 0 || (local.y as i128) / (layout.line_height as i128)
            >= layout.line_lengths.len() as i128;
        if below {
            let end = offset_to_utf16(self.content.as_str(), len);
            assert(self@.is_character_index_for(point, index_for_x, Some(end)));
            return Some(end);
        }
        let line = ((local.y as i128) / (layout.line_height as i128)) as usize;
        let starts = line_start_offsets(self.content.as_str());
        let start = line_start(&starts, line, len);
        let found = index_for_x(line, local.x);
        assert(call_ensures(index_for_x, (line, local.x), found));
        assert(line_below(point.y - layout@.bounds.spec_top(), layout@.line_height as int) == Some(
            line as int,
        ));
        match found {
            Some(index) => {
                let total = start.saturating_add(index);
                let index16 = offset_to_utf16(self.content.as_str(), total);
                assert(Some(index16) == self@.character_index_on_line(line as int, found));
                Some(index16)
            },
            None => {
                assert(self@.character_index_on_line(line as int, found) is None);
                None
            },
        }
    }

    /// The line that holds the cursor and the cursor's column on it, in
    /// bytes from the start of the line.
    pub fn cursor_position(&self) -> (position: (usize, usize))
        requires
            self@.wf(),
        ensures
            position.0 == line_containing(
                line_starts(self@.text),
                self@.selection.cursor() as int,
            ),
            position.1 == self@.selection.cursor() - line_starts(self@.text)[position.0 as int],
    {
        let cursor = self.cursor_offset();
        let starts = line_start_offsets(self.content.as_str());
        let line = line_index_for_offset(&starts, cursor);
        proof {
            lemma_line_starts_ordered(self@.text);
            lemma_line_containing(line_starts(self@.text), cursor as int);
            assert(as_ints(starts@).len() == starts@.len());
            assert(as_ints(starts@)[line as int] == starts@[line as int] as int);
        }
        (line, cursor - starts[line])
    }

    /// Ends a pointer drag.
    pub fn on_mouse_up(&mut self)
        ensures
            final(self)@ == (TextInputView { selecting: false, ..old(self)@ }),
            old(self)@.wf() ==> final(self)@.wf(),
    {
        self.is_selecting = false;
    }

    /// The offset in the content for the index `local_index` of the line
    /// `line` of the layout; `None` where nothing was laid out or the layout
    /// lacks the line.
    pub fn index_on_line(&self, line: usize, local_index: usize) -> (index: Option<usize>)
        requires
            self@.wf(),
        ensures
            index.is_some() == self@.has_line(line as int),
            index.is_some() ==> index.unwrap() == self@.index_on_line(
                line as int,
                local_index as int,
            ),
    {
        match &self.last_layout {
            Some(layout) => {
                if line < layout.line_lengths.len() {
                    let len = byte_len(self.content.as_str());
                    let starts = line_start_offsets(self.content.as_str());
                    let start = line_start(&starts, line, len);
                    Some(index_in_line(start, layout.line_lengths[line], local_index))
                } else {
                    None
                }
            },
            None => None,
        }
    }

    /// The offset in the content that a pointer at `position` points to: 0
    /// while the content is empty or nothing was laid out, 0 above the
    /// lines, the length of the content below them, and else the offset that
    /// `closest_index_for_x` finds on the line under the pointer. That query
    /// is asked for a line of the layout and a distance from its left edge.
    pub fn index_for_mouse_position<F: Fn(usize, i64) -> usize>(
        &self,
        position: Point,
        closest_index_for_x: F,
    ) -> (index: usize)
        requires
            self@.wf(),
            self@.accepts_line_query(closest_index_for_x),
        ensures
            self@.is_index_for(position, closest_index_for_x, index),
    {
        if byte_len(self.content.as_str()) == 0 {
            proof {
                lemma_utf8_len_positive(self@.text);
            }
            return 0;
        }
        proof {
            lemma_utf8_len_positive(self@.text);
        }
        let target = match &self.last_layout {
            Some(layout) => layout.target(position),
            None => PointerTarget::Start,
        };
        match target {
            PointerTarget::Start => 0,
            PointerTarget::End => byte_len(self.content.as_str()),
            PointerTarget::Line { index, x } => {
                let local_index = closest_index_for_x(index, x);
                match self.index_on_line(index, local_index) {
                    Some(offset) => offset,
                    None => 0,
                }
            },
        }
    }

    /// Starts a pointer drag. The cursor goes to the offset under the
    /// pointer; with `shift` held the anchor stays where it is.
    pub fn on_mouse_down<F: Fn(usize, i64) -> usize>(
        &mut self,
        position: Point,
        shift: bool,
        closest_index_for_x: F,
    )
        requires
            old(self)@.wf(),
            old(self)@.accepts_line_query(closest_index_for_x),
        ensures
            exists|index: usize|
                old(self)@.is_index_for(position, closest_index_for_x, index) && final(self)@ == (
                TextInputView {
                    selecting: true,
                    ..if shift {
                        old(self)@.selected_to(index as int)
                    } else {
                        old(self)@.moved_to(index as int)
                    }
                }),
            final(self)@.wf(),
    {
        let index = self.index_for_mouse_position(position, closest_index_for_x);
        self.is_selecting = true;
        if shift {
            self.select_to(index);
        } else {
            self.move_to(index);
        }
        assert(self@ == (TextInputView {
            selecting: true,
            ..if shift {
                old(self)@.selected_to(index as int)
            } else {
                old(self)@.moved_to(index as int)
            }
        }));
    }

    /// Extends the selection to the offset under the pointer while a drag
    /// is on; does nothing otherwise.
    pub fn on_mouse_move<F: Fn(usize, i64) -> usize>(
        &mut self,
        position: Point,
        closest_index_for_x: F,
    )
        requires
            old(self)@.wf(),
            old(self)@.accepts_line_query(closest_index_for_x),
        ensures
            !old(self)@.selecting ==> final(self)@ == old(self)@,
            old(self)@.selecting ==> exists|index: usize|
                old(self)@.is_index_for(position, closest_index_for_x, index) && final(self)@
                    == old(self)@.selected_to(index as int),
            final(self)@.wf(),
    {
        if self.is_selecting {
            let index = self.index_for_mouse_position(position, closest_index_for_x);
            self.select_to(index);
        }
    }

    /// The native range that an edit applies to.
    fn resolve_range(&self, range_utf16: &Option<Range<usize>>) -> (range: (usize, usize))
        ensures
            (range.0 as int, range.1 as int) == self@.resolved_range(*range_utf16),
    {
        match range_utf16 {
            Some(range) => {
                let native = range_from_utf16(self.content.as_str(), range);
                (native.start, native.end)
            },
            None => match self.marked_range {
                Some(marked) => marked,
                None => (self.selection.start, self.selection.end),
            },
        }
    }
}

} // verus!
