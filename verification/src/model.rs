//! The state of a text field as mathematical values, and what each operation
//! makes of it.

use vstd::prelude::*;
use std::ops::Range;
use crate::boundary::{is_cursor_stop, next_boundary_of, previous_boundary_of};
use crate::content::{cut_range, slice_text, splice_text};
use crate::geometry::{clamp_coord, Bounds, Point};
use crate::hit_test::{
    line_below, line_start_or_end, offset_in_line, saturating_sum, LayoutView, PointerTarget,
};
use crate::lines::{line_containing, line_starts, min_int, vertical_target};
use crate::selection::Selection;
use crate::utf16::{from_utf16, is_native_boundary, to_utf16, utf8_len};

verus! {

/// What a text field holds, as mathematical values.
pub struct TextInputView {
    /// The content.
    pub text: Seq<char>,
    /// The selected range and its direction.
    pub selection: Selection,
    /// The range under composition by an input method, if any.
    pub marked: Option<(usize, usize)>,
    /// What was kept of the last repaint, if there was one.
    pub layout: Option<LayoutView>,
    /// Whether a pointer drag is extending the selection.
    pub selecting: bool,
}

impl TextInputView {
    /// An empty field: no content, the cursor at 0, nothing marked, no
    /// layout and no drag.
    pub open spec fn empty() -> TextInputView {
        TextInputView {
            text: Seq::<char>::empty(),
            selection: Selection { start: 0, end: 0, reversed: false },
            marked: None,
            layout: None,
            selecting: false,
        }
    }

    /// The length of the content in bytes.
    pub open spec fn len(self) -> int {
        utf8_len(self.text)
    }

    /// The selection and the marked range lie inside the content, each with
    /// its ends in order; the length of the content fits in a `usize`, and
    /// so does the number of lines of the layout.
    pub open spec fn wf(self) -> bool {
        &&& self.len() <= usize::MAX
        &&& self.selection.start <= self.selection.end <= self.len()
        &&& match self.marked {
            Some((start, end)) => start <= end <= self.len(),
            None => true,
        }
        &&& match self.layout {
            Some(layout) => layout.line_lengths.len() <= usize::MAX,
            None => true,
        }
    }

    /// `offset`, or the length of the content if `offset` lies beyond it.
    pub open spec fn clamp(self, offset: int) -> usize {
        if offset <= self.len() {
            offset as usize
        } else {
            self.len() as usize
        }
    }

    /// The state with the selection collapsed to a cursor at `offset`.
    pub open spec fn moved_to(self, offset: int) -> TextInputView {
        TextInputView { selection: self.selection.moved_to(self.clamp(offset)), ..self }
    }

    /// The state with the cursor taken to `offset` and the anchor kept.
    pub open spec fn selected_to(self, offset: int) -> TextInputView {
        TextInputView { selection: self.selection.selected_to(self.clamp(offset)), ..self }
    }

    /// The native range that an edit applies to: the range that the caller
    /// gave in UTF-16 offsets, else the marked range, else the selection.
    pub open spec fn resolved_range(self, range_utf16: Option<Range<usize>>) -> (int, int) {
        match range_utf16 {
            Some(range) => (
                from_utf16(self.text, range.start as int),
                from_utf16(self.text, range.end as int),
            ),
            None => match self.marked {
                Some((start, end)) => (start as int, end as int),
                None => (self.selection.start as int, self.selection.end as int),
            },
        }
    }

    /// The range that an edit cuts out: the resolved range, brought inside
    /// the content and onto character boundaries.
    pub open spec fn edit_range(self, range_utf16: Option<Range<usize>>) -> (int, int) {
        let (start, end) = self.resolved_range(range_utf16);
        cut_range(self.text, start, end)
    }

    /// The state after the resolved range has been replaced by `new_text`:
    /// the cursor stands behind the new text and nothing is marked.
    pub open spec fn replaced(
        self,
        range_utf16: Option<Range<usize>>,
        new_text: Seq<char>,
    ) -> TextInputView {
        let (start, end) = self.edit_range(range_utf16);
        let cursor = (start + utf8_len(new_text)) as usize;
        TextInputView {
            text: splice_text(self.text, start, end, new_text),
            selection: Selection { start: cursor, end: cursor, reversed: self.selection.reversed },
            marked: None,
            ..self
        }
    }

    /// The state after the resolved range has been replaced by `new_text`
    /// and the new text marked as under composition. The selection is the
    /// one given, in UTF-16 offsets counted from the start of the new text,
    /// its start brought to at most its end; without one the cursor stands
    /// behind the new text. Empty new text leaves nothing marked.
    pub open spec fn marked_with(
        self,
        range_utf16: Option<Range<usize>>,
        new_text: Seq<char>,
        new_selected_utf16: Option<Range<usize>>,
    ) -> TextInputView {
        let (start, end) = self.edit_range(range_utf16);
        let behind = start + utf8_len(new_text);
        let (selected_start, selected_end) = match new_selected_utf16 {
            Some(range) => {
                let last = start + from_utf16(new_text, range.end as int);
                let first = start + from_utf16(new_text, range.start as int);
                (
                    if first <= last {
                        first
                    } else {
                        last
                    },
                    last,
                )
            },
            None => (behind, behind),
        };
        TextInputView {
            text: splice_text(self.text, start, end, new_text),
            selection: Selection {
                start: selected_start as usize,
                end: selected_end as usize,
                reversed: self.selection.reversed,
            },
            marked: if new_text.len() > 0 {
                Some((start as usize, behind as usize))
            } else {
                None
            },
            ..self
        }
    }

    /// The state with nothing marked.
    pub open spec fn unmarked(self) -> TextInputView {
        TextInputView { marked: None, ..self }
    }

    /// The state after the cursor has stepped one cluster back, or a
    /// selection has collapsed to its start.
    pub open spec fn after_left(self) -> TextInputView {
        if self.selection.is_collapsed() {
            self.moved_to(previous_boundary_of(self.text, self.selection.cursor() as int))
        } else {
            self.moved_to(self.selection.start as int)
        }
    }

    /// The state after the cursor has stepped one cluster forward, or a
    /// selection has collapsed to its end.
    pub open spec fn after_right(self) -> TextInputView {
        if self.selection.is_collapsed() {
            self.moved_to(next_boundary_of(self.text, self.selection.end as int))
        } else {
            self.moved_to(self.selection.end as int)
        }
    }

    /// The state after the selection has been extended one cluster back.
    pub open spec fn after_select_left(self) -> TextInputView {
        self.selected_to(previous_boundary_of(self.text, self.selection.cursor() as int))
    }

    /// The state after the selection has been extended one cluster forward.
    pub open spec fn after_select_right(self) -> TextInputView {
        self.selected_to(next_boundary_of(self.text, self.selection.cursor() as int))
    }

    /// The state with the whole content selected.
    pub open spec fn after_select_all(self) -> TextInputView {
        self.moved_to(0).selected_to(self.len())
    }

    /// The state after the cursor has moved one line down (`down`) or up:
    /// the selection collapses to a cursor on the neighbouring line. On the
    /// last line (down) and on the first (up) nothing changes, a selection
    /// included.
    pub open spec fn after_vertical(self, down: bool) -> TextInputView {
        match vertical_target(self.text, self.selection.cursor() as int, down) {
            Some(target) => self.moved_to(target),
            None => self,
        }
    }

    /// The state after a backward delete: a cursor first selects the cluster
    /// before it, then the resolved range is removed.
    pub open spec fn after_backspace(self) -> TextInputView {
        let selected = if self.selection.is_collapsed() {
            self.selected_to(previous_boundary_of(self.text, self.selection.cursor() as int))
        } else {
            self
        };
        selected.replaced(None, Seq::<char>::empty())
    }

    /// The state after a forward delete: a cursor first selects the cluster
    /// behind it, then the resolved range is removed.
    pub open spec fn after_delete(self) -> TextInputView {
        let selected = if self.selection.is_collapsed() {
            self.selected_to(next_boundary_of(self.text, self.selection.cursor() as int))
        } else {
            self
        };
        selected.replaced(None, Seq::<char>::empty())
    }

    /// The text that a copy puts on the clipboard: the selected text, if the
    /// selection is not a plain cursor.
    pub open spec fn copied(self) -> Option<Seq<char>> {
        if self.selection.is_collapsed() {
            None
        } else {
            let (start, end) = cut_range(
                self.text,
                self.selection.start as int,
                self.selection.end as int,
            );
            Some(slice_text(self.text, start, end))
        }
    }

    /// The state after a cut: a selection that is not a plain cursor is
    /// copied and the resolved range removed.
    pub open spec fn after_cut(self) -> TextInputView {
        if self.selection.is_collapsed() {
            self
        } else {
            self.replaced(None, Seq::<char>::empty())
        }
    }

    /// A plain cursor that stands behind a whole grapheme cluster, with
    /// nothing marked.
    pub open spec fn cursor_behind_cluster(self) -> bool {
        &&& self.marked is None
        &&& self.selection.is_collapsed()
        &&& self.selection.end > 0
        &&& is_cursor_stop(self.text, self.selection.end as int)
    }

    /// A plain cursor that stands before a whole grapheme cluster, with
    /// nothing marked.
    pub open spec fn cursor_before_cluster(self) -> bool {
        &&& self.marked is None
        &&& self.selection.is_collapsed()
        &&& self.selection.end < self.len()
        &&& is_cursor_stop(self.text, self.selection.end as int)
    }

    /// A selection of at least one byte that starts and ends between
    /// characters, with nothing marked.
    pub open spec fn selects_text(self) -> bool {
        &&& self.marked is None
        &&& self.selection.start < self.selection.end
        &&& is_native_boundary(self.text, self.selection.start as int)
        &&& is_native_boundary(self.text, self.selection.end as int)
    }

    /// Whether `after` holds this content with exactly the bytes
    /// `start..end` removed, a plain cursor at `start` and nothing marked.
    pub open spec fn removed(self, start: int, end: int, after: TextInputView) -> bool {
        &&& after.text == splice_text(self.text, start, end, Seq::<char>::empty())
        &&& after.len() == self.len() - (end - start)
        &&& after.selection.start == start
        &&& after.selection.end == start
        &&& after.marked is None
    }

    /// Whether the layout has a line `line`.
    pub open spec fn has_line(self, line: int) -> bool {
        self.layout is Some && 0 <= line < self.layout.unwrap().line_lengths.len()
    }

    /// The offset in the content for the index `local_index` of the line
    /// `line` of the layout: the start of that line in the content, plus the
    /// index or the length of the shaped line, whichever is less.
    pub open spec fn index_on_line(self, line: int, local_index: int) -> usize {
        offset_in_line(
            line_start_or_end(line_starts(self.text), line, self.len()),
            self.layout.unwrap().line_lengths[line] as int,
            local_index,
        )
    }

    /// Where a pointer at `position` falls. While the content is empty or
    /// nothing was laid out, every position counts as the start.
    pub open spec fn pointer_target(self, position: Point) -> PointerTarget {
        if self.text.len() == 0 {
            PointerTarget::Start
        } else {
            match self.layout {
                Some(layout) => layout.target(position),
                None => PointerTarget::Start,
            }
        }
    }

    /// Whether `query` may be asked about every line of the layout.
    pub open spec fn accepts_line_query<F: Fn(usize, i64) -> usize>(self, query: F) -> bool {
        forall|line: usize, x: i64|
            self.layout is Some && line < self.layout.unwrap().line_lengths.len()
                ==> #[trigger] call_requires(query, (line, x))
    }

    /// Whether `index` is the offset that a pointer at `position` points
    /// to, where `query` answers for the line under the pointer.
    pub open spec fn is_index_for<F: Fn(usize, i64) -> usize>(
        self,
        position: Point,
        query: F,
        index: usize,
    ) -> bool {
        match self.pointer_target(position) {
            PointerTarget::Start => index == 0,
            PointerTarget::End => index == self.len(),
            PointerTarget::Line { index: line, x } => exists|local_index: usize|
                call_ensures(query, (line, x), local_index) && index == self.index_on_line(
                    line as int,
                    local_index as int,
                ),
        }
    }

    /// Where the layout shows `offset`: the line that holds it and the
    /// index on that line, an offset beyond the shaped text counted as its
    /// end. `None` where nothing was laid out or the layout lacks the line.
    pub open spec fn line_position(self, offset: int) -> Option<(int, int)> {
        match self.layout {
            Some(layout) => {
                let starts = line_starts(self.text);
                let line = line_containing(starts, offset);
                if line < layout.line_lengths.len() {
                    Some((line, min_int(offset - starts[line], layout.line_lengths[line] as int)))
                } else {
                    None
                }
            },
            None => None,
        }
    }

    /// The rectangle from the upper edge of the line `first_line`, `first_x`
    /// right of the left edge of `bounds`, to the lower edge of the line
    /// `last_line`, `last_x` right of that edge.
    pub open spec fn rectangle(
        self,
        bounds: Bounds,
        first_line: int,
        first_x: i64,
        last_line: int,
        last_x: i64,
    ) -> Bounds {
        let height = self.layout.unwrap().line_height as int;
        Bounds::spec_from_corners(
            Point {
                x: clamp_coord(bounds.spec_left() + first_x),
                y: clamp_coord(bounds.spec_top() + height * first_line),
            },
            Point {
                x: clamp_coord(bounds.spec_left() + last_x),
                y: clamp_coord(bounds.spec_top() + height * (last_line + 1)),
            },
        )
    }

    /// Whether `query` may be asked about every index of every line of the
    /// layout.
    pub open spec fn accepts_position_query<F: Fn(usize, usize) -> i64>(self, query: F) -> bool {
        forall|line: usize, index: usize|
            self.layout is Some && line < self.layout.unwrap().line_lengths.len()
                ==> #[trigger] call_requires(query, (line, index))
    }

    /// Whether `result` is the rectangle of the range `range_utf16`, where
    /// `query` answers for the horizontal position of each of its two ends.
    pub open spec fn is_bounds_for<F: Fn(usize, usize) -> i64>(
        self,
        range_utf16: Range<usize>,
        bounds: Bounds,
        query: F,
        result: Option<Bounds>,
    ) -> bool {
        let first = self.line_position(from_utf16(self.text, range_utf16.start as int));
        let last = self.line_position(from_utf16(self.text, range_utf16.end as int));
        if first is Some && last is Some {
            let (first_line, first_index) = first.unwrap();
            let (last_line, last_index) = last.unwrap();
            exists|first_x: i64, last_x: i64|
                call_ensures(query, (first_line as usize, first_index as usize), first_x)
                    && call_ensures(query, (last_line as usize, last_index as usize), last_x)
                    && result == Some(
                    self.rectangle(bounds, first_line, first_x, last_line, last_x),
                )
        } else {
            result is None
        }
    }

    /// Whether `query` may be asked about every line of the layout.
    pub open spec fn accepts_index_query<F: Fn(usize, i64) -> Option<usize>>(
        self,
        query: F,
    ) -> bool {
        forall|line: usize, x: i64|
            self.layout is Some && line < self.layout.unwrap().line_lengths.len()
                ==> #[trigger] call_requires(query, (line, x))
    }

    /// The UTF-16 offset for the index `found` on line `line`, or `None`
    /// where no index was found.
    pub open spec fn character_index_on_line(self, line: int, found: Option<usize>) -> Option<
        usize,
    > {
        match found {
            Some(index) => Some(
                to_utf16(
                    self.text,
                    saturating_sum(
                        line_start_or_end(line_starts(self.text), line, self.len()),
                        index as int,
                    ) as int,
                ) as usize,
            ),
            None => None,
        }
    }

    /// Whether `result` is the UTF-16 offset that `point` points to, where
    /// `query` answers for the line under the point: `None` where nothing
    /// was laid out or the point lies outside the rectangle of the layout,
    /// the end of the content below the last line.
    pub open spec fn is_character_index_for<F: Fn(usize, i64) -> Option<usize>>(
        self,
        point: Point,
        query: F,
        result: Option<usize>,
    ) -> bool {
        match self.layout {
            Some(layout) => {
                if layout.bounds.spec_contains(point) {
                    let line = line_below(
                        point.y - layout.bounds.spec_top(),
                        layout.line_height as int,
                    );
                    let x = clamp_coord(point.x - layout.bounds.spec_left());
                    if line is Some && line.unwrap() < layout.line_lengths.len() {
                        exists|found: Option<usize>|
                            call_ensures(query, (line.unwrap() as usize, x), found) && result
                                == self.character_index_on_line(line.unwrap(), found)
                    } else {
                        result == Some(to_utf16(self.text, self.len()) as usize)
                    }
                } else {
                    result is None
                }
            },
            None => result is None,
        }
    }
}

/// A composition that is followed by a plain edit leaves nothing marked,
/// whatever was composed and whatever the edit replaces.
pub proof fn lemma_edit_ends_composition(
    state: TextInputView,
    marked_range: Option<Range<usize>>,
    marked_text: Seq<char>,
    marked_selection: Option<Range<usize>>,
    range: Option<Range<usize>>,
    text: Seq<char>,
)
    ensures
        state.replaced(range, text).marked is None,
        state.marked_with(marked_range, marked_text, marked_selection).replaced(
            range,
            text,
        ).marked is None,
{
}

/// Taking the cursor anywhere leaves the selection inside the content with
/// its ends in order, whichever way the cursor went.
pub proof fn lemma_select_to_keeps_order(state: TextInputView, offset: int)
    requires
        state.wf(),
        0 <= offset,
    ensures
        state.selected_to(offset).selection.start <= state.selected_to(offset).selection.end,
        state.selected_to(offset).wf(),
        state.moved_to(offset).wf(),
{
}

} // verus!
