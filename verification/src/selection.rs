//! The selection of a text field: a range, and which of its two ends the
//! cursor is at.

use vstd::prelude::*;

verus! {

/// A selected range of native offsets. The cursor is at `end`, and the
/// anchor at `start`, unless the selection is `reversed`. A selection whose
/// two ends meet is a plain cursor, whatever `reversed` holds.
#[derive(Clone, Copy, Debug, PartialEq, Eq, Structural)]
pub struct Selection {
    pub start: usize,
    pub end: usize,
    pub reversed: bool,
}

impl Selection {
    /// The ends are in order.
    pub open spec fn wf(&self) -> bool {
        self.start <= self.end
    }

    /// The end that moves when the selection is extended.
    pub open spec fn cursor(&self) -> usize {
        if self.reversed {
            self.start
        } else {
            self.end
        }
    }

    /// The end that stays when the selection is extended.
    pub open spec fn anchor(&self) -> usize {
        if self.reversed {
            self.end
        } else {
            self.start
        }
    }

    /// Whether the two ends meet.
    pub open spec fn is_collapsed(&self) -> bool {
        self.start == self.end
    }

    /// The selection collapsed to `offset`, with the direction flag kept.
    pub open spec fn moved_to(&self, offset: usize) -> Selection {
        Selection { start: offset, end: offset, reversed: self.reversed }
    }

    /// The selection after its cursor has been taken to `offset`, its anchor
    /// kept in place: where the cursor passes the anchor, the two ends swap
    /// and the direction flips.
    pub open spec fn selected_to(&self, offset: usize) -> Selection {
        if self.reversed {
            if self.end < offset {
                Selection { start: self.end, end: offset, reversed: false }
            } else {
                Selection { start: offset, end: self.end, reversed: true }
            }
        } else {
            if offset < self.start {
                Selection { start: offset, end: self.start, reversed: true }
            } else {
                Selection { start: self.start, end: offset, reversed: false }
            }
        }
    }

    /// A cursor at the start of the text.
    pub fn new() -> (selection: Selection)
        ensures
            selection == (Selection { start: 0, end: 0, reversed: false }),
    {
        Selection { start: 0, end: 0, reversed: false }
    }

    /// Collapses the selection to a cursor at `offset`.
    pub fn move_to(&mut self, offset: usize)
        ensures
            *final(self) == old(self).moved_to(offset),
            final(self).wf(),
            final(self).cursor() == offset,
    {
        self.start = offset;
        self.end = offset;
    }

    /// Takes the cursor to `offset` and leaves the anchor where it is. The
    /// ends are in order afterwards, whichever way the cursor went.
    pub fn select_to(&mut self, offset: usize)
        ensures
            *final(self) == old(self).selected_to(offset),
            final(self).start <= final(self).end,
            final(self).cursor() == offset,
            final(self).anchor() == old(self).anchor(),
    {
        if self.reversed {
            self.start = offset;
        } else {
            self.end = offset;
        }
        if self.end < self.start {
            self.reversed = !self.reversed;
            let start = self.start;
            self.start = self.end;
            self.end = start;
        }
    }

    /// The offset of the cursor: the start of a reversed selection, the end
    /// of any other.
    pub fn cursor_offset(&self) -> (offset: usize)
        ensures
            offset == self.cursor(),
    {
        if self.reversed {
            self.start
        } else {
            self.end
        }
    }

    /// Whether the selection is a plain cursor.
    pub fn is_empty(&self) -> (empty: bool)
        ensures
            empty == (self.start >= self.end),
    {
        self.start >= self.end
    }
}

} // verus!
