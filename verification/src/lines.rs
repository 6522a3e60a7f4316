//! Lines of a text: where each line starts, which line holds an offset, and
//! vertical movement that keeps the column.
//!
//! A text of `n` newline characters has `n + 1` lines. Every line but the
//! last ends with its newline; the last line has none and may be empty.

use vstd::prelude::*;
use vstd::std_specs::iter::IteratorSpec;
use crate::utf16::{
    char_len_utf8, lemma_utf8_len_is_encoded_len, lemma_utf8_len_nonnegative, utf8_len, utf8_width,
};

verus! {

/// The starts of the lines that follow a newline in `chars`, where `chars`
/// itself begins at the native offset `base`.
pub open spec fn line_starts_from(chars: Seq<char>, base: int) -> Seq<int>
    decreases chars.len(),
{
    if chars.len() == 0 {
        seq![]
    } else if chars[0] == '\n' {
        seq![base + 1] + line_starts_from(chars.drop_first(), base + 1)
    } else {
        line_starts_from(chars.drop_first(), base + utf8_width(chars[0]))
    }
}

/// The native offset at which each line of `chars` starts: 0, and the offset
/// after each newline.
pub open spec fn line_starts(chars: Seq<char>) -> Seq<int> {
    seq![0int] + line_starts_from(chars, 0)
}

/// Index of the line that holds `offset`: the last line that starts at or
/// before it.
pub open spec fn line_containing(starts: Seq<int>, offset: int) -> int
    decreases starts.len(),
{
    if starts.len() <= 1 {
        0
    } else if starts.last() <= offset {
        starts.len() - 1
    } else {
        line_containing(starts.drop_last(), offset)
    }
}

/// The offset at which the content of line `line` ends, its newline left
/// out, in a text of `len` bytes.
pub open spec fn line_content_end(starts: Seq<int>, line: int, len: int) -> int {
    if line + 1 < starts.len() {
        starts[line + 1] - 1
    } else {
        len
    }
}

/// The smaller of two integers.
pub open spec fn min_int(a: int, b: int) -> int {
    if a <= b {
        a
    } else {
        b
    }
}

/// Where a cursor at `cursor` lands when it moves one line down (`down`) or
/// up: on the neighbouring line, at its own column or at that line's end if
/// the line is shorter. `None` on the last line (down) and on the first
/// (up), where there is no line to move to.
pub open spec fn vertical_target(chars: Seq<char>, cursor: int, down: bool) -> Option<int> {
    let starts = line_starts(chars);
    let line = line_containing(starts, cursor);
    let column = cursor - starts[line];
    let target = if down {
        line + 1
    } else {
        line - 1
    };
    if 0 <= target < starts.len() {
        let width = line_content_end(starts, target, utf8_len(chars)) - starts[target];
        Some(starts[target] + min_int(column, width))
    } else {
        None
    }
}

/// The number of lines that are laid out for a text with these line starts
/// and this length: every line but an empty last one, and one line for an
/// empty text.
pub open spec fn shaped_line_count(starts: Seq<int>, len: int) -> int {
    if starts.len() > 1 && starts.last() == len {
        starts.len() - 1
    } else {
        starts.len() as int
    }
}

/// For each line that is laid out, the offset at which it starts and the
/// length of its content, its newline left out.
pub open spec fn shaped_lines_of(chars: Seq<char>) -> Seq<(int, int)> {
    let starts = line_starts(chars);
    let len = utf8_len(chars);
    Seq::new(
        shaped_line_count(starts, len) as nat,
        |i: int| (starts[i], line_content_end(starts, i, len) - starts[i]),
    )
}

/// The part of the range `start..end` that is shown on a line which starts
/// at `line_start`, ends, its newline included, at `line_end`, and whose
/// content is `text_len` bytes long: the indices on the line between which
/// the range lies, or `None` where the range shows nothing on the line.
pub open spec fn span_on_line(
    start: int,
    end: int,
    line_start: int,
    line_end: int,
    text_len: int,
) -> Option<(int, int)> {
    if start < line_end && end > line_start {
        let local_start = if start >= line_start {
            min_int(start - line_start, text_len)
        } else {
            0
        };
        let local_end = if end <= line_end {
            min_int(end - line_start, text_len)
        } else {
            text_len
        };
        if local_start < local_end {
            Some((local_start, local_end))
        } else {
            None
        }
    } else {
        None
    }
}

/// The offsets of `offsets` as mathematical integers.
pub open spec fn as_ints(offsets: Seq<usize>) -> Seq<int> {
    offsets.map_values(|o: usize| o as int)
}

/// Line starts after `base` lie within the text that follows and strictly
/// increase.
pub proof fn lemma_line_starts_from_bounds(chars: Seq<char>, base: int)
    ensures
        forall|i: int|
            0 <= i < line_starts_from(chars, base).len() ==> base < (#[trigger] line_starts_from(
                chars,
                base,
            )[i]) <= base + utf8_len(chars),
        forall|i: int, j: int|
            0 <= i < j < line_starts_from(chars, base).len() ==> line_starts_from(chars, base)[i]
                < line_starts_from(chars, base)[j],
    decreases chars.len(),
{
    if chars.len() > 0 {
        let rest = chars.drop_first();
        lemma_utf8_len_nonnegative(rest);
        if chars[0] == '\n' {
            lemma_line_starts_from_bounds(rest, base + 1);
            let tail = line_starts_from(rest, base + 1);
            let all = line_starts_from(chars, base);
            assert(utf8_width(chars[0]) == 1);
            assert forall|i: int| 0 <= i < all.len() implies base < (#[trigger] all[i]) <= base
                + utf8_len(chars) by {
                if i > 0 {
                    assert(all[i] == tail[i - 1]);
                }
            }
            assert forall|i: int, j: int| 0 <= i < j < all.len() implies all[i] < all[j] by {
                assert(all[j] == tail[j - 1]);
                if i > 0 {
                    assert(all[i] == tail[i - 1]);
                }
            }
        } else {
            let width = utf8_width(chars[0]);
            lemma_line_starts_from_bounds(rest, base + width);
            let all = line_starts_from(chars, base);
            assert(all == line_starts_from(rest, base + width));
            assert forall|i: int| 0 <= i < all.len() implies base < (#[trigger] all[i]) <= base
                + utf8_len(chars) by {
                assert(base + width < line_starts_from(rest, base + width)[i]);
            }
        }
    }
}

/// The starts of the lines of a text begin with 0, strictly increase and
/// none exceeds the length of the text.
pub proof fn lemma_line_starts_ordered(chars: Seq<char>)
    ensures
        line_starts(chars).len() >= 1,
        line_starts(chars)[0] == 0,
        forall|i: int|
            0 <= i < line_starts(chars).len() ==> 0 <= (#[trigger] line_starts(chars)[i])
                <= utf8_len(chars),
        forall|i: int, j: int|
            0 <= i < j < line_starts(chars).len() ==> line_starts(chars)[i] < line_starts(
                chars,
            )[j],
{
    lemma_line_starts_from_bounds(chars, 0);
    lemma_utf8_len_nonnegative(chars);
    let tail = line_starts_from(chars, 0);
    let all = line_starts(chars);
    assert forall|i: int| 0 <= i < all.len() implies 0 <= (#[trigger] all[i]) <= utf8_len(
        chars,
    ) by {
        if i > 0 {
            assert(all[i] == tail[i - 1]);
        }
    }
    assert forall|i: int, j: int| 0 <= i < j < all.len() implies all[i] < all[j] by {
        assert(all[j] == tail[j - 1]);
        if i > 0 {
            assert(all[i] == tail[i - 1]);
        }
    }
}

/// The line that holds an offset is a line of the text and starts at or
/// before the offset; the line after it, if any, starts beyond the offset.
pub proof fn lemma_line_containing(starts: Seq<int>, offset: int)
    requires
        starts.len() >= 1,
        starts[0] <= offset,
        forall|i: int, j: int| 0 <= i < j < starts.len() ==> starts[i] < starts[j],
    ensures
        0 <= line_containing(starts, offset) < starts.len(),
        starts[line_containing(starts, offset)] <= offset,
        line_containing(starts, offset) + 1 < starts.len() ==> offset < starts[line_containing(
            starts,
            offset,
        ) + 1],
    decreases starts.len(),
{
    if starts.len() > 1 && !(starts.last() <= offset) {
        let front = starts.drop_last();
        assert forall|i: int, j: int| 0 <= i < j < front.len() implies front[i] < front[j] by {
            assert(front[i] == starts[i] && front[j] == starts[j]);
        }
        assert(front[0] == starts[0]);
        lemma_line_containing(front, offset);
        let k = line_containing(front, offset);
        assert(front[k] == starts[k]);
        if k + 1 < front.len() {
            assert(front[k + 1] == starts[k + 1]);
        }
    }
}

/// The native offset at which each line of `text` starts.
pub fn line_start_offsets(text: &str) -> (offsets: Vec<usize>)
    ensures
        as_ints(offsets@) == line_starts(text@),
{
    let len = text.as_bytes().len();
    proof {
        lemma_utf8_len_is_encoded_len(text@);
    }
    let mut offsets: Vec<usize> = Vec::new();
    offsets.push(0);
    let mut chars = text.chars();
    let mut count: usize = 0;
    loop
        invariant
            chars.obeys_prophetic_iter_laws(),
            count + utf8_len(chars.remaining()) == len,
            line_starts(text@) =~= as_ints(offsets@) + line_starts_from(
                chars.remaining(),
                count as int,
            ),
        ensures
            line_starts(text@) =~= as_ints(offsets@),
        decreases len - count,
    {
        let ghost before = chars.remaining();
        let ghost found = as_ints(offsets@);
        match chars.next() {
            None => {
                assert(before.len() == 0);
                break ;
            },
            Some(ch) => {
                assert(before.len() > 0 && ch == before[0]);
                assert(chars.remaining() == before.drop_first());
                proof {
                    lemma_utf8_len_nonnegative(chars.remaining());
                }
                count += char_len_utf8(ch);
                if ch == '\n' {
                    offsets.push(count);
                    assert(as_ints(offsets@) =~= found + seq![count as int]);
                }
            },
        }
    }
    offsets
}

/// Index of the line that holds `offset`, given where the lines start.
pub fn line_index_for_offset(offsets: &Vec<usize>, offset: usize) -> (line: usize)
    ensures
        line == line_containing(as_ints(offsets@), offset as int),
{
    let mut i: usize = offsets.len();
    assert(offsets@.take(i as int) =~= offsets@);
    while i > 1
        invariant
            i <= offsets.len(),
            line_containing(as_ints(offsets@), offset as int) == line_containing(
                as_ints(offsets@.take(i as int)),
                offset as int,
            ),
        decreases i,
    {
        assert(as_ints(offsets@.take(i as int)).drop_last() =~= as_ints(offsets@.take(i - 1)));
        if offsets[i - 1] <= offset {
            return i - 1;
        }
        i -= 1;
    }
    0
}

/// For each line of `text` that is laid out, the offset at which it starts
/// and the length of its content.
pub fn shaped_lines(text: &str) -> (lines: Vec<(usize, usize)>)
    ensures
        lines@.len() == shaped_lines_of(text@).len(),
        forall|i: int|
            0 <= i < lines@.len() ==> (#[trigger] lines@[i]).0 == shaped_lines_of(text@)[i].0
                && lines@[i].1 == shaped_lines_of(text@)[i].1,
{
    let len = text.as_bytes().len();
    let offsets = line_start_offsets(text);
    proof {
        lemma_utf8_len_is_encoded_len(text@);
        lemma_line_starts_ordered(text@);
        assert(as_ints(offsets@).len() == offsets@.len());
        assert(forall|i: int|
            0 <= i < offsets@.len() ==> offsets@[i] as int == as_ints(offsets@)[i]);
    }
    let total = offsets.len();
    let count = if total > 1 && offsets[total - 1] == len {
        total - 1
    } else {
        total
    };
    let mut lines: Vec<(usize, usize)> = Vec::new();
    let mut i: usize = 0;
    while i < count
        invariant
            i <= count <= total,
            total == offsets@.len(),
            len == utf8_len(text@),
            as_ints(offsets@) == line_starts(text@),
            count == shaped_line_count(line_starts(text@), len as int),
            forall|k: int| 0 <= k < offsets@.len() ==> offsets@[k] as int == as_ints(offsets@)[k],
            forall|a: int, b: int|
                0 <= a < b < line_starts(text@).len() ==> line_starts(text@)[a] < line_starts(
                    text@,
                )[b],
            forall|k: int|
                0 <= k < line_starts(text@).len() ==> 0 <= (#[trigger] line_starts(text@)[k])
                    <= utf8_len(text@),
            lines@.len() == i,
            forall|k: int|
                0 <= k < i ==> (#[trigger] lines@[k]).0 == shaped_lines_of(text@)[k].0
                    && lines@[k].1 == shaped_lines_of(text@)[k].1,
        decreases count - i,
    {
        let start = offsets[i];
        let end = if i + 1 < total {
            offsets[i + 1] - 1
        } else {
            len
        };
        lines.push((start, end - start));
        i += 1;
    }
    lines
}

/// The part of the range `start..end` that is shown on a line which starts
/// at `line_start` and whose content is `text_len` bytes long, followed by
/// `newline` bytes of line end: the indices on the line between which the
/// range lies, or `None` where the range shows nothing on the line.
pub fn selection_on_line(
    start: usize,
    end: usize,
    line_start: usize,
    text_len: usize,
    newline: usize,
) -> (span: Option<(usize, usize)>)
    requires
        line_start + text_len + newline <= usize::MAX,
    ensures
        span.is_some() == span_on_line(
            start as int,
            end as int,
            line_start as int,
            line_start + text_len + newline,
            text_len as int,
        ).is_some(),
        span.is_some() ==> span.unwrap().0 == span_on_line(
            start as int,
            end as int,
            line_start as int,
            line_start + text_len + newline,
            text_len as int,
        ).unwrap().0 && span.unwrap().1 == span_on_line(
            start as int,
            end as int,
            line_start as int,
            line_start + text_len + newline,
            text_len as int,
        ).unwrap().1,
{
    let line_end = line_start + text_len + newline;
    if start < line_end && end > line_start {
        let local_start = if start >= line_start {
            if start - line_start <= text_len {
                start - line_start
            } else {
                text_len
            }
        } else {
            0
        };
        let local_end = if end <= line_end {
            if end - line_start <= text_len {
                end - line_start
            } else {
                text_len
            }
        } else {
            text_len
        };
        if local_start < local_end {
            Some((local_start, local_end))
        } else {
            None
        }
    } else {
        None
    }
}

/// Moves a cursor one line down (`down`) or up, keeping its column where the
/// target line is long enough and stopping at the end of the line where it
/// is not. `None` on the last line (down) and on the first (up), where there
/// is no line to move to.
pub fn move_by_line(text: &str, cursor: usize, down: bool) -> (target: Option<usize>)
    ensures
        target.is_some() == vertical_target(text@, cursor as int, down).is_some(),
        target.is_some() ==> target.unwrap() == vertical_target(
            text@,
            cursor as int,
            down,
        ).unwrap(),
        target.is_some() ==> target.unwrap() <= utf8_len(text@) && target.unwrap() != cursor,
{
    let len = text.as_bytes().len();
    let offsets = line_start_offsets(text);
    let line = line_index_for_offset(&offsets, cursor);
    proof {
        lemma_utf8_len_is_encoded_len(text@);
        lemma_line_starts_ordered(text@);
        lemma_line_containing(line_starts(text@), cursor as int);
        assert(as_ints(offsets@).len() == offsets@.len());
        assert(forall|i: int|
            0 <= i < offsets@.len() ==> offsets@[i] as int == as_ints(offsets@)[i]);
        assert(line < offsets@.len());
    }
    let count = offsets.len();
    let column = cursor - offsets[line];
    if down {
        if line + 1 >= count {
            return None;
        }
    } else {
        if line == 0 {
            return None;
        }
    }
    let target_line = if down {
        line + 1
    } else {
        line - 1
    };
    let end = if target_line + 1 < count {
        offsets[target_line + 1] - 1
    } else {
        len
    };
    let width = end - offsets[target_line];
    if column <= width {
        Some(offsets[target_line] + column)
    } else {
        Some(offsets[target_line] + width)
    }
}

} // verus!
