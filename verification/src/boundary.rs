//! Cursor stops: the offsets at which grapheme clusters start, and the
//! nearest stop before and after a given offset.

use vstd::prelude::*;
use unicode_segmentation::UnicodeSegmentation;
use crate::utf16::{
    is_native_boundary, lemma_native_boundary_step, lemma_utf8_len_is_encoded_len,
    lemma_utf8_len_nonnegative, utf8_len,
};

verus! {

/// The native offsets at which the extended grapheme clusters of `text`
/// start, in the order in which they occur.
pub uninterp spec fn grapheme_starts(text: Seq<char>) -> Seq<usize>;

/// What holds of the cluster starts of any text of `len` bytes: they strictly
/// increase, each lies before the end of the text, and the first cluster of
/// a text that is not empty starts at 0.
pub open spec fn is_start_sequence(starts: Seq<usize>, len: int) -> bool {
    &&& forall|i: int, j: int| 0 <= i < j < starts.len() ==> starts[i] < starts[j]
    &&& forall|i: int| 0 <= i < starts.len() ==> (#[trigger] starts[i]) < len
    &&& len > 0 ==> starts.len() > 0 && starts[0] == 0
}

/// Whether every offset of `starts` is a character boundary of `text`.
pub open spec fn starts_on_boundaries(starts: Seq<usize>, text: Seq<char>) -> bool {
    forall|i: int| 0 <= i < starts.len() ==> is_native_boundary(text, (#[trigger] starts[i]) as int)
}

/// Calls `UnicodeSegmentation::grapheme_indices` of the crate
/// `unicode-segmentation` for extended clusters and keeps the byte offset of
/// each cluster. Trusted: the result is a function of the text alone; the
/// iterator yields the clusters front to back, the first from offset 0, each
/// one a non-empty slice of the text that begins where the one before ended,
/// so the offsets start at 0, strictly increase, each is a character
/// boundary and none reaches the length.
#[verifier::external_body]
fn grapheme_start_offsets(text: &str) -> (starts: Vec<usize>)
    ensures
        starts@ == grapheme_starts(text@),
        is_start_sequence(starts@, utf8_len(text@)),
        starts_on_boundaries(starts@, text@),
{
    text.grapheme_indices(true).map(|(index, _)| index).collect()
}

/// Whether `offset` is one of `starts`.
pub open spec fn is_start(starts: Seq<usize>, offset: int) -> bool {
    exists|i: int| 0 <= i < starts.len() && starts[i] == offset
}

/// The last of `starts` that is strictly less than `offset`, or 0 if there is
/// none. On a strictly increasing sequence this is the greatest such start.
pub open spec fn previous_start(starts: Seq<usize>, offset: int) -> int
    decreases starts.len(),
{
    if starts.len() == 0 {
        0
    } else if starts.last() < offset {
        starts.last() as int
    } else {
        previous_start(starts.drop_last(), offset)
    }
}

/// The first of `starts` that is strictly greater than `offset`, or `len` if
/// there is none. On a strictly increasing sequence this is the least such
/// start.
pub open spec fn next_start(starts: Seq<usize>, offset: int, len: int) -> int
    decreases starts.len(),
{
    if starts.len() == 0 {
        len
    } else if starts[0] > offset {
        starts[0] as int
    } else {
        next_start(starts.drop_first(), offset, len)
    }
}

/// The cursor stop before `offset` in `text`: the greatest cluster start
/// strictly less than `offset`, or 0.
pub open spec fn previous_boundary_of(text: Seq<char>, offset: int) -> int {
    previous_start(grapheme_starts(text), offset)
}

/// The cursor stop after `offset` in `text`: the least cluster start
/// strictly greater than `offset`, or the length of the text.
pub open spec fn next_boundary_of(text: Seq<char>, offset: int) -> int {
    next_start(grapheme_starts(text), offset, utf8_len(text))
}

/// Whether a cursor at `offset` stands between two grapheme clusters of
/// `text`, before its first or behind its last.
pub open spec fn is_cursor_stop(text: Seq<char>, offset: int) -> bool {
    offset == 0 || is_start(grapheme_starts(text), offset) || offset == utf8_len(text)
}

/// `previous_start` is the greatest start below `offset`.
pub proof fn lemma_previous_boundary_greatest(starts: Seq<usize>, offset: int)
    requires
        forall|i: int, j: int| 0 <= i < j < starts.len() ==> starts[i] < starts[j],
    ensures
        ({
            let p = previous_start(starts, offset);
            if exists|i: int| 0 <= i < starts.len() && starts[i] < offset {
                &&& is_start(starts, p)
                &&& p < offset
                &&& forall|i: int| 0 <= i < starts.len() && starts[i] < offset ==> starts[i] <= p
            } else {
                p == 0
            }
        }),
    decreases starts.len(),
{
    if starts.len() > 0 {
        let n = starts.len() - 1;
        let front = starts.drop_last();
        if starts.last() < offset {
            assert(starts[n] == starts.last());
        } else {
            assert forall|i: int, j: int| 0 <= i < j < front.len() implies front[i] < front[j] by {
                assert(front[i] == starts[i] && front[j] == starts[j]);
            }
            lemma_previous_boundary_greatest(front, offset);
            let p = previous_start(front, offset);
            if exists|i: int| 0 <= i < starts.len() && starts[i] < offset {
                let i = choose|i: int| 0 <= i < starts.len() && starts[i] < offset;
                assert(i < n);
                assert(front[i] == starts[i]);
                let k = choose|k: int| 0 <= k < front.len() && front[k] == p;
                assert(starts[k] == p);
                assert forall|i: int| 0 <= i < starts.len() && starts[i] < offset implies starts[i]
                    <= p by {
                    assert(i < n);
                    assert(front[i] == starts[i]);
                }
            } else {
                assert forall|i: int| 0 <= i < front.len() implies !(front[i] < offset) by {
                    assert(front[i] == starts[i]);
                }
            }
        }
    }
}

/// `next_start` is the least start above `offset`.
pub proof fn lemma_next_boundary_least(starts: Seq<usize>, offset: int, len: int)
    requires
        forall|i: int, j: int| 0 <= i < j < starts.len() ==> starts[i] < starts[j],
    ensures
        ({
            let n = next_start(starts, offset, len);
            if exists|i: int| 0 <= i < starts.len() && starts[i] > offset {
                &&& is_start(starts, n)
                &&& n > offset
                &&& forall|i: int| 0 <= i < starts.len() && starts[i] > offset ==> starts[i] >= n
            } else {
                n == len
            }
        }),
    decreases starts.len(),
{
    if starts.len() > 0 {
        let rest = starts.drop_first();
        if starts[0] > offset {
        } else {
            assert forall|i: int, j: int| 0 <= i < j < rest.len() implies rest[i] < rest[j] by {
                assert(rest[i] == starts[i + 1] && rest[j] == starts[j + 1]);
            }
            lemma_next_boundary_least(rest, offset, len);
            let n = next_start(rest, offset, len);
            if exists|i: int| 0 <= i < starts.len() && starts[i] > offset {
                let i = choose|i: int| 0 <= i < starts.len() && starts[i] > offset;
                assert(i > 0);
                assert(rest[i - 1] == starts[i]);
                let k = choose|k: int| 0 <= k < rest.len() && rest[k] == n;
                assert(starts[k + 1] == n);
                assert forall|i: int| 0 <= i < starts.len() && starts[i] > offset implies starts[i]
                    >= n by {
                    assert(i > 0);
                    assert(rest[i - 1] == starts[i]);
                }
            } else {
                assert forall|i: int| 0 <= i < rest.len() implies !(rest[i] > offset) by {
                    assert(rest[i] == starts[i + 1]);
                }
            }
        }
    }
}

/// The cursor stop before `offset` among the cluster starts `starts`.
pub fn previous_boundary_in(starts: &Vec<usize>, offset: usize) -> (stop: usize)
    ensures
        stop == previous_start(starts@, offset as int),
{
    let mut i: usize = starts.len();
    assert(starts@.take(i as int) =~= starts@);
    while i > 0
        invariant
            i <= starts.len(),
            previous_start(starts@, offset as int) == previous_start(
                starts@.take(i as int),
                offset as int,
            ),
        decreases i,
    {
        assert(starts@.take(i as int).drop_last() =~= starts@.take(i - 1));
        if starts[i - 1] < offset {
            return starts[i - 1];
        }
        i -= 1;
    }
    assert(starts@.take(0).len() == 0);
    0
}

/// The cursor stop after `offset` among the cluster starts `starts` of a
/// text of `len` bytes.
pub fn next_boundary_in(starts: &Vec<usize>, offset: usize, len: usize) -> (stop: usize)
    ensures
        stop == next_start(starts@, offset as int, len as int),
{
    let mut i: usize = 0;
    assert(starts@.skip(0) =~= starts@);
    while i < starts.len()
        invariant
            i <= starts.len(),
            next_start(starts@, offset as int, len as int) == next_start(
                starts@.skip(i as int),
                offset as int,
                len as int,
            ),
        decreases starts.len() - i,
    {
        assert(starts@.skip(i as int).drop_first() =~= starts@.skip(i + 1));
        if starts[i] > offset {
            return starts[i];
        }
        i += 1;
    }
    assert(starts@.skip(i as int).len() == 0);
    len
}

/// The cursor stop before `offset` in `text`: the greatest cluster start
/// strictly less than `offset`, or 0 if there is none. The stop is a
/// character boundary of `text`.
pub fn previous_boundary(text: &str, offset: usize) -> (stop: usize)
    ensures
        stop == previous_boundary_of(text@, offset as int),
        stop <= offset,
        offset > 0 ==> stop < offset,
        stop <= utf8_len(text@),
        is_native_boundary(text@, stop as int),
        is_cursor_stop(text@, offset as int) ==> is_native_boundary(text@, offset as int),
        offset > 0 && is_cursor_stop(text@, offset as int) ==> next_boundary_of(
            text@,
            stop as int,
        ) == offset,
        offset <= utf8_len(text@) ==> offset <= next_boundary_of(text@, stop as int),
        forall|i: int|
            0 <= i < grapheme_starts(text@).len() && grapheme_starts(text@)[i] < offset
                ==> is_start(grapheme_starts(text@), stop as int) && grapheme_starts(text@)[i]
                <= stop,
        is_cursor_stop(text@, stop as int),
        is_start_sequence(grapheme_starts(text@), utf8_len(text@)),
        starts_on_boundaries(grapheme_starts(text@), text@),
{
    let starts = grapheme_start_offsets(text);
    proof {
        lemma_previous_boundary_greatest(starts@, offset as int);
        lemma_utf8_len_nonnegative(text@);
        lemma_native_boundary_step(text@, 0);
        let p = previous_start(starts@, offset as int);
        if is_start(starts@, p) {
            let k = choose|k: int| 0 <= k < starts@.len() && starts@[k] == p;
            assert(is_native_boundary(text@, starts@[k] as int));
        }
        lemma_stop_is_boundary(starts@, text@, offset as int);
        if offset > 0 && is_cursor_stop(text@, offset as int) {
            lemma_previous_then_next(starts@, utf8_len(text@), offset as int);
        }
        if offset <= utf8_len(text@) {
            lemma_boundaries_bracket(starts@, utf8_len(text@), offset as int);
        }
    }
    previous_boundary_in(&starts, offset)
}

/// The cursor stop after `offset` in `text`: the least cluster start strictly
/// greater than `offset`, or the length of `text` if there is none. The stop
/// is a character boundary of `text`.
pub fn next_boundary(text: &str, offset: usize) -> (stop: usize)
    ensures
        stop == next_boundary_of(text@, offset as int),
        stop <= utf8_len(text@),
        offset < utf8_len(text@) ==> offset < stop,
        is_native_boundary(text@, stop as int),
        is_cursor_stop(text@, offset as int) ==> is_native_boundary(text@, offset as int),
        offset < utf8_len(text@) && is_cursor_stop(text@, offset as int)
            ==> previous_boundary_of(text@, stop as int) == offset,
        offset <= utf8_len(text@) ==> previous_boundary_of(text@, stop as int) <= offset,
        forall|i: int|
            0 <= i < grapheme_starts(text@).len() && grapheme_starts(text@)[i] > offset
                ==> is_start(grapheme_starts(text@), stop as int) && grapheme_starts(text@)[i]
                >= stop,
        stop != utf8_len(text@) ==> is_start(grapheme_starts(text@), stop as int) && stop
            > offset,
        is_cursor_stop(text@, stop as int),
        is_start_sequence(grapheme_starts(text@), utf8_len(text@)),
        starts_on_boundaries(grapheme_starts(text@), text@),
{
    let starts = grapheme_start_offsets(text);
    proof {
        lemma_utf8_len_is_encoded_len(text@);
        lemma_next_boundary_least(starts@, offset as int, utf8_len(text@));
        vstd::utf8::encode_utf8_valid_utf8(text@);
        vstd::utf8::is_char_boundary_start_end_of_seq(vstd::utf8::encode_utf8(text@));
        let n = next_start(starts@, offset as int, utf8_len(text@));
        if is_start(starts@, n) {
            let k = choose|k: int| 0 <= k < starts@.len() && starts@[k] == n;
            assert(is_native_boundary(text@, starts@[k] as int));
        }
        lemma_stop_is_boundary(starts@, text@, offset as int);
        if offset < utf8_len(text@) && is_cursor_stop(text@, offset as int) {
            lemma_next_then_previous(starts@, utf8_len(text@), offset as int);
        }
        if offset <= utf8_len(text@) {
            lemma_boundaries_bracket(starts@, utf8_len(text@), offset as int);
        }
    }
    let bytes_len = text.as_bytes().len();
    next_boundary_in(&starts, offset, bytes_len)
}

/// The start of the text, a start of a cluster and the end of the text are
/// character boundaries.
proof fn lemma_stop_is_boundary(starts: Seq<usize>, text: Seq<char>, offset: int)
    requires
        starts_on_boundaries(starts, text),
    ensures
        offset == 0 || is_start(starts, offset) || offset == utf8_len(text) ==> is_native_boundary(
            text,
            offset,
        ),
{
    if is_start(starts, offset) {
        let k = choose|k: int| 0 <= k < starts.len() && starts[k] == offset;
        assert(is_native_boundary(text, starts[k] as int));
    }
    lemma_utf8_len_is_encoded_len(text);
    vstd::utf8::encode_utf8_valid_utf8(text);
    vstd::utf8::is_char_boundary_start_end_of_seq(vstd::utf8::encode_utf8(text));
}

/// Stepping back from a stop other than 0 and then forward again returns to
/// it: the two stops enclose exactly one cluster.
pub proof fn lemma_previous_then_next(starts: Seq<usize>, len: int, offset: int)
    requires
        is_start_sequence(starts, len),
        offset > 0,
        is_start(starts, offset) || offset == len,
    ensures
        0 <= previous_start(starts, offset) < offset,
        next_start(starts, previous_start(starts, offset), len) == offset,
{
    let p = previous_start(starts, offset);
    lemma_previous_boundary_greatest(starts, offset);
    lemma_next_boundary_least(starts, p, len);
}

/// Stepping forward from a cluster start and then back again returns to it.
pub proof fn lemma_next_then_previous(starts: Seq<usize>, len: int, offset: int)
    requires
        is_start_sequence(starts, len),
        is_start(starts, offset),
    ensures
        offset < next_start(starts, offset, len) <= len,
        previous_start(starts, next_start(starts, offset, len)) == offset,
{
    let n = next_start(starts, offset, len);
    lemma_next_boundary_least(starts, offset, len);
    lemma_previous_boundary_greatest(starts, n);
}

/// The two stops bracket an offset inside the text: stepping forward and
/// then back never passes `offset`, nor does stepping back and then forward.
pub proof fn lemma_boundaries_bracket(starts: Seq<usize>, len: int, offset: int)
    requires
        is_start_sequence(starts, len),
        0 <= offset <= len,
    ensures
        previous_start(starts, next_start(starts, offset, len)) <= offset,
        offset <= next_start(starts, previous_start(starts, offset), len),
{
    let n = next_start(starts, offset, len);
    let p = previous_start(starts, offset);
    lemma_next_boundary_least(starts, offset, len);
    lemma_previous_boundary_greatest(starts, n);
    lemma_previous_boundary_greatest(starts, offset);
    lemma_next_boundary_least(starts, p, len);
}

} // verus!
