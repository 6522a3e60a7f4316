//! Conversion between native offsets (UTF-8 bytes) and UTF-16 code-unit
//! offsets, as required at the boundary with an input-method framework.

use vstd::prelude::*;
use vstd::utf8::*;
use vstd::std_specs::iter::IteratorSpec;
use std::ops::Range;

verus! {

/// Number of UTF-8 bytes that encode `c`.
pub open spec fn utf8_width(c: char) -> int {
    let v = c as u32;
    if v < 0x80 {
        1
    } else if v < 0x800 {
        2
    } else if v < 0x10000 {
        3
    } else {
        4
    }
}

/// Number of UTF-16 code units that encode `c`.
pub open spec fn utf16_width(c: char) -> int {
    if (c as u32) < 0x10000 {
        1
    } else {
        2
    }
}

/// Length of `chars` in UTF-8 bytes.
pub open spec fn utf8_len(chars: Seq<char>) -> int
    decreases chars.len(),
{
    if chars.len() == 0 {
        0
    } else {
        utf8_width(chars[0]) + utf8_len(chars.drop_first())
    }
}

/// Length of `chars` in UTF-16 code units.
pub open spec fn utf16_len(chars: Seq<char>) -> int
    decreases chars.len(),
{
    if chars.len() == 0 {
        0
    } else {
        utf16_width(chars[0]) + utf16_len(chars.drop_first())
    }
}

/// The UTF-16 offset that corresponds to the native offset `offset`: the sum
/// of the UTF-16 widths of every character that starts strictly before it.
pub open spec fn to_utf16(chars: Seq<char>, offset: int) -> int
    decreases chars.len(),
{
    if chars.len() == 0 || offset <= 0 {
        0
    } else {
        utf16_width(chars[0]) + to_utf16(chars.drop_first(), offset - utf8_width(chars[0]))
    }
}

/// The native offset that corresponds to the UTF-16 offset `offset16`: the sum
/// of the UTF-8 widths of every character that starts strictly before it.
pub open spec fn from_utf16(chars: Seq<char>, offset16: int) -> int
    decreases chars.len(),
{
    if chars.len() == 0 || offset16 <= 0 {
        0
    } else {
        utf8_width(chars[0]) + from_utf16(chars.drop_first(), offset16 - utf16_width(chars[0]))
    }
}

/// Number of UTF-8 bytes that encode `c`.
pub fn char_len_utf8(c: char) -> (n: usize)
    ensures
        n == utf8_width(c),
{
    let v: u32 = c as u32;
    if v < 0x80 {
        1
    } else if v < 0x800 {
        2
    } else if v < 0x10000 {
        3
    } else {
        4
    }
}

/// Number of UTF-16 code units that encode `c`.
pub fn char_len_utf16(c: char) -> (n: usize)
    ensures
        n == utf16_width(c),
{
    let v: u32 = c as u32;
    if v < 0x10000 {
        1
    } else {
        2
    }
}

/// The UTF-8 length of a text is the length of its encoding.
pub proof fn lemma_utf8_len_is_encoded_len(chars: Seq<char>)
    ensures
        utf8_len(chars) == encode_utf8(chars).len(),
    decreases chars.len(),
{
    if chars.len() > 0 {
        lemma_utf8_width_is_encoded_len(chars[0]);
        lemma_utf8_len_is_encoded_len(chars.drop_first());
    }
}

/// A text never has a negative UTF-8 length.
pub proof fn lemma_utf8_len_nonnegative(chars: Seq<char>)
    ensures
        utf8_len(chars) >= 0,
    decreases chars.len(),
{
    if chars.len() > 0 {
        lemma_utf8_len_nonnegative(chars.drop_first());
    }
}

/// A text of at least one character has a positive UTF-8 length, and an
/// empty text has length 0.
pub proof fn lemma_utf8_len_positive(chars: Seq<char>)
    ensures
        chars.len() > 0 <==> utf8_len(chars) > 0,
{
    if chars.len() > 0 {
        lemma_utf8_len_nonnegative(chars.drop_first());
    }
}

/// Appending a character adds its width to the length of a text.
pub proof fn lemma_utf8_len_push(chars: Seq<char>, c: char)
    ensures
        utf8_len(chars.push(c)) == utf8_len(chars) + utf8_width(c),
    decreases chars.len(),
{
    if chars.len() == 0 {
        assert(chars.push(c).drop_first() =~= Seq::<char>::empty());
        reveal_with_fuel(utf8_len, 2);
    } else {
        assert(chars.push(c).drop_first() =~= chars.drop_first().push(c));
        lemma_utf8_len_push(chars.drop_first(), c);
    }
}

/// The UTF-8 width of a character is the length of its encoding.
pub proof fn lemma_utf8_width_is_encoded_len(c: char)
    ensures
        utf8_width(c) == encode_scalar(c as u32).len(),
{
    char_is_scalar(c);
}

/// UTF-16 offset of the native offset `offset` in `text`.
pub fn offset_to_utf16(text: &str, offset: usize) -> (offset16: usize)
    ensures
        offset16 == to_utf16(text@, offset as int),
{
    let len = text.as_bytes().len();
    proof {
        lemma_utf8_len_is_encoded_len(text@);
    }
    let mut chars = text.chars();
    let mut utf16_offset: usize = 0;
    let mut utf8_count: usize = 0;
    loop
        invariant
            chars.obeys_prophetic_iter_laws(),
            utf8_count + utf8_len(chars.remaining()) == len,
            utf16_offset <= utf8_count,
            to_utf16(text@, offset as int) == utf16_offset + to_utf16(
                chars.remaining(),
                offset - utf8_count,
            ),
        ensures
            utf16_offset == to_utf16(text@, offset as int),
        decreases len - utf8_count,
    {
        if utf8_count >= offset {
            break ;
        }
        let ghost before = chars.remaining();
        match chars.next() {
            None => {
                assert(before.len() == 0);
                break ;
            },
            Some(ch) => {
                assert(before.len() > 0 && ch == before[0]);
                assert(chars.remaining() == before.drop_first());
                proof {
                    lemma_utf8_len_nonnegative(chars.remaining());
                }
                utf8_count += char_len_utf8(ch);
                utf16_offset += char_len_utf16(ch);
            },
        }
    }
    utf16_offset
}

/// Native offset of the UTF-16 offset `offset16` in `text`. The result is
/// always a character boundary of `text`, at most its length.
pub fn offset_from_utf16(text: &str, offset16: usize) -> (offset: usize)
    ensures
        offset == from_utf16(text@, offset16 as int),
        offset <= utf8_len(text@),
        is_native_boundary(text@, offset as int),
{
    let len = text.as_bytes().len();
    proof {
        lemma_utf8_len_is_encoded_len(text@);
        lemma_from_utf16_is_boundary(text@, offset16 as int);
    }
    let mut chars = text.chars();
    let mut utf8_offset: usize = 0;
    let mut utf16_count: usize = 0;
    loop
        invariant
            chars.obeys_prophetic_iter_laws(),
            utf8_offset + utf8_len(chars.remaining()) == len,
            utf16_count <= utf8_offset,
            from_utf16(text@, offset16 as int) == utf8_offset + from_utf16(
                chars.remaining(),
                offset16 - utf16_count,
            ),
        ensures
            utf8_offset == from_utf16(text@, offset16 as int),
        decreases len - utf8_offset,
    {
        if utf16_count >= offset16 {
            break ;
        }
        let ghost before = chars.remaining();
        match chars.next() {
            None => {
                assert(before.len() == 0);
                break ;
            },
            Some(ch) => {
                assert(before.len() > 0 && ch == before[0]);
                assert(chars.remaining() == before.drop_first());
                proof {
                    lemma_utf8_len_nonnegative(chars.remaining());
                }
                utf16_count += char_len_utf16(ch);
                utf8_offset += char_len_utf8(ch);
            },
        }
    }
    utf8_offset
}

/// Maps both ends of a native range to UTF-16 offsets.
pub fn range_to_utf16(text: &str, range: &Range<usize>) -> (range16: Range<usize>)
    ensures
        range16.start == to_utf16(text@, range.start as int),
        range16.end == to_utf16(text@, range.end as int),
{
    offset_to_utf16(text, range.start)..offset_to_utf16(text, range.end)
}

/// Maps both ends of a UTF-16 range to native offsets.
pub fn range_from_utf16(text: &str, range16: &Range<usize>) -> (range: Range<usize>)
    ensures
        range.start == from_utf16(text@, range16.start as int),
        range.end == from_utf16(text@, range16.end as int),
        range.start <= utf8_len(text@),
        range.end <= utf8_len(text@),
        is_native_boundary(text@, range.start as int),
        is_native_boundary(text@, range.end as int),
{
    offset_from_utf16(text, range16.start)..offset_from_utf16(text, range16.end)
}

/// Whether the native offset `offset` falls between two characters of
/// `chars`, at its start or at its end.
pub open spec fn is_native_boundary(chars: Seq<char>, offset: int) -> bool {
    is_char_boundary(encode_utf8(chars), offset)
}

/// Whether the UTF-16 offset `offset16` falls between two characters of
/// `chars`, at its start or at its end.
pub open spec fn is_utf16_boundary(chars: Seq<char>, offset16: int) -> bool
    decreases chars.len(),
{
    offset16 == 0 || (chars.len() > 0 && offset16 >= utf16_width(chars[0]) && is_utf16_boundary(
        chars.drop_first(),
        offset16 - utf16_width(chars[0]),
    ))
}

/// A native boundary other than 0 lies at or after the end of the first
/// character and is a boundary of the rest of the text.
pub proof fn lemma_native_boundary_step(chars: Seq<char>, offset: int)
    ensures
        is_native_boundary(chars, offset) <==> (offset == 0 || (chars.len() > 0 && offset
            >= utf8_width(chars[0]) && is_native_boundary(
            chars.drop_first(),
            offset - utf8_width(chars[0]),
        ))),
{
    let bytes = encode_utf8(chars);
    encode_utf8_valid_utf8(chars);
    lemma_utf8_len_is_encoded_len(chars);
    lemma_utf8_len_nonnegative(chars);
    if chars.len() > 0 {
        let rest = chars.drop_first();
        encode_utf8_first_scalar(chars);
        encode_utf8_valid_utf8(rest);
        lemma_utf8_width_is_encoded_len(chars[0]);
        lemma_utf8_len_is_encoded_len(rest);
        lemma_utf8_len_nonnegative(rest);
        assert(pop_first_scalar(bytes) =~= encode_utf8(rest));
        if offset != 0 && !(offset < 0 || bytes.len() < offset) {
            assert(is_char_boundary(bytes, offset) == is_char_boundary(
                pop_first_scalar(bytes),
                offset - length_of_first_scalar(bytes),
            ));
        }
        if offset > bytes.len() {
            assert(!is_char_boundary(encode_utf8(rest), offset - utf8_width(chars[0])));
        }
    } else {
        assert(bytes.len() == 0);
    }
}

/// The native offset of a UTF-16 offset is always a character boundary
/// inside the text.
pub proof fn lemma_from_utf16_is_boundary(chars: Seq<char>, offset16: int)
    ensures
        0 <= from_utf16(chars, offset16) <= utf8_len(chars),
        is_native_boundary(chars, from_utf16(chars, offset16)),
    decreases chars.len(),
{
    lemma_utf8_len_nonnegative(chars);
    lemma_native_boundary_step(chars, from_utf16(chars, offset16));
    if chars.len() > 0 && offset16 > 0 {
        lemma_from_utf16_is_boundary(chars.drop_first(), offset16 - utf16_width(chars[0]));
    }
}

/// The UTF-16 offset of a native offset is always a UTF-16 boundary inside
/// the text.
pub proof fn lemma_to_utf16_is_boundary(chars: Seq<char>, offset: int)
    ensures
        0 <= to_utf16(chars, offset) <= utf16_len(chars),
        is_utf16_boundary(chars, to_utf16(chars, offset)),
    decreases chars.len(),
{
    lemma_utf16_len_nonnegative(chars);
    if chars.len() > 0 && offset > 0 {
        lemma_to_utf16_is_boundary(chars.drop_first(), offset - utf8_width(chars[0]));
    }
}

/// A text never has a negative UTF-16 length.
pub proof fn lemma_utf16_len_nonnegative(chars: Seq<char>)
    ensures
        utf16_len(chars) >= 0,
    decreases chars.len(),
{
    if chars.len() > 0 {
        lemma_utf16_len_nonnegative(chars.drop_first());
    }
}

/// Round trip from a native offset: an offset that is a character boundary
/// of the text is recovered from its UTF-16 offset.
pub proof fn lemma_native_round_trip(chars: Seq<char>, offset: int)
    requires
        is_native_boundary(chars, offset),
    ensures
        from_utf16(chars, to_utf16(chars, offset)) == offset,
    decreases chars.len(),
{
    lemma_native_boundary_step(chars, offset);
    if offset != 0 {
        let rest = chars.drop_first();
        let rest_offset = offset - utf8_width(chars[0]);
        lemma_native_round_trip(rest, rest_offset);
        lemma_to_utf16_is_boundary(rest, rest_offset);
    }
}

/// Round trip from a UTF-16 offset: an offset that lands between two
/// characters of the text is recovered from its native offset.
pub proof fn lemma_utf16_round_trip(chars: Seq<char>, offset16: int)
    requires
        is_utf16_boundary(chars, offset16),
    ensures
        to_utf16(chars, from_utf16(chars, offset16)) == offset16,
    decreases chars.len(),
{
    if offset16 != 0 {
        let rest = chars.drop_first();
        let rest_offset = offset16 - utf16_width(chars[0]);
        lemma_utf16_round_trip(rest, rest_offset);
        lemma_from_utf16_is_boundary(rest, rest_offset);
    }
}

} // verus!
