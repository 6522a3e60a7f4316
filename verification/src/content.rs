//! Cutting and splicing text at native offsets.
//!
//! Offsets count UTF-8 bytes. A text can only be cut between two characters,
//! so an offset that falls inside a character is first moved back to the
//! start of that character.

use vstd::prelude::*;
use vstd::string::{StringExecFns, StringSliceAdditionalSpecFns};
use vstd::utf8::*;
use crate::utf16::{is_native_boundary, lemma_utf8_len_is_encoded_len, utf8_len};

verus! {

/// The greatest character boundary of `bytes` that is at most `offset`.
pub open spec fn floor_in(bytes: Seq<u8>, offset: int) -> int
    decreases offset,
{
    if offset <= 0 {
        0
    } else if is_char_boundary(bytes, offset) {
        offset
    } else {
        floor_in(bytes, offset - 1)
    }
}

/// The greatest character boundary of `chars` that is at most `offset`;
/// offsets beyond the end of the text give its length.
pub open spec fn floor_boundary(chars: Seq<char>, offset: int) -> int {
    if offset >= utf8_len(chars) {
        utf8_len(chars)
    } else {
        floor_in(encode_utf8(chars), offset)
    }
}

/// The range that is actually cut when `start..end` is asked for: the end is
/// moved back to the nearest character boundary inside the text, and the
/// start to the nearest boundary that is at most that end.
pub open spec fn cut_range(chars: Seq<char>, start: int, end: int) -> (int, int) {
    let cut_end = floor_boundary(chars, end);
    let cut_start = floor_boundary(
        chars,
        if start <= cut_end {
            start
        } else {
            cut_end
        },
    );
    (cut_start, cut_end)
}

/// The text that results from replacing the bytes `start..end` of `bytes` by
/// `inserted`.
pub open spec fn spliced(bytes: Seq<u8>, start: int, end: int, inserted: Seq<u8>) -> Seq<u8> {
    bytes.subrange(0, start) + inserted + bytes.subrange(end, bytes.len() as int)
}

/// The text that results from replacing the bytes `start..end` of the
/// encoding of `chars` by `inserted`.
pub open spec fn splice_text(chars: Seq<char>, start: int, end: int, inserted: Seq<char>) -> Seq<
    char,
> {
    decode_utf8(spliced(encode_utf8(chars), start, end, encode_utf8(inserted)))
}

/// The text between the bytes `start` and `end` of the encoding of `chars`.
pub open spec fn slice_text(chars: Seq<char>, start: int, end: int) -> Seq<char> {
    decode_utf8(encode_utf8(chars).subrange(start, end))
}

/// Encoding distributes over concatenation.
pub proof fn lemma_encode_concat(a: Seq<char>, b: Seq<char>)
    ensures
        encode_utf8(a + b) == encode_utf8(a) + encode_utf8(b),
    decreases a.len(),
{
    if a.len() == 0 {
        assert(a + b =~= b);
        assert(encode_utf8(a) + encode_utf8(b) =~= encode_utf8(b));
    } else {
        assert((a + b).drop_first() =~= a.drop_first() + b);
        lemma_encode_concat(a.drop_first(), b);
        assert(encode_utf8(a + b) =~= encode_utf8(a) + encode_utf8(b));
    }
}

/// The end of every prefix of a text is a character boundary of the text,
/// and what follows it is the encoding of the rest.
pub proof fn lemma_prefix_is_boundary(chars: Seq<char>, count: int)
    requires
        0 <= count <= chars.len(),
    ensures
        0 <= utf8_len(chars.take(count)) <= utf8_len(chars),
        is_native_boundary(chars, utf8_len(chars.take(count))),
        slice_text(chars, utf8_len(chars.take(count)), utf8_len(chars)) == chars.skip(count),
{
    let head = chars.take(count);
    let tail = chars.skip(count);
    assert(head + tail =~= chars);
    lemma_encode_concat(head, tail);
    lemma_utf8_len_is_encoded_len(head);
    lemma_utf8_len_is_encoded_len(tail);
    lemma_utf8_len_is_encoded_len(chars);
    let bytes = encode_utf8(chars);
    let split = utf8_len(head);
    assert(bytes.subrange(split, bytes.len() as int) =~= encode_utf8(tail));
    assert(bytes.subrange(0, split) =~= encode_utf8(head));
    encode_utf8_decode_utf8(tail);
    encode_utf8_valid_utf8(chars);
    encode_utf8_valid_utf8(head);
    encode_utf8_valid_utf8(tail);
    if split < bytes.len() {
        if !is_char_boundary(bytes, split) {
            is_char_boundary_iff_not_is_continuation_byte(bytes, split);
            let rest = encode_utf8(tail);
            is_char_boundary_start_end_of_seq(rest);
            is_char_boundary_iff_not_is_continuation_byte(rest, 0);
            assert(rest[0] == bytes[split]);
        }
    } else {
        is_char_boundary_start_end_of_seq(bytes);
    }
}

/// `floor_in` returns a character boundary between 0 and `offset`, and an
/// offset that is a boundary already is returned unchanged.
pub proof fn lemma_floor_in(bytes: Seq<u8>, offset: int)
    requires
        valid_utf8(bytes),
        0 <= offset <= bytes.len(),
    ensures
        0 <= floor_in(bytes, offset) <= offset,
        is_char_boundary(bytes, floor_in(bytes, offset)),
        is_char_boundary(bytes, offset) ==> floor_in(bytes, offset) == offset,
    decreases offset,
{
    if offset > 0 && !is_char_boundary(bytes, offset) {
        lemma_floor_in(bytes, offset - 1);
    }
}

/// `floor_boundary` returns a character boundary of the text, at most
/// `offset` and at most the length of the text; a boundary inside the text
/// is returned unchanged.
pub proof fn lemma_floor_boundary(chars: Seq<char>, offset: int)
    requires
        0 <= offset,
    ensures
        0 <= floor_boundary(chars, offset) <= offset,
        floor_boundary(chars, offset) <= utf8_len(chars),
        is_native_boundary(chars, floor_boundary(chars, offset)),
        is_native_boundary(chars, offset) ==> floor_boundary(chars, offset) == offset,
{
    let bytes = encode_utf8(chars);
    encode_utf8_valid_utf8(chars);
    lemma_utf8_len_is_encoded_len(chars);
    is_char_boundary_start_end_of_seq(bytes);
    if offset < utf8_len(chars) {
        lemma_floor_in(bytes, offset);
    }
}

/// Length of `text` in bytes.
pub fn byte_len(text: &str) -> (len: usize)
    ensures
        len == utf8_len(text@),
        len == text.spec_bytes().len(),
{
    proof {
        lemma_utf8_len_is_encoded_len(text@);
    }
    text.as_bytes().len()
}

/// The greatest character boundary of `text` that is at most `offset`.
pub fn floor_char_boundary(text: &str, offset: usize) -> (boundary: usize)
    ensures
        boundary == floor_boundary(text@, offset as int),
        boundary <= offset,
        boundary <= utf8_len(text@),
        is_native_boundary(text@, boundary as int),
{
    let len = byte_len(text);
    proof {
        lemma_floor_boundary(text@, offset as int);
    }
    if offset >= len {
        return len;
    }
    let mut i: usize = offset;
    while i > 0 && !text.is_char_boundary(i)
        invariant
            i <= offset < len,
            len == text.spec_bytes().len(),
            floor_in(text.spec_bytes(), offset as int) == floor_in(text.spec_bytes(), i as int),
        decreases i,
    {
        i -= 1;
    }
    i
}

/// The range of `text` that is cut when `start..end` is asked for.
pub fn clamp_range(text: &str, start: usize, end: usize) -> (cut: (usize, usize))
    ensures
        (cut.0 as int, cut.1 as int) == cut_range(text@, start as int, end as int),
        cut.0 <= cut.1 <= utf8_len(text@),
        is_native_boundary(text@, cut.0 as int),
        is_native_boundary(text@, cut.1 as int),
{
    let cut_end = floor_char_boundary(text, end);
    let cut_start = floor_char_boundary(
        text,
        if start <= cut_end {
            start
        } else {
            cut_end
        },
    );
    (cut_start, cut_end)
}

/// A boundary of a text is a boundary of each prefix that reaches it.
proof fn lemma_boundary_of_prefix(bytes: Seq<u8>, start: int, end: int)
    requires
        valid_utf8(bytes),
        0 <= start <= end <= bytes.len(),
        is_char_boundary(bytes, start),
        is_char_boundary(bytes, end),
    ensures
        valid_utf8(bytes.subrange(0, end)),
        is_char_boundary(bytes.subrange(0, end), start),
{
    valid_utf8_split(bytes, end);
    let prefix = bytes.subrange(0, end);
    if start == end {
        is_char_boundary_start_end_of_seq(prefix);
    } else {
        is_char_boundary_iff_not_is_continuation_byte(bytes, start);
        is_char_boundary_iff_not_is_continuation_byte(prefix, start);
    }
}

/// The part of `text` that lies between the boundaries `start` and `end`.
fn between<'a>(text: &'a str, start: usize, end: usize) -> (part: &'a str)
    requires
        start <= end <= utf8_len(text@),
        is_native_boundary(text@, start as int),
        is_native_boundary(text@, end as int),
    ensures
        part.spec_bytes() == text.spec_bytes().subrange(start as int, end as int),
{
    proof {
        lemma_utf8_len_is_encoded_len(text@);
        encode_utf8_valid_utf8(text@);
        lemma_boundary_of_prefix(text.spec_bytes(), start as int, end as int);
    }
    let (head, _) = text.split_at(end);
    let (_, part) = head.split_at(start);
    assert(part.spec_bytes() =~= text.spec_bytes().subrange(start as int, end as int));
    part
}

/// The part of `text` that the range `start..end` covers, after the range
/// has been brought inside the text and onto character boundaries.
pub fn text_between(text: &str, start: usize, end: usize) -> (part: String)
    ensures
        encode_utf8(part@) == encode_utf8(text@).subrange(
            cut_range(text@, start as int, end as int).0,
            cut_range(text@, start as int, end as int).1,
        ),
        part@ == slice_text(
            text@,
            cut_range(text@, start as int, end as int).0,
            cut_range(text@, start as int, end as int).1,
        ),
{
    let (cut_start, cut_end) = clamp_range(text, start, end);
    let part = between(text, cut_start, cut_end).to_owned();
    proof {
        encode_utf8_decode_utf8(part@);
    }
    part
}

/// Replaces the part of `text` that the range `start..end` covers by
/// `inserted`, after the range has been brought inside the text and onto
/// character boundaries.
pub fn replace_range(text: &str, start: usize, end: usize, inserted: &str) -> (result: String)
    ensures
        encode_utf8(result@) == spliced(
            encode_utf8(text@),
            cut_range(text@, start as int, end as int).0,
            cut_range(text@, start as int, end as int).1,
            encode_utf8(inserted@),
        ),
        result@ == splice_text(
            text@,
            cut_range(text@, start as int, end as int).0,
            cut_range(text@, start as int, end as int).1,
            inserted@,
        ),
        utf8_len(result@) == utf8_len(text@) - (cut_range(text@, start as int, end as int).1
            - cut_range(text@, start as int, end as int).0) + utf8_len(inserted@),
{
    let (cut_start, cut_end) = clamp_range(text, start, end);
    let len = byte_len(text);
    proof {
        encode_utf8_valid_utf8(text@);
        is_char_boundary_start_end_of_seq(text.spec_bytes());
    }
    let head = between(text, 0, cut_start);
    let tail = between(text, cut_end, len);
    let mut result = head.to_owned();
    result.append(inserted);
    result.append(tail);
    proof {
        lemma_encode_concat(head@, inserted@);
        lemma_encode_concat(head@ + inserted@, tail@);
        encode_utf8_decode_utf8(result@);
        lemma_utf8_len_is_encoded_len(result@);
        lemma_utf8_len_is_encoded_len(inserted@);
    }
    result
}

} // verus!
