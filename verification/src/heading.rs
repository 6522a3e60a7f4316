//! Markdown headings: the level that the leading `#` signs give, and the
//! title that follows them.

use vstd::prelude::*;
use vstd::std_specs::iter::IteratorSpec;
use crate::content::{
    byte_len, cut_range, lemma_floor_boundary, lemma_prefix_is_boundary, text_between,
};
use crate::utf16::{char_len_utf8, lemma_utf8_len_is_encoded_len, lemma_utf8_len_push, utf8_len};

verus! {

/// One of the six levels of a heading.
#[derive(Clone, Copy, Debug, PartialEq, Eq, Structural)]
pub enum HeadingLevel {
    One,
    Two,
    Three,
    Four,
    Five,
    Six,
}

/// The number of `#` signs that `chars` begins with.
pub open spec fn leading_hashes(chars: Seq<char>) -> nat
    decreases chars.len(),
{
    if chars.len() > 0 && chars[0] == '#' {
        1 + leading_hashes(chars.drop_first())
    } else {
        0
    }
}

/// The level for a number of `#` signs: none counts as one, and more than
/// six as six.
pub open spec fn level_for(hashes: nat) -> HeadingLevel {
    if hashes <= 1 {
        HeadingLevel::One
    } else if hashes == 2 {
        HeadingLevel::Two
    } else if hashes == 3 {
        HeadingLevel::Three
    } else if hashes == 4 {
        HeadingLevel::Four
    } else if hashes == 5 {
        HeadingLevel::Five
    } else {
        HeadingLevel::Six
    }
}

/// Whether `c` is white space: one of the 25 characters that have the
/// Unicode property `White_Space`.
pub open spec fn is_white_space(c: char) -> bool {
    let v = c as u32;
    ||| 0x09 <= v <= 0x0d
    ||| v == 0x20
    ||| v == 0x85
    ||| v == 0xa0
    ||| v == 0x1680
    ||| 0x2000 <= v <= 0x200a
    ||| v == 0x2028
    ||| v == 0x2029
    ||| v == 0x202f
    ||| v == 0x205f
    ||| v == 0x3000
}

/// Whether `c` is white space.
pub fn char_is_whitespace(c: char) -> (white: bool)
    ensures
        white == is_white_space(c),
{
    let v: u32 = c as u32;
    (0x09 <= v && v <= 0x0d) || v == 0x20 || v == 0x85 || v == 0xa0 || v == 0x1680 || (0x2000 <= v
        && v <= 0x200a) || v == 0x2028 || v == 0x2029 || v == 0x202f || v == 0x205f || v
        == 0x3000
}

/// The number of characters of the prefix of `chars` that a title leaves
/// out: the leading `#` signs, if `hashes` is set, and the white space that
/// follows them.
pub open spec fn title_start(chars: Seq<char>, hashes: bool) -> nat
    decreases chars.len(),
{
    if chars.len() == 0 {
        0
    } else if hashes && chars[0] == '#' {
        1 + title_start(chars.drop_first(), true)
    } else if is_white_space(chars[0]) {
        1 + title_start(chars.drop_first(), false)
    } else {
        0
    }
}

/// The title of a heading: its text without the leading `#` signs and the
/// white space that follows them.
pub open spec fn title_of(chars: Seq<char>) -> Seq<char> {
    chars.skip(title_start(chars, true) as int)
}

/// The prefix that a title leaves out is part of the text.
pub proof fn lemma_title_start_bound(chars: Seq<char>, hashes: bool)
    ensures
        title_start(chars, hashes) <= chars.len(),
    decreases chars.len(),
{
    if chars.len() > 0 {
        lemma_title_start_bound(chars.drop_first(), true);
        lemma_title_start_bound(chars.drop_first(), false);
    }
}

impl HeadingLevel {
    /// The level of a heading that begins with the text `text`: the number
    /// of its leading `#` signs, at least one and at most six.
    pub fn from_u8(text: &str) -> (level: HeadingLevel)
        ensures
            level == level_for(leading_hashes(text@)),
    {
        let mut chars = text.chars();
        let mut count: u8 = 0;
        loop
            invariant_except_break
                chars.obeys_prophetic_iter_laws(),
                count <= 6,
                level_for(leading_hashes(text@)) == level_for(
                    count as nat + leading_hashes(chars.remaining()),
                ),
            ensures
                level_for(leading_hashes(text@)) == level_for(count as nat),
            decreases 6 - count,
        {
            if count >= 6 {
                break ;
            }
            let ghost before = chars.remaining();
            match chars.next() {
                Some(c) => {
                    assert(before.len() > 0 && c == before[0]);
                    assert(chars.remaining() == before.drop_first());
                    if c == '#' {
                        count += 1;
                    } else {
                        break ;
                    }
                },
                None => {
                    assert(before.len() == 0);
                    break ;
                },
            }
        }
        if count <= 1 {
            HeadingLevel::One
        } else if count == 2 {
            HeadingLevel::Two
        } else if count == 3 {
            HeadingLevel::Three
        } else if count == 4 {
            HeadingLevel::Four
        } else if count == 5 {
            HeadingLevel::Five
        } else {
            HeadingLevel::Six
        }
    }

    /// The level as a number from 1 to 6.
    pub fn number(&self) -> (n: u8)
        ensures
            1 <= n <= 6,
            level_for(n as nat) == *self,
    {
        match self {
            HeadingLevel::One => 1,
            HeadingLevel::Two => 2,
            HeadingLevel::Three => 3,
            HeadingLevel::Four => 4,
            HeadingLevel::Five => 5,
            HeadingLevel::Six => 6,
        }
    }
}

/// A heading: a line of markdown and the level that its `#` signs give.
#[derive(Debug)]
pub struct Heading {
    level: HeadingLevel,
    text: String,
}

impl Heading {
    /// The level of the heading.
    pub closed spec fn spec_level(&self) -> HeadingLevel {
        self.level
    }

    /// The line that the heading was made of.
    pub closed spec fn spec_text(&self) -> Seq<char> {
        self.text@
    }

    /// The heading for the line `text`.
    pub fn new(text: String) -> (heading: Heading)
        ensures
            heading.spec_text() == text@,
            heading.spec_level() == level_for(leading_hashes(text@)),
    {
        Heading { level: HeadingLevel::from_u8(text.as_str()), text }
    }

    /// The level of the heading.
    pub fn level(&self) -> (level: HeadingLevel)
        ensures
            level == self.spec_level(),
    {
        self.level
    }

    /// The line that the heading was made of.
    pub fn text(&self) -> (text: &str)
        ensures
            text@ == self.spec_text(),
    {
        self.text.as_str()
    }

    /// The title to show: the line without its leading `#` signs and the
    /// white space that follows them.
    pub fn title(&self) -> (title: String)
        ensures
            title@ == title_of(self.spec_text()),
    {
        let text = self.text.as_str();
        let len = byte_len(text);
        let mut chars = text.chars();
        let mut offset: usize = 0;
        let mut hashes = true;
        let ghost mut skipped: nat = 0;
        proof {
            assert(text@.skip(0) =~= text@);
            assert(text@.take(0) =~= Seq::<char>::empty());
            lemma_title_start_bound(text@, true);
        }
        loop
            invariant_except_break
                chars.obeys_prophetic_iter_laws(),
                len == utf8_len(text@),
                skipped <= text@.len(),
                chars.remaining() == text@.skip(skipped as int),
                offset == utf8_len(text@.take(skipped as int)),
                offset <= len,
                title_start(text@, true) == skipped + title_start(chars.remaining(), hashes),
            ensures
                skipped == title_start(text@, true),
                skipped <= text@.len(),
                offset == utf8_len(text@.take(skipped as int)),
            decreases text@.len() - skipped,
        {
            let ghost before = chars.remaining();
            match chars.next() {
                Some(c) => {
                    assert(before.len() > 0 && c == before[0]);
                    assert(chars.remaining() == before.drop_first());
                    if hashes && c == '#' {
                    } else if char_is_whitespace(c) {
                        hashes = false;
                    } else {
                        break ;
                    }
                    proof {
                        let next = (skipped + 1) as int;
                        assert(text@.skip(skipped as int).drop_first() =~= text@.skip(next));
                        assert(text@.take(next) =~= text@.take(skipped as int).push(c));
                        lemma_utf8_len_push(text@.take(skipped as int), c);
                        lemma_prefix_is_boundary(text@, next);
                        skipped = skipped + 1;
                    }
                    offset += char_len_utf8(c);
                },
                None => {
                    assert(before.len() == 0);
                    break ;
                },
            }
        }
        proof {
            lemma_prefix_is_boundary(text@, skipped as int);
            lemma_floor_boundary(text@, offset as int);
            lemma_floor_boundary(text@, len as int);
            lemma_utf8_len_is_encoded_len(text@);
            vstd::utf8::encode_utf8_valid_utf8(text@);
            vstd::utf8::is_char_boundary_start_end_of_seq(vstd::utf8::encode_utf8(text@));
            assert(cut_range(text@, offset as int, len as int) == (offset as int, len as int));
        }
        text_between(text, offset, len)
    }
}

} // verus!
