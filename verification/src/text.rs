//! A block of markdown kept line by line.

use vstd::prelude::*;
use vstd::string::StringExecFns;

verus! {

/// The lines of `lines` with a newline between each two of them.
pub open spec fn joined(lines: Seq<Seq<char>>) -> Seq<char>
    decreases lines.len(),
{
    if lines.len() == 0 {
        Seq::<char>::empty()
    } else if lines.len() == 1 {
        lines[0]
    } else {
        joined(lines.drop_last()) + seq!['\n'] + lines.last()
    }
}

/// Lines of markdown.
#[derive(Debug)]
pub struct Text {
    text: Vec<String>,
}

impl Text {
    /// The lines, each as a sequence of characters.
    pub closed spec fn lines(&self) -> Seq<Seq<char>> {
        self.text@.map_values(|line: String| line@)
    }

    /// A block made of the lines `text`.
    pub fn new(text: Vec<String>) -> (block: Text)
        ensures
            block.lines() == text@.map_values(|line: String| line@),
            block.lines().len() == text@.len(),
            forall|i: int| 0 <= i < text@.len() ==> block.lines()[i] == (#[trigger] text@[i])@,
    {
        let block = Text { text };
        assert(block.lines() =~= text@.map_values(|line: String| line@));
        block
    }

    /// The number of lines.
    pub fn line_count(&self) -> (count: usize)
        ensures
            count == self.lines().len(),
    {
        self.text.len()
    }

    /// The whole block as one text, a newline between each two lines.
    pub fn source(&self) -> (source: String)
        ensures
            source@ == joined(self.lines()),
    {
        let mut source = String::new();
        let mut i: usize = 0;
        while i < self.text.len()
            invariant
                i <= self.text@.len(),
                source@ == joined(self.lines().take(i as int)),
            decreases self.text@.len() - i,
        {
            proof {
                let done = self.lines().take(i as int);
                let next = self.lines().take(i + 1);
                assert(next.drop_last() =~= done);
                assert(next.last() == self.text@[i as int]@);
                reveal_strlit("\n");
                assert("\n"@ =~= seq!['\n']);
                if i == 0 {
                    assert(source@ + self.text@[0]@ =~= self.text@[0]@);
                }
            }
            if i > 0 {
                source.append("\n");
            }
            source.append(self.text[i].as_str());
            i += 1;
        }
        assert(self.lines().take(i as int) =~= self.lines());
        source
    }
}

} // verus!
