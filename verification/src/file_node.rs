//! Entries of a directory tree, and the order in which a file browser lists
//! them: directories first, then by name without regard to case.

use vstd::prelude::*;
use vstd::std_specs::iter::IteratorSpec;
use vstd::seq_lib::to_multiset_insert;
use crate::utf16::{
    char_len_utf8, lemma_utf8_len_is_encoded_len, lemma_utf8_len_nonnegative, utf8_len,
};

verus! {

/// A file or a directory. A directory carries the entries found in it; a
/// file carries none.
#[derive(Debug)]
pub struct FileNode {
    pub name: String,
    pub path: String,
    pub is_directory: bool,
    pub children: Option<Vec<FileNode>>,
}

/// Whether `a` and `b` hold the same name, path and kind, and the same
/// entries below them, one for one.
pub open spec fn same_entry(a: FileNode, b: FileNode) -> bool
    decreases a,
{
    &&& a.name@ == b.name@
    &&& a.path@ == b.path@
    &&& a.is_directory == b.is_directory
    &&& match (a.children, b.children) {
        (Some(left), Some(right)) => {
            &&& left@.len() == right@.len()
            &&& forall|i: int|
                0 <= i < left@.len() ==> same_entry(#[trigger] left@[i], right@[i])
        },
        (None, None) => true,
        _ => false,
    }
}

impl Clone for FileNode {
    /// A copy of the entry with copies of all entries below it.
    fn clone(&self) -> (copy: FileNode)
        ensures
            same_entry(*self, copy),
        decreases self,
    {
        let children = match &self.children {
            Some(entries) => {
                let mut copies: Vec<FileNode> = Vec::new();
                let mut i: usize = 0;
                while i < entries.len()
                    invariant
                        i <= entries@.len(),
                        self.children == Some(*entries),
                        copies@.len() == i,
                        forall|k: int|
                            0 <= k < i ==> same_entry(#[trigger] entries@[k], copies@[k]),
                    decreases entries@.len() - i,
                {
                    proof {
                        vstd::std_specs::vec::axiom_vec_index_decreases(*entries, i as int);
                        assert(decreases_to!(self => self.children));
                        assert(decreases_to!(self.children => self.children->0));
                        assert(decreases_to!(*entries => entries[i as int]));
                    }
                    copies.push(entries[i].clone());
                    i += 1;
                }
                Some(copies)
            },
            None => None,
        };
        FileNode {
            name: self.name.clone(),
            path: self.path.clone(),
            is_directory: self.is_directory,
            children,
        }
    }
}

/// The lower-case form of `text`.
pub uninterp spec fn lowercase(text: Seq<char>) -> Seq<char>;

/// Calls `str::to_lowercase` of the standard library. Trusted: the result
/// is a function of the text alone.
#[verifier::external_body]
fn to_lowercase(text: &str) -> (lower: String)
    ensures
        lower@ == lowercase(text@),
{
    text.to_lowercase()
}

/// Whether `a` comes before `b`, or equals it, in the lexicographic order
/// of their characters.
pub open spec fn text_le(a: Seq<char>, b: Seq<char>) -> bool
    decreases a.len(),
{
    if a.len() == 0 {
        true
    } else if b.len() == 0 {
        false
    } else if a[0] != b[0] {
        (a[0] as u32) < (b[0] as u32)
    } else {
        text_le(a.drop_first(), b.drop_first())
    }
}

/// Whether an entry with the sort key `a_key` may be listed before one with
/// the sort key `b_key`: a directory before a file, and two of a kind by
/// their keys.
pub open spec fn key_le(
    a_directory: bool,
    a_key: Seq<char>,
    b_directory: bool,
    b_key: Seq<char>,
) -> bool {
    if a_directory != b_directory {
        a_directory
    } else {
        text_le(a_key, b_key)
    }
}

/// Whether the entry `a` may be listed before the entry `b`: a directory
/// before a file, and two of a kind by their names in lower case.
pub open spec fn entry_le(a: FileNode, b: FileNode) -> bool {
    key_le(a.is_directory, lowercase(a.name@), b.is_directory, lowercase(b.name@))
}

/// Whether every entry of `entries` may be listed before all that follow
/// it.
pub open spec fn is_listed_in_order(entries: Seq<FileNode>) -> bool {
    forall|i: int, j: int| 0 <= i < j < entries.len() ==> entry_le(entries[i], entries[j])
}

/// `entries` with `entry` put in before the first entry that it may be
/// listed before.
pub open spec fn inserted(entry: FileNode, entries: Seq<FileNode>) -> Seq<FileNode>
    decreases entries.len(),
{
    if entries.len() == 0 {
        seq![entry]
    } else if entry_le(entry, entries[0]) {
        seq![entry] + entries
    } else {
        seq![entries[0]] + inserted(entry, entries.drop_first())
    }
}

/// `entries` in listing order, entries that may stand either way round
/// left in the order in which they came.
pub open spec fn listed(entries: Seq<FileNode>) -> Seq<FileNode>
    decreases entries.len(),
{
    if entries.len() == 0 {
        Seq::<FileNode>::empty()
    } else {
        inserted(entries[0], listed(entries.drop_first()))
    }
}

/// The index at which `inserted` puts an entry in.
pub open spec fn insertion_index(entry: FileNode, entries: Seq<FileNode>) -> int
    decreases entries.len(),
{
    if entries.len() == 0 || entry_le(entry, entries[0]) {
        0
    } else {
        1 + insertion_index(entry, entries.drop_first())
    }
}

/// Of two texts, one comes before the other or equals it.
pub proof fn lemma_text_le_total(a: Seq<char>, b: Seq<char>)
    ensures
        text_le(a, b) || text_le(b, a),
    decreases a.len(),
{
    if a.len() > 0 && b.len() > 0 {
        if a[0] == b[0] {
            lemma_text_le_total(a.drop_first(), b.drop_first());
        } else {
            vstd::utf8::char_u32_cast(a[0], a[0] as u32);
            vstd::utf8::char_u32_cast(b[0], b[0] as u32);
        }
    }
}

/// The order of texts is transitive.
pub proof fn lemma_text_le_transitive(a: Seq<char>, b: Seq<char>, c: Seq<char>)
    requires
        text_le(a, b),
        text_le(b, c),
    ensures
        text_le(a, c),
    decreases a.len(),
{
    if a.len() > 0 && b.len() > 0 && c.len() > 0 && a[0] == b[0] && b[0] == c[0] {
        lemma_text_le_transitive(a.drop_first(), b.drop_first(), c.drop_first());
    }
}

/// Of two entries, one may be listed before the other.
pub proof fn lemma_entry_le_total(a: FileNode, b: FileNode)
    ensures
        entry_le(a, b) || entry_le(b, a),
{
    lemma_text_le_total(lowercase(a.name@), lowercase(b.name@));
}

/// The listing order is transitive.
pub proof fn lemma_entry_le_transitive(a: FileNode, b: FileNode, c: FileNode)
    requires
        entry_le(a, b),
        entry_le(b, c),
    ensures
        entry_le(a, c),
{
    if a.is_directory == b.is_directory && b.is_directory == c.is_directory {
        lemma_text_le_transitive(lowercase(a.name@), lowercase(b.name@), lowercase(c.name@));
    }
}

/// `inserted` puts the entry in at `insertion_index`: every entry before
/// that index must be listed before the new one, and the one at the index
/// may be listed after it.
pub proof fn lemma_inserted_at_index(entry: FileNode, entries: Seq<FileNode>)
    ensures
        0 <= insertion_index(entry, entries) <= entries.len(),
        inserted(entry, entries) == entries.insert(insertion_index(entry, entries), entry),
        forall|k: int|
            0 <= k < insertion_index(entry, entries) ==> !entry_le(entry, #[trigger] entries[k]),
        insertion_index(entry, entries) < entries.len() ==> entry_le(
            entry,
            entries[insertion_index(entry, entries)],
        ),
    decreases entries.len(),
{
    if entries.len() == 0 {
        assert(seq![entry] =~= entries.insert(0, entry));
    } else if entry_le(entry, entries[0]) {
        assert(seq![entry] + entries =~= entries.insert(0, entry));
    } else {
        let rest = entries.drop_first();
        lemma_inserted_at_index(entry, rest);
        let index = insertion_index(entry, rest);
        assert(seq![entries[0]] + rest.insert(index, entry) =~= entries.insert(index + 1, entry));
        assert forall|k: int| 0 <= k < index + 1 implies !entry_le(
            entry,
            #[trigger] entries[k],
        ) by {
            if k > 0 {
                assert(entries[k] == rest[k - 1]);
            }
        }
        if index < rest.len() {
            assert(entries[index + 1] == rest[index]);
        }
    }
}

/// Putting an entry into a list that is in order leaves it in order, and
/// adds that entry and no other.
pub proof fn lemma_inserted_in_order(entry: FileNode, entries: Seq<FileNode>)
    requires
        is_listed_in_order(entries),
    ensures
        is_listed_in_order(inserted(entry, entries)),
        inserted(entry, entries).to_multiset() == entries.to_multiset().insert(entry),
{
    lemma_inserted_at_index(entry, entries);
    let index = insertion_index(entry, entries);
    let result = inserted(entry, entries);
    to_multiset_insert(entries, index, entry);
    assert forall|i: int, j: int| 0 <= i < j < result.len() implies entry_le(
        result[i],
        result[j],
    ) by {
        if j == index {
            assert(result[i] == entries[i]);
            lemma_entry_le_total(entry, entries[i]);
        } else if i == index {
            assert(result[j] == entries[j - 1]);
            if j - 1 > index {
                lemma_entry_le_transitive(entry, entries[index], entries[j - 1]);
            }
        } else {
            let a = if i < index {
                i
            } else {
                i - 1
            };
            let b = if j < index {
                j
            } else {
                j - 1
            };
            assert(result[i] == entries[a] && result[j] == entries[b]);
        }
    }
}

/// The listing of any entries is in order and holds the same entries, each
/// as often as before.
pub proof fn lemma_listed_is_ordered_permutation(entries: Seq<FileNode>)
    ensures
        is_listed_in_order(listed(entries)),
        listed(entries).to_multiset() == entries.to_multiset(),
        listed(entries).len() == entries.len(),
    decreases entries.len(),
{
    broadcast use vstd::seq_lib::group_to_multiset_ensures;

    if entries.len() == 0 {
        assert(listed(entries) =~= entries);
    } else {
        let rest = entries.drop_first();
        lemma_listed_is_ordered_permutation(rest);
        lemma_inserted_in_order(entries[0], listed(rest));
        lemma_inserted_at_index(entries[0], listed(rest));
        assert(entries =~= rest.insert(0, entries[0]));
        to_multiset_insert(rest, 0, entries[0]);
    }
}

/// Whether `a` comes before `b`, or equals it, in the lexicographic order
/// of their characters.
pub fn text_precedes(a: &str, b: &str) -> (le: bool)
    ensures
        le == text_le(a@, b@),
{
    let len = a.as_bytes().len();
    proof {
        lemma_utf8_len_is_encoded_len(a@);
    }
    let mut left = a.chars();
    let mut right = b.chars();
    let mut count: usize = 0;
    let mut le = true;
    loop
        invariant_except_break
            left.obeys_prophetic_iter_laws(),
            right.obeys_prophetic_iter_laws(),
            count + utf8_len(left.remaining()) == len,
            text_le(a@, b@) == text_le(left.remaining(), right.remaining()),
        ensures
            le == text_le(a@, b@),
        decreases len - count,
    {
        let ghost left_before = left.remaining();
        let ghost right_before = right.remaining();
        match left.next() {
            None => {
                assert(left_before.len() == 0);
                le = true;
                break ;
            },
            Some(x) => {
                assert(left_before.len() > 0 && x == left_before[0]);
                assert(left.remaining() == left_before.drop_first());
                match right.next() {
                    None => {
                        assert(right_before.len() == 0);
                        le = false;
                        break ;
                    },
                    Some(y) => {
                        assert(right_before.len() > 0 && y == right_before[0]);
                        assert(right.remaining() == right_before.drop_first());
                        if x != y {
                            le = (x as u32) < (y as u32);
                            break ;
                        }
                        proof {
                            lemma_utf8_len_nonnegative(left.remaining());
                        }
                        count += char_len_utf8(x);
                    },
                }
            },
        }
    }
    le
}

/// Whether an entry with the sort key `a_key` may be listed before one with
/// the sort key `b_key`: a directory before a file, and two of a kind by
/// their keys.
pub fn listed_before(a_directory: bool, a_key: &str, b_directory: bool, b_key: &str) -> (le: bool)
    ensures
        le == key_le(a_directory, a_key@, b_directory, b_key@),
{
    if a_directory != b_directory {
        a_directory
    } else {
        text_precedes(a_key, b_key)
    }
}

impl FileNode {
    /// An entry for a file: it has no children.
    pub fn file(name: String, path: String) -> (node: FileNode)
        ensures
            node.name == name,
            node.path == path,
            !node.is_directory,
            node.children is None,
    {
        FileNode { name, path, is_directory: false, children: None }
    }

    /// An entry for a directory with the entries found in it.
    pub fn directory(name: String, path: String, children: Vec<FileNode>) -> (node: FileNode)
        ensures
            node.name == name,
            node.path == path,
            node.is_directory,
            node.children == Some(children),
    {
        FileNode { name, path, is_directory: true, children: Some(children) }
    }

    /// Whether this entry may be listed before `other`.
    pub fn precedes(&self, other: &FileNode) -> (le: bool)
        ensures
            le == entry_le(*self, *other),
    {
        let left = to_lowercase(self.name.as_str());
        let right = to_lowercase(other.name.as_str());
        listed_before(self.is_directory, left.as_str(), other.is_directory, right.as_str())
    }
}

/// Puts the entries of a directory in listing order: directories before
/// files, and the entries of each kind by their names in lower case;
/// entries that may stand either way round stay in the order in which they
/// came.
pub fn sort_entries(entries: Vec<FileNode>) -> (sorted: Vec<FileNode>)
    ensures
        sorted@ == listed(entries@),
        is_listed_in_order(sorted@),
        sorted@.to_multiset() == entries@.to_multiset(),
{
    let ghost all = entries@;
    let mut rest = entries;
    let mut sorted: Vec<FileNode> = Vec::new();
    proof {
        assert(all.skip(all.len() as int) =~= Seq::<FileNode>::empty());
        lemma_listed_is_ordered_permutation(all);
    }
    while rest.len() > 0
        invariant
            rest@ == all.take(rest@.len() as int),
            rest@.len() <= all.len(),
            sorted@ == listed(all.skip(rest@.len() as int)),
        decreases rest@.len(),
    {
        let ghost before = rest@.len() as int;
        let entry = rest.pop().unwrap();
        proof {
            assert(entry == all[before - 1]);
            assert(rest@ =~= all.take(before - 1));
            assert(all.skip(before - 1).drop_first() =~= all.skip(before));
            lemma_inserted_at_index(entry, sorted@);
            lemma_listed_is_ordered_permutation(all.skip(before));
        }
        let mut index: usize = 0;
        assert(sorted@.skip(0) =~= sorted@);
        while index < sorted.len() && !entry.precedes(&sorted[index])
            invariant
                index <= sorted@.len(),
                insertion_index(entry, sorted@) == index + insertion_index(
                    entry,
                    sorted@.skip(index as int),
                ),
            decreases sorted@.len() - index,
        {
            assert(sorted@.skip(index as int).drop_first() =~= sorted@.skip(index + 1));
            index += 1;
        }
        sorted.insert(index, entry);
    }
    proof {
        assert(all.skip(0) =~= all);
    }
    sorted
}

} // verus!
