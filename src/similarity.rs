use similar::{ChangeTag, TextDiff};
use vstd::prelude::*;

use crate::models::Similarity;

verus! {

/// What a character-wise diff says of one character.
#[derive(Debug, Clone, Copy, PartialEq, Eq, Structural)]
pub enum DiffTag {
    Equal,
    Delete,
    Insert,
}

/// The tags, in order, of the character-wise diff of `old` against `new`.
pub uninterp spec fn char_diff(old: Seq<char>, new: Seq<char>) -> Seq<DiffTag>;

/// How many entries of `tags` are `t`.
pub open spec fn count_tag(tags: Seq<DiffTag>, t: DiffTag) -> nat
    decreases tags.len(),
{
    if tags.len() == 0 {
        0
    } else {
        count_tag(tags.drop_last(), t) + if tags.last() == t {
            1nat
        } else {
            0nat
        }
    }
}

/// Relies on `similar::TextDiff::from_chars` and `iter_all_changes`: one
/// change per character, with no deadline, so the result depends on the two
/// texts alone; the unchanged and deleted characters are those of `old`, the
/// unchanged and inserted ones those of `new`; equal texts are unchanged
/// throughout.
#[verifier::external_body]
fn diff_chars(old: &str, new: &str) -> (r: Vec<DiffTag>)
    ensures
        r@ == char_diff(old@, new@),
        count_tag(r@, DiffTag::Equal) + count_tag(r@, DiffTag::Delete) == old@.len(),
        count_tag(r@, DiffTag::Equal) + count_tag(r@, DiffTag::Insert) == new@.len(),
        old@ == new@ ==> count_tag(r@, DiffTag::Equal) == old@.len(),
{
    let diff = TextDiff::from_chars(old, new);
    diff.iter_all_changes().map(|c| match c.tag() {
        ChangeTag::Equal => DiffTag::Equal,
        ChangeTag::Delete => DiffTag::Delete,
        ChangeTag::Insert => DiffTag::Insert,
    }).collect()
}

/// The number of characters left unchanged by the diff of `a` against `b`.
pub open spec fn matched_chars(a: Seq<char>, b: Seq<char>) -> nat {
    count_tag(char_diff(a, b), DiffTag::Equal)
}

/// The similarity of `a` and `b` as a ratio.
pub open spec fn path_similarity(a: Seq<char>, b: Seq<char>) -> Similarity {
    Similarity { matched: matched_chars(a, b) as usize, total: longer_len(a, b) as usize }
}

/// The length of the longer of the two paths.
pub open spec fn longer_len(a: Seq<char>, b: Seq<char>) -> nat {
    if a.len() >= b.len() {
        a.len()
    } else {
        b.len()
    }
}

proof fn lemma_count_tag_prefix(tags: Seq<DiffTag>, i: int, t: DiffTag)
    requires
        0 <= i < tags.len(),
    ensures
        count_tag(tags.take(i + 1), t) == count_tag(tags.take(i), t) + if tags[i] == t {
            1nat
        } else {
            0nat
        },
{
    assert(tags.take(i + 1).drop_last() =~= tags.take(i));
}

fn count_equal(tags: &Vec<DiffTag>) -> (n: usize)
    ensures
        n == count_tag(tags@, DiffTag::Equal),
{
    let mut n: usize = 0;
    let mut i: usize = 0;
    while i < tags.len()
        invariant
            i <= tags@.len(),
            n == count_tag(tags@.take(i as int), DiffTag::Equal),
            n <= i,
        decreases tags@.len() - i,
    {
        proof {
            lemma_count_tag_prefix(tags@, i as int, DiffTag::Equal);
        }
        if tags[i] == DiffTag::Equal {
            n = n + 1;
        }
        i = i + 1;
    }
    assert(tags@.take(tags@.len() as int) =~= tags@);
    n
}

/// The similarity of two paths: the characters that a character-wise diff
/// leaves unchanged, over the length of the longer path.
pub fn calculate_path_similarity(path1: &str, path2: &str) -> (r: Similarity)
    ensures
        r == path_similarity(path1@, path2@),
        r.matched == matched_chars(path1@, path2@),
        r.total == longer_len(path1@, path2@),
        r.matched <= r.total,
        path1@ == path2@ && path1@.len() > 0 ==> r.is_full(),
        path1@.len() == 0 && path2@.len() == 0 ==> r.total == 0 && r.matched == 0,
        path1@.len() == 0 || path2@.len() == 0 ==> r.matched == 0,
{
    let len1 = path1.unicode_len();
    let len2 = path2.unicode_len();
    let tags = diff_chars(path1, path2);
    let matched = count_equal(&tags);
    let total = if len1 >= len2 {
        len1
    } else {
        len2
    };
    Similarity { matched, total }
}

} // verus!
