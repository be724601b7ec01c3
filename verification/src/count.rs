//! Counting the words and the characters of a text.

use crate::text::{is_whitespace, whitespace};
use vstd::prelude::*;

verus! {

/// Whether a word begins at position `i` of `s`: a character that is not
/// white space, at the start of `s` or behind white space.
pub open spec fn starts_word(s: Seq<char>, i: int) -> bool {
    &&& 0 <= i < s.len()
    &&& !whitespace(s[i])
    &&& (i == 0 || whitespace(s[i - 1]))
}

/// The positions below `end` at which a word of `s` begins.
pub open spec fn word_starts(s: Seq<char>, end: int) -> Set<int> {
    Set::new(|i: int| i < end && starts_word(s, i))
}

/// The number of words in `s`: of its longest runs of characters that are
/// not white space.
pub open spec fn word_count(s: Seq<char>) -> nat {
    word_starts(s, s.len() as int).len()
}

/// Going one position further adds that position if a word begins there,
/// and nothing else.
proof fn lemma_word_starts_step(s: Seq<char>, end: int)
    requires
        0 <= end < s.len(),
        word_starts(s, end).finite(),
    ensures
        word_starts(s, end + 1).finite(),
        word_starts(s, end + 1).len() == word_starts(s, end).len() + if starts_word(s, end) {
            1nat
        } else {
            0nat
        },
{
    if starts_word(s, end) {
        assert(word_starts(s, end + 1) =~= word_starts(s, end).insert(end));
    } else {
        assert(word_starts(s, end + 1) =~= word_starts(s, end));
    }
}

/// Below `end` no more words begin than there are positions.
proof fn lemma_word_starts_bound(s: Seq<char>, end: int)
    requires
        0 <= end <= s.len(),
    ensures
        word_starts(s, end).finite(),
        word_starts(s, end).len() <= end,
    decreases end,
{
    if end == 0 {
        assert(word_starts(s, 0) =~= Set::<int>::empty());
    } else {
        lemma_word_starts_bound(s, end - 1);
        lemma_word_starts_step(s, end - 1);
    }
}

/// A text has no more words than characters.
pub proof fn lemma_word_count_bound(s: Seq<char>)
    ensures
        word_count(s) <= s.len(),
{
    lemma_word_starts_bound(s, s.len() as int);
}

/// The number of words in `text`, reduced to 32 bits: the number itself
/// where the text has fewer than 2^32 characters.
pub fn count_words(text: &str) -> (count: u32)
    ensures
        count == word_count(text@) % 0x1_0000_0000,
        text@.len() < 0x1_0000_0000 ==> count == word_count(text@),
{
    proof {
        lemma_word_count_bound(text@);
    }
    let mut count: u32 = 0;
    let mut in_word = false;
    let source = text.chars();
    assert(word_starts(text@, 0) =~= Set::<int>::empty());
    for c in it: source
        invariant
            it.seq() == text@,
            word_starts(text@, it.index() as int).finite(),
            count == word_starts(text@, it.index() as int).len() % 0x1_0000_0000,
            in_word == (it.index() > 0 && !whitespace(text@[it.index() - 1])),
    {
        proof {
            lemma_word_starts_step(text@, it.index() as int);
        }
        let space = is_whitespace(c);
        if !space && !in_word {
            count = count.wrapping_add(1);
        }
        in_word = !space;
    }
    count
}

/// The number of characters in `text`, reduced to 32 bits: the number
/// itself where it is below 2^32.
pub fn count_characters(text: &str) -> (count: u32)
    ensures
        count == text@.len() % 0x1_0000_0000,
        text@.len() < 0x1_0000_0000 ==> count == text@.len(),
{
    let length: u64 = text.unicode_len() as u64;
    (length % 0x1_0000_0000) as u32
}

} // verus!
