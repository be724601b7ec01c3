//! Text as a sequence of characters: decoding, white space, trimming and
//! splitting into lines.

use vstd::prelude::*;
use vstd::slice::slice_subrange;

verus! {

/// `String::push`: appends one character at the end of the string.
pub assume_specification[ String::push ](s: &mut String, ch: char)
    ensures
        final(s)@ == old(s)@.push(ch),
;

/// The characters of `text`, in order.
pub fn chars_of(text: &str) -> (chars: Vec<char>)
    ensures
        chars@ == text@,
{
    let mut chars: Vec<char> = Vec::new();
    let source = text.chars();
    for c in it: source
        invariant
            it.seq() == text@,
            chars@ == it.seq().take(it.index() as int),
    {
        chars.push(c);
    }
    chars
}

/// Appends the characters of `chars` to `out`.
pub fn push_chars(out: &mut String, chars: &[char])
    ensures
        final(out)@ == old(out)@ + chars@,
{
    let mut i: usize = 0;
    while i < chars.len()
        invariant
            i <= chars.len(),
            out@ == old(out)@ + chars@.take(i as int),
        decreases chars.len() - i,
    {
        out.push(chars[i]);
        i += 1;
    }
}

/// Whether `c` is one of the code points with the Unicode property
/// `White_Space`.
pub open spec fn whitespace(c: char) -> bool {
    let code = c as u32;
    ||| 0x09 <= code <= 0x0D
    ||| code == 0x20
    ||| code == 0x85
    ||| code == 0xA0
    ||| code == 0x1680
    ||| 0x2000 <= code <= 0x200A
    ||| code == 0x2028
    ||| code == 0x2029
    ||| code == 0x202F
    ||| code == 0x205F
    ||| code == 0x3000
}

/// Tells whether `c` is white space.
pub fn is_whitespace(c: char) -> (answer: bool)
    ensures
        answer == whitespace(c),
{
    let code: u32 = c as u32;
    (0x09 <= code && code <= 0x0D)
        || code == 0x20
        || code == 0x85
        || code == 0xA0
        || code == 0x1680
        || (0x2000 <= code && code <= 0x200A)
        || code == 0x2028
        || code == 0x2029
        || code == 0x202F
        || code == 0x205F
        || code == 0x3000
}

/// `s` without the white space it begins with.
pub open spec fn trimmed_start(s: Seq<char>) -> Seq<char>
    decreases s.len(),
{
    if s.len() > 0 && whitespace(s.first()) {
        trimmed_start(s.drop_first())
    } else {
        s
    }
}

/// `s` without the white space it ends with.
pub open spec fn trimmed_end(s: Seq<char>) -> Seq<char>
    decreases s.len(),
{
    if s.len() > 0 && whitespace(s.last()) {
        trimmed_end(s.drop_last())
    } else {
        s
    }
}

/// `s` without the white space at either end.
pub open spec fn trimmed(s: Seq<char>) -> Seq<char> {
    trimmed_end(trimmed_start(s))
}

/// What `trimmed_start` takes away is white space, and what it leaves does
/// not begin with white space.
pub proof fn lemma_trimmed_start(s: Seq<char>)
    ensures
        trimmed_start(s).len() <= s.len(),
        trimmed_start(s) == s.skip(s.len() - trimmed_start(s).len()),
        forall|i: int| 0 <= i < s.len() - trimmed_start(s).len() ==> whitespace(#[trigger] s[i]),
        trimmed_start(s).len() > 0 ==> !whitespace(trimmed_start(s).first()),
    decreases s.len(),
{
    if s.len() > 0 && whitespace(s.first()) {
        let rest = s.drop_first();
        lemma_trimmed_start(rest);
        let cut = rest.len() - trimmed_start(rest).len();
        assert(rest.skip(cut) =~= s.skip(cut + 1));
        assert forall|i: int| 0 <= i < cut + 1 implies whitespace(#[trigger] s[i]) by {
            if i > 0 {
                assert(s[i] == rest[i - 1]);
            }
        }
    } else {
        assert(s.skip(0) =~= s);
    }
}

/// What `trimmed_end` takes away is white space, and what it leaves does
/// not end with white space.
pub proof fn lemma_trimmed_end(s: Seq<char>)
    ensures
        trimmed_end(s).len() <= s.len(),
        trimmed_end(s) == s.take(trimmed_end(s).len() as int),
        forall|i: int| trimmed_end(s).len() <= i < s.len() ==> whitespace(#[trigger] s[i]),
        trimmed_end(s).len() > 0 ==> !whitespace(trimmed_end(s).last()),
    decreases s.len(),
{
    if s.len() > 0 && whitespace(s.last()) {
        let rest = s.drop_last();
        lemma_trimmed_end(rest);
        let kept = trimmed_end(rest).len() as int;
        assert(rest.take(kept) =~= s.take(kept));
        assert forall|i: int| kept <= i < s.len() implies whitespace(#[trigger] s[i]) by {
            if i < rest.len() {
                assert(s[i] == rest[i]);
            }
        }
    } else {
        assert(s.take(s.len() as int) =~= s);
    }
}

/// Trimmed text is a part of the text it is made from. Outside that part
/// there is only white space, and the part neither begins nor ends with
/// white space.
pub proof fn lemma_trimmed(s: Seq<char>)
    ensures
        exists|from: int, to: int|
            {
                &&& 0 <= from <= to <= s.len()
                &&& trimmed(s) == #[trigger] s.subrange(from, to)
                &&& forall|i: int| 0 <= i < from ==> whitespace(#[trigger] s[i])
                &&& forall|i: int| to <= i < s.len() ==> whitespace(#[trigger] s[i])
            },
        trimmed(s).len() > 0 ==> !whitespace(trimmed(s).first()) && !whitespace(
            trimmed(s).last(),
        ),
{
    let front = trimmed_start(s);
    lemma_trimmed_start(s);
    lemma_trimmed_end(front);
    let from = s.len() - front.len();
    let to = from + trimmed(s).len();
    assert(front.take(trimmed(s).len() as int) =~= s.subrange(from, to));
    assert forall|i: int| to <= i < s.len() implies whitespace(#[trigger] s[i]) by {
        assert(s[i] == front[i - from]);
    }
    if trimmed(s).len() > 0 {
        assert(trimmed(s).first() == front.first());
    }
}

/// Trimming trimmed text changes nothing.
pub proof fn lemma_trimmed_is_trimmed(s: Seq<char>)
    ensures
        trimmed(trimmed(s)) == trimmed(s),
{
    lemma_trimmed(s);
}

/// The part of `line` that is left when the white space at both ends is
/// taken away.
pub fn trim(line: &[char]) -> (kept: &[char])
    ensures
        kept@ == trimmed(line@),
{
    let mut start: usize = 0;
    assert(line@.skip(0) =~= line@);
    while start < line.len() && is_whitespace(line[start])
        invariant
            start <= line.len(),
            trimmed_start(line@) == trimmed_start(line@.skip(start as int)),
        decreases line.len() - start,
    {
        assert(line@.skip(start as int).drop_first() =~= line@.skip(start + 1));
        start += 1;
    }
    let mut end: usize = line.len();
    assert(line@.subrange(start as int, end as int) =~= line@.skip(start as int));
    while start < end && is_whitespace(line[end - 1])
        invariant
            start <= end <= line.len(),
            trimmed(line@) == trimmed_end(line@.subrange(start as int, end as int)),
        decreases end,
    {
        assert(line@.subrange(start as int, end as int).drop_last() =~= line@.subrange(
            start as int,
            end - 1,
        ));
        end -= 1;
    }
    slice_subrange(line, start, end)
}

/// How many characters stand before the first line feed of `s`; the length
/// of `s` if it has none.
pub open spec fn first_line_len(s: Seq<char>) -> nat
    decreases s.len(),
{
    if s.len() == 0 || s.first() == '\n' {
        0
    } else {
        1 + first_line_len(s.drop_first())
    }
}

/// `line` without the carriage return at its end, if it has one.
pub open spec fn without_cr(line: Seq<char>) -> Seq<char> {
    if line.len() > 0 && line.last() == '\r' {
        line.drop_last()
    } else {
        line
    }
}

/// The lines of `s`. A line ends at a line feed, or at a carriage return
/// directly followed by one; neither is part of the line. What follows the
/// last line feed is a line too, unless it is empty.
pub open spec fn lines(s: Seq<char>) -> Seq<Seq<char>>
    decreases s.len(),
{
    if s.len() == 0 {
        Seq::empty()
    } else {
        let n = first_line_len(s) as int;
        if n >= s.len() {
            seq![s]
        } else {
            seq![without_cr(s.take(n))] + lines(s.skip(n + 1))
        }
    }
}

/// `first_line_len` stops at the first line feed: none stands before the
/// position it gives, and one stands at it unless it is the end of `s`.
pub proof fn lemma_first_line_len(s: Seq<char>)
    ensures
        first_line_len(s) <= s.len(),
        forall|i: int| 0 <= i < first_line_len(s) ==> #[trigger] s[i] != '\n',
        first_line_len(s) < s.len() ==> s[first_line_len(s) as int] == '\n',
    decreases s.len(),
{
    if s.len() > 0 && s.first() != '\n' {
        let rest = s.drop_first();
        lemma_first_line_len(rest);
        assert forall|i: int| 0 <= i < first_line_len(s) implies #[trigger] s[i] != '\n' by {
            if i > 0 {
                assert(s[i] == rest[i - 1]);
            }
        }
    }
}

/// No line holds a line feed.
pub proof fn lemma_lines_hold_no_line_feed(s: Seq<char>)
    ensures
        forall|i: int, j: int|
            0 <= i < lines(s).len() && 0 <= j < lines(s)[i].len() ==> #[trigger] lines(
                s,
            )[i][j] != '\n',
    decreases s.len(),
{
    if s.len() > 0 {
        lemma_first_line_len(s);
        let n = first_line_len(s) as int;
        if n < s.len() {
            let first = without_cr(s.take(n));
            let rest = lines(s.skip(n + 1));
            lemma_lines_hold_no_line_feed(s.skip(n + 1));
            assert forall|i: int, j: int|
                0 <= i < lines(s).len() && 0 <= j < lines(s)[i].len() implies #[trigger] lines(
                s,
            )[i][j] != '\n' by {
                if i == 0 {
                    assert(lines(s)[0] == first);
                    assert(first[j] == s[j]);
                } else {
                    assert(lines(s)[i] == rest[i - 1]);
                }
            }
        }
    }
}

/// A text that does not end with a line feed has the lines of the same
/// text with a line feed added, unless it ends with a carriage return.
pub proof fn lemma_last_line_feed_is_optional(s: Seq<char>)
    requires
        s.len() > 0,
        s.last() != '\n',
        s.last() != '\r',
    ensures
        lines(s.push('\n')) == lines(s),
    decreases s.len(),
{
    let t = s.push('\n');
    lemma_first_line_len(s);
    lemma_first_line_len(t);
    let n = first_line_len(s) as int;
    let m = first_line_len(t) as int;
    if n < s.len() {
        assert(t[n] == s[n]);
        assert(m == n) by {
            if m < n {
                assert(s[m] == t[m]);
            }
            if n < m {
                assert(t[n] == '\n');
            }
        }
        assert(t.take(n) =~= s.take(n));
        assert(t.skip(n + 1) =~= s.skip(n + 1).push('\n'));
        lemma_last_line_feed_is_optional(s.skip(n + 1));
    } else {
        assert(t[n] == '\n');
        assert(m == n) by {
            if m < n {
                assert(s[m] == t[m]);
            }
        }
        assert(t.take(n) =~= s);
        assert(t.skip(n + 1) =~= Seq::<char>::empty());
        assert(lines(t.skip(n + 1)) =~= Seq::<Seq<char>>::empty());
        assert(lines(t) =~= seq![s]);
    }
}

/// The characters of each of `found`.
pub open spec fn line_views(found: Seq<&[char]>) -> Seq<Seq<char>> {
    Seq::new(found.len(), |i: int| found[i]@)
}

/// The end of the line that begins at `start`: the position of the next
/// line feed, or the end of `text`.
fn line_end(text: &[char], start: usize) -> (end: usize)
    requires
        start <= text.len(),
    ensures
        start <= end <= text.len(),
        end - start == first_line_len(text@.skip(start as int)),
{
    let mut end: usize = start;
    while end < text.len() && text[end] != '\n'
        invariant
            start <= end <= text.len(),
            first_line_len(text@.skip(start as int)) == (end - start) + first_line_len(
                text@.skip(end as int),
            ),
        decreases text.len() - end,
    {
        assert(text@.skip(end as int).drop_first() =~= text@.skip(end + 1));
        end += 1;
    }
    end
}

/// The lines of `text`, each as a part of it.
pub fn split_lines(text: &[char]) -> (found: Vec<&[char]>)
    ensures
        line_views(found@) == lines(text@),
{
    let mut found: Vec<&[char]> = Vec::new();
    let mut start: usize = 0;
    assert(text@.skip(0) =~= text@);
    while start < text.len()
        invariant
            start <= text.len(),
            lines(text@) == line_views(found@) + lines(text@.skip(start as int)),
        decreases text.len() - start,
    {
        let ghost before = found@;
        let ghost rest = text@.skip(start as int);
        let end = line_end(text, start);
        let line = slice_subrange(text, start, end);
        if end == text.len() {
            assert(line@ =~= rest);
            found.push(line);
            assert(line_views(found@) =~= line_views(before).push(rest));
            start = end;
        } else {
            assert(line@ =~= rest.take(end - start));
            assert(text@.skip(end + 1) =~= rest.skip(end - start + 1));
            let kept = if end > start && text[end - 1] == '\r' {
                slice_subrange(text, start, end - 1)
            } else {
                line
            };
            assert(kept@ =~= without_cr(line@));
            found.push(kept);
            assert(line_views(found@) =~= line_views(before).push(without_cr(line@)));
            start = end + 1;
        }
    }
    found
}

} // verus!
