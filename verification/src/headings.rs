//! The headings of a markdown text, and the list of them as JSON text.

use crate::decimal::{decimal, push_decimal};
use crate::text::{
    chars_of, lemma_trimmed_is_trimmed, line_views, lines, push_chars, split_lines, trim, trimmed,
};
use vstd::prelude::*;
use vstd::slice::slice_subrange;

verus! {

/// A heading: its level, from 1 to 6, and its text.
pub struct Heading {
    pub level: nat,
    pub text: Seq<char>,
}

/// How many `#` characters `line` begins with.
pub open spec fn marker_len(line: Seq<char>) -> nat
    decreases line.len(),
{
    if line.len() > 0 && line.first() == '#' {
        1 + marker_len(line.drop_first())
    } else {
        0
    }
}

/// The heading that `line` holds: a line that begins with one to six `#`
/// characters is a heading of that level, and its text is the rest of the
/// line without the white space around it. Any other line holds none.
pub open spec fn heading_of(line: Seq<char>) -> Option<Heading> {
    let level = marker_len(line);
    if 1 <= level <= 6 {
        Some(Heading { level, text: trimmed(line.skip(level as int)) })
    } else {
        None
    }
}

/// `heading_of` as a value.
pub open spec fn heading_finder() -> spec_fn(Seq<char>) -> Option<Heading> {
    |line: Seq<char>| heading_of(line)
}

/// The headings that `lines` hold, in their order.
pub open spec fn headings_in(lines: Seq<Seq<char>>) -> Seq<Heading> {
    lines.filter_map(heading_finder())
}

/// The headings of the text `s`, in their order.
pub open spec fn headings(s: Seq<char>) -> Seq<Heading> {
    headings_in(lines(s))
}

/// Every heading that lines hold has a level from 1 to 6, and a text
/// without white space at either end.
pub proof fn lemma_headings_in(lines: Seq<Seq<char>>)
    ensures
        headings_in(lines).len() <= lines.len(),
        forall|i: int|
            0 <= i < headings_in(lines).len() ==> {
                let heading = #[trigger] headings_in(lines)[i];
                &&& 1 <= heading.level <= 6
                &&& heading.text == trimmed(heading.text)
            },
    decreases lines.len(),
{
    if lines.len() > 0 {
        lemma_headings_in(lines.drop_last());
        match heading_of(lines.last()) {
            Some(heading) => {
                lemma_trimmed_is_trimmed(lines.last().skip(heading.level as int));
            },
            None => {},
        }
    }
}

/// The JSON object written for `heading`. The text is written as it is,
/// without escaping.
pub open spec fn heading_json(heading: Heading) -> Seq<char> {
    "{\"level\": "@ + decimal(heading.level) + ", \"text\": \""@ + heading.text + "\"}"@
}

/// `heading_json` as a value.
pub open spec fn heading_writer() -> spec_fn(Heading) -> Seq<char> {
    |heading: Heading| heading_json(heading)
}

/// The `parts` one after another, with `separator` between each two.
pub open spec fn joined(parts: Seq<Seq<char>>, separator: Seq<char>) -> Seq<char>
    decreases parts.len(),
{
    if parts.len() == 0 {
        Seq::empty()
    } else if parts.len() == 1 {
        parts[0]
    } else {
        joined(parts.drop_last(), separator) + separator + parts.last()
    }
}

/// The JSON array written for `list`: the objects of its headings,
/// separated by commas, in square brackets.
pub open spec fn headings_json(list: Seq<Heading>) -> Seq<char> {
    "["@ + joined(list.map_values(heading_writer()), ","@) + "]"@
}

/// What one more part adds to joined parts.
proof fn lemma_joined_push(parts: Seq<Seq<char>>, separator: Seq<char>, part: Seq<char>)
    ensures
        joined(parts.push(part), separator) == if parts.len() == 0 {
            part
        } else {
            joined(parts, separator) + separator + part
        },
{
    assert(parts.push(part).drop_last() =~= parts);
}

/// The number of `#` characters that `line` begins with.
fn count_markers(line: &[char]) -> (count: usize)
    ensures
        count == marker_len(line@),
        count <= line.len(),
{
    let mut count: usize = 0;
    assert(line@.skip(0) =~= line@);
    while count < line.len() && line[count] == '#'
        invariant
            count <= line.len(),
            marker_len(line@) == count + marker_len(line@.skip(count as int)),
        decreases line.len() - count,
    {
        assert(line@.skip(count as int).drop_first() =~= line@.skip(count + 1));
        count += 1;
    }
    count
}

/// The headings of `markdown` as the text of a JSON array, one object with
/// `level` and `text` for each.
pub fn extract_headings(markdown: &str) -> (json: String)
    ensures
        json@ == headings_json(headings(markdown@)),
{
    let chars = chars_of(markdown);
    let found = split_lines(chars.as_slice());
    let ghost all = lines(markdown@);
    let mut json = String::from_str("[");
    let mut any = false;
    let mut i: usize = 0;
    assert(all.take(0) =~= Seq::<Seq<char>>::empty());
    assert(headings_in(all.take(0)).map_values(heading_writer()) =~= Seq::<Seq<char>>::empty());
    assert(json@ =~= "["@ + Seq::<char>::empty());
    while i < found.len()
        invariant
            i <= found.len(),
            all == lines(markdown@),
            line_views(found@) == all,
            any == (headings_in(all.take(i as int)).len() > 0),
            json@ == "["@ + joined(
                headings_in(all.take(i as int)).map_values(heading_writer()),
                ","@,
            ),
        decreases found.len() - i,
    {
        let line = found[i];
        let ghost before = headings_in(all.take(i as int));
        proof {
            assert(all[i as int] == line@);
            all.lemma_filter_map_take_succ(heading_finder(), i as int);
        }
        let level = count_markers(line);
        if 1 <= level && level <= 6 {
            let text = trim(slice_subrange(line, level, line.len()));
            if any {
                json.append(",");
            }
            json.append("{\"level\": ");
            push_decimal(&mut json, level as u64);
            json.append(", \"text\": \"");
            push_chars(&mut json, text);
            json.append("\"}");
            any = true;
            proof {
                let heading = heading_of(line@).unwrap();
                assert(line@.subrange(level as int, line@.len() as int) =~= line@.skip(
                    level as int,
                ));
                assert(text@ == heading.text);
                assert(headings_in(all.take(i + 1)) =~= before.push(heading));
                assert(before.push(heading).map_values(heading_writer()) =~= before.map_values(
                    heading_writer(),
                ).push(heading_json(heading)));
                lemma_joined_push(
                    before.map_values(heading_writer()),
                    ","@,
                    heading_json(heading),
                );
                assert(json@ =~= "["@ + joined(
                    headings_in(all.take(i + 1)).map_values(heading_writer()),
                    ","@,
                ));
            }
        } else {
            assert(headings_in(all.take(i + 1)) =~= before);
        }
        i += 1;
    }
    assert(all.take(i as int) =~= all);
    json.append("]");
    json
}

} // verus!
