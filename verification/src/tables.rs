//! Looking for table rows in a markdown text.

use crate::text::{chars_of, line_views, lines, split_lines, trim, trimmed};
use vstd::prelude::*;

verus! {

/// Whether `line` looks like the row of a table: without the white space
/// around it, it begins with `|` and ends with `|`.
pub open spec fn is_table_row(line: Seq<char>) -> bool {
    let row = trimmed(line);
    row.len() > 0 && row.first() == '|' && row.last() == '|'
}

/// Whether one of the lines of `s` looks like the row of a table.
pub open spec fn contains_table_row(s: Seq<char>) -> bool {
    exists|i: int| 0 <= i < lines(s).len() && is_table_row(#[trigger] lines(s)[i])
}

/// Tells whether `line` looks like the row of a table.
pub fn looks_like_table_row(line: &[char]) -> (answer: bool)
    ensures
        answer == is_table_row(line@),
{
    let row = trim(line);
    row.len() > 0 && row[0] == '|' && row[row.len() - 1] == '|'
}

/// Tells whether `markdown` holds a table: whether one of its lines looks
/// like the row of one.
pub fn has_tables(markdown: &str) -> (found: bool)
    ensures
        found == contains_table_row(markdown@),
{
    let chars = chars_of(markdown);
    let rows = split_lines(chars.as_slice());
    let mut i: usize = 0;
    while i < rows.len()
        invariant
            i <= rows.len(),
            line_views(rows@) == lines(markdown@),
            forall|k: int| 0 <= k < i ==> !is_table_row(#[trigger] lines(markdown@)[k]),
        decreases rows.len() - i,
    {
        assert(lines(markdown@)[i as int] == rows[i as int]@);
        if looks_like_table_row(rows[i]) {
            return true;
        }
        i += 1;
    }
    false
}

} // verus!
