//! The table of contents of a markdown text, as an HTML list.

use crate::decimal::{decimal, push_decimal};
use crate::headings::{extract_headings, headings, headings_json};
use vstd::prelude::*;

verus! {

/// What the table of contents reads of one element of a list in JSON: the
/// level, where the element has one that is a number from 0 to `u64::MAX`,
/// and the text, where it has one that is a string.
#[derive(Debug)]
pub struct Entry {
    pub level: Option<u64>,
    pub text: Option<String>,
}

/// An `Entry` with its text as a sequence of characters.
pub struct EntryView {
    pub level: Option<u64>,
    pub text: Option<Seq<char>>,
}

impl View for Entry {
    type V = EntryView;

    open spec fn view(&self) -> EntryView {
        EntryView {
            level: self.level,
            text: match self.text {
                Some(text) => Some(text@),
                None => None,
            },
        }
    }
}

/// The views of `entries`.
pub open spec fn entry_views(entries: Seq<Entry>) -> Seq<EntryView> {
    Seq::new(entries.len(), |i: int| entries[i]@)
}

/// The views of the entries of `parsed`, if it holds any.
pub open spec fn parsed_views(parsed: Option<Vec<Entry>>) -> Option<Seq<EntryView>> {
    match parsed {
        Some(entries) => Some(entry_views(entries@)),
        None => None,
    }
}

/// What `serde_json` reads in the text `json`: `None` where it does not
/// parse as a list of values; else, for each value of the list in order,
/// what `Value::as_u64` gives for its member `level_key` and what
/// `Value::as_str` gives for its member `text_key`.
pub uninterp spec fn parsed_entries(
    json: Seq<char>,
    level_key: Seq<char>,
    text_key: Seq<char>,
) -> Option<Seq<EntryView>>;

/// `serde_json::from_str` on `json`, for a `Vec` of `serde_json::Value`. An
/// error gives `None`. Of each value in the list the result keeps two
/// things: the value indexed by `level_key`, through `Value::as_u64`, and
/// the value indexed by `text_key`, through `Value::as_str`. The parser
/// reads nothing but the text, so the result is a function of the three
/// arguments; the contract gives that function its name and claims nothing
/// else.
#[verifier::external_body]
fn parse_entries(json: &str, level_key: &str, text_key: &str) -> (parsed: Option<Vec<Entry>>)
    ensures
        parsed_views(parsed) == parsed_entries(json@, level_key@, text_key@),
{
    match serde_json::from_str::<Vec<serde_json::Value>>(json) {
        Ok(values) => Some(
            values.iter().map(
                |value|
                    Entry {
                        level: value[level_key].as_u64(),
                        text: value[text_key].as_str().map(String::from),
                    },
            ).collect(),
        ),
        Err(_) => None,
    }
}

/// `unit`, `times` times over.
pub open spec fn repeated(unit: Seq<char>, times: nat) -> Seq<char>
    decreases times,
{
    if times == 0 {
        Seq::empty()
    } else {
        repeated(unit, (times - 1) as nat) + unit
    }
}

/// The list item for a heading of `level` with `text`: two spaces as many
/// times as the level says when it is taken as a machine word, two more
/// spaces, and the item, whose class names the level. The text is written
/// as it is, without escaping.
pub open spec fn toc_item(level: u64, text: Seq<char>) -> Seq<char> {
    repeated("  "@, level as usize as nat) + "  <li class=\"toc-h"@ + decimal(level as nat)
        + "\">"@ + text + "</li>\n"@
}

/// A level below 2^32 is the same as a machine word on every machine: the
/// item is then indented by two spaces for each level.
pub proof fn lemma_toc_item_of_small_level(level: u64, text: Seq<char>)
    requires
        level <= u32::MAX,
    ensures
        toc_item(level, text) == repeated("  "@, level as nat) + "  <li class=\"toc-h"@ + decimal(
            level as nat,
        ) + "\">"@ + text + "</li>\n"@,
{
}

/// What is written for `entry`: its list item if it has both a level and a
/// text, else nothing.
pub open spec fn entry_markup(entry: EntryView) -> Seq<char> {
    match (entry.level, entry.text) {
        (Some(level), Some(text)) => toc_item(level, text),
        _ => Seq::empty(),
    }
}

/// `entry_markup` as a value.
pub open spec fn entry_writer() -> spec_fn(EntryView) -> Seq<char> {
    |entry: EntryView| entry_markup(entry)
}

/// The HTML list for `entries`: what is written for each, in order, between
/// the opening and the closing tag of the list.
pub open spec fn toc_markup(entries: Seq<EntryView>) -> Seq<char> {
    "<ul class=\"toc\">\n"@ + entries.flat_map(entry_writer()) + "</ul>"@
}

/// The table of contents for what was read in a list of headings: the HTML
/// list of its entries, or `[]` where nothing could be read.
pub open spec fn table_of_contents(parsed: Option<Seq<EntryView>>) -> Seq<char> {
    match parsed {
        Some(entries) => toc_markup(entries),
        None => "[]"@,
    }
}

/// Appends the list item for a heading of `level` with `text` to `out`.
fn push_item(out: &mut String, level: u64, text: &str)
    ensures
        final(out)@ == old(out)@ + toc_item(level, text@),
{
    let times: usize = #[verifier::truncate] (level as usize);
    let mut done: usize = 0;
    assert(out@ =~= old(out)@ + repeated("  "@, 0));
    while done < times
        invariant
            done <= times,
            out@ == old(out)@ + repeated("  "@, done as nat),
        decreases times - done,
    {
        out.append("  ");
        done += 1;
        assert(out@ =~= old(out)@ + repeated("  "@, done as nat));
    }
    out.append("  <li class=\"toc-h");
    push_decimal(out, level);
    out.append("\">");
    out.append(text);
    out.append("</li>\n");
    assert(out@ =~= old(out)@ + toc_item(level, text@));
}

/// The HTML list for `entries`: an item for each entry that has both a
/// level and a text, indented by its level.
pub fn render_toc(entries: &[Entry]) -> (toc: String)
    ensures
        toc@ == toc_markup(entry_views(entries@)),
{
    let ghost views = entry_views(entries@);
    let mut toc = String::from_str("<ul class=\"toc\">\n");
    let mut i: usize = 0;
    assert(views.take(0) =~= Seq::<EntryView>::empty());
    assert(toc@ =~= "<ul class=\"toc\">\n"@ + views.take(0).flat_map(entry_writer()));
    while i < entries.len()
        invariant
            i <= entries.len(),
            views == entry_views(entries@),
            toc@ == "<ul class=\"toc\">\n"@ + views.take(i as int).flat_map(entry_writer()),
        decreases entries.len() - i,
    {
        proof {
            views.lemma_flat_map_take_append(entry_writer(), i as int);
        }
        let entry = &entries[i];
        let ghost before = toc@;
        match (&entry.level, &entry.text) {
            (Some(level), Some(text)) => {
                push_item(&mut toc, *level, text.as_str());
            },
            _ => {},
        }
        assert(toc@ =~= before + entry_markup(views[i as int]));
        i += 1;
    }
    assert(views.take(i as int) =~= views);
    toc.append("</ul>");
    toc
}

/// The table of contents of `markdown` as an HTML list. It is made from the
/// list of headings that `extract_headings` writes, read back as JSON: so a
/// heading whose text breaks that JSON leaves `[]` in place of the list.
pub fn get_table_of_contents(markdown: &str) -> (toc: String)
    ensures
        toc@ == table_of_contents(
            parsed_entries(headings_json(headings(markdown@)), "level"@, "text"@),
        ),
{
    let json = extract_headings(markdown);
    match parse_entries(json.as_str(), "level", "text") {
        Some(entries) => render_toc(entries.as_slice()),
        None => String::from_str("[]"),
    }
}

} // verus!
