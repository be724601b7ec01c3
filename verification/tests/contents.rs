use markdown_tools::get_table_of_contents;
use markdown_tools::toc::{render_toc, Entry};

fn entry(level: Option<u64>, text: Option<&str>) -> Entry {
    Entry { level, text: text.map(String::from) }
}

#[test]
fn table_of_contents_of_nothing_is_an_empty_list() {
    assert_eq!(get_table_of_contents(""), "<ul class=\"toc\">\n</ul>");
    assert_eq!(get_table_of_contents("just text\n"), "<ul class=\"toc\">\n</ul>");
}

#[test]
fn table_of_contents_indents_by_level() {
    assert_eq!(
        get_table_of_contents("# A\n## B\n### C\n"),
        "<ul class=\"toc\">\n    <li class=\"toc-h1\">A</li>\n      <li class=\"toc-h2\">B</li>\n        <li class=\"toc-h3\">C</li>\n</ul>"
    );
}

#[test]
fn table_of_contents_keeps_the_order_of_the_headings() {
    assert_eq!(
        get_table_of_contents("## Second level first\ntext\n# Then the first\n###### Deep\n"),
        "<ul class=\"toc\">\n      <li class=\"toc-h2\">Second level first</li>\n    <li class=\"toc-h1\">Then the first</li>\n              <li class=\"toc-h6\">Deep</li>\n</ul>"
    );
}

#[test]
fn table_of_contents_has_an_item_for_an_empty_heading() {
    assert_eq!(
        get_table_of_contents("#"),
        "<ul class=\"toc\">\n    <li class=\"toc-h1\"></li>\n</ul>"
    );
}

#[test]
fn table_of_contents_does_not_escape_the_text() {
    assert_eq!(
        get_table_of_contents("# a <b> & c"),
        "<ul class=\"toc\">\n    <li class=\"toc-h1\">a <b> & c</li>\n</ul>"
    );
}

#[test]
fn table_of_contents_keeps_other_scripts() {
    assert_eq!(
        get_table_of_contents("## h\u{e9}ading \u{1f600}"),
        "<ul class=\"toc\">\n      <li class=\"toc-h2\">h\u{e9}ading \u{1f600}</li>\n</ul>"
    );
}

#[test]
fn table_of_contents_is_a_pair_of_brackets_where_a_quote_breaks_the_list() {
    assert_eq!(get_table_of_contents("# say \"hi\""), "[]");
    assert_eq!(get_table_of_contents("# fine\n## not \" fine\n"), "[]");
}

#[test]
fn table_of_contents_is_a_pair_of_brackets_where_a_backslash_breaks_the_list() {
    assert_eq!(get_table_of_contents("# back\\slash"), "[]");
    assert_eq!(get_table_of_contents("# ends with \\"), "[]");
}

#[test]
fn table_of_contents_is_a_pair_of_brackets_where_a_control_character_breaks_the_list() {
    assert_eq!(get_table_of_contents("# tab\there"), "[]");
    assert_eq!(get_table_of_contents("# bell\u{7}"), "[]");
}

#[test]
fn table_of_contents_reads_an_escape_in_the_text() {
    assert_eq!(
        get_table_of_contents("# a\\nb"),
        "<ul class=\"toc\">\n    <li class=\"toc-h1\">a\nb</li>\n</ul>"
    );
    assert_eq!(
        get_table_of_contents("# \\u0041\\\\"),
        "<ul class=\"toc\">\n    <li class=\"toc-h1\">A\\</li>\n</ul>"
    );
}

#[test]
fn table_of_contents_takes_the_last_level_the_list_names() {
    assert_eq!(
        get_table_of_contents("# x\", \"level\": 3, \"y\": \""),
        "<ul class=\"toc\">\n        <li class=\"toc-h3\">x</li>\n</ul>"
    );
}

#[test]
fn table_of_contents_skips_what_has_no_number_for_a_level() {
    assert_eq!(
        get_table_of_contents("# x\", \"level\": \"one\", \"y\": \"\n## kept\n"),
        "<ul class=\"toc\">\n      <li class=\"toc-h2\">kept</li>\n</ul>"
    );
    assert_eq!(
        get_table_of_contents("# x\", \"level\": -1, \"y\": \""),
        "<ul class=\"toc\">\n</ul>"
    );
    assert_eq!(
        get_table_of_contents("# x\", \"level\": 1.0, \"y\": \""),
        "<ul class=\"toc\">\n</ul>"
    );
}

#[test]
fn table_of_contents_skips_what_has_no_string_for_a_text() {
    assert_eq!(
        get_table_of_contents("# x\", \"text\": 5, \"y\": \""),
        "<ul class=\"toc\">\n</ul>"
    );
}

#[test]
fn render_toc_of_no_entries() {
    assert_eq!(render_toc(&[]), "<ul class=\"toc\">\n</ul>");
}

#[test]
fn render_toc_writes_an_item_for_each_entry() {
    let entries = vec![entry(Some(1), Some("One")), entry(Some(2), Some("Two"))];
    assert_eq!(
        render_toc(&entries),
        "<ul class=\"toc\">\n    <li class=\"toc-h1\">One</li>\n      <li class=\"toc-h2\">Two</li>\n</ul>"
    );
}

#[test]
fn render_toc_skips_an_entry_that_lacks_a_part() {
    let entries = vec![
        entry(None, Some("no level")),
        entry(Some(1), None),
        entry(None, None),
        entry(Some(3), Some("whole")),
    ];
    assert_eq!(
        render_toc(&entries),
        "<ul class=\"toc\">\n        <li class=\"toc-h3\">whole</li>\n</ul>"
    );
}

#[test]
fn render_toc_takes_any_level() {
    assert_eq!(
        render_toc(&[entry(Some(0), Some("zero"))]),
        "<ul class=\"toc\">\n  <li class=\"toc-h0\">zero</li>\n</ul>"
    );
    let expected = format!("<ul class=\"toc\">\n{}  <li class=\"toc-h12\">deep</li>\n</ul>", "  ".repeat(12));
    assert_eq!(render_toc(&[entry(Some(12), Some("deep"))]), expected);
}
