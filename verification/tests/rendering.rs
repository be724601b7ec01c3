use markdown_tools::parse_markdown;
use markdown_tools::render::Extensions;
use pulldown_cmark::{html, Options, Parser};

fn rendered_with(markdown: &str, options: Options) -> String {
    let mut out = String::new();
    html::push_html(&mut out, Parser::new_ext(markdown, options));
    out
}

fn the_six_extensions() -> Options {
    Options::ENABLE_TABLES
        | Options::ENABLE_FOOTNOTES
        | Options::ENABLE_STRIKETHROUGH
        | Options::ENABLE_TASKLISTS
        | Options::ENABLE_SMART_PUNCTUATION
        | Options::ENABLE_HEADING_ATTRIBUTES
}

const TABLE: &str = "| a | b |\n|---|---|\n| 1 | 2 |\n";

const FOOTNOTE: &str = "Text[^1].\n\n[^1]: Note.\n";

const TASKS: &str = "- [x] done\n- [ ] todo\n";

const PAGES: [&str; 12] = [
    "",
    "plain",
    "# Title\n\nA paragraph with *emphasis* and `code`.\n",
    TABLE,
    FOOTNOTE,
    TASKS,
    "~~gone~~",
    "\"quoted\" -- and... 'single'",
    "# Title {#top .big}",
    "<div>raw</div>\n\n> quote\n\n1. one\n2. two\n",
    "[link](http://example.com \"title\") ![image](a.png)",
    "```rust\nfn main() {}\n```\n\n---\n\n$x$ ^sup^ ~sub~ [[wiki]]\n",
];

#[test]
fn extensions_all_switches_every_extension_on() {
    let all = Extensions::all();
    assert!(all.tables);
    assert!(all.footnotes);
    assert!(all.strikethrough);
    assert!(all.tasklists);
    assert!(all.smart_punctuation);
    assert!(all.heading_attributes);
}

#[test]
fn parse_markdown_of_nothing_is_nothing() {
    assert_eq!(parse_markdown(""), "");
}

#[test]
fn parse_markdown_renders_a_heading() {
    assert_eq!(parse_markdown("# Hello"), "<h1>Hello</h1>\n");
}

#[test]
fn parse_markdown_renders_a_paragraph() {
    assert_eq!(parse_markdown("Hello **world**"), "<p>Hello <strong>world</strong></p>\n");
}

#[test]
fn parse_markdown_escapes_text() {
    assert_eq!(parse_markdown("a < b & c"), "<p>a &lt; b &amp; c</p>\n");
}

#[test]
fn parse_markdown_has_tables_on() {
    assert_eq!(
        parse_markdown(TABLE),
        "<table><thead><tr><th>a</th><th>b</th></tr></thead><tbody>\n<tr><td>1</td><td>2</td></tr>\n</tbody></table>\n"
    );
    assert_ne!(parse_markdown(TABLE), rendered_with(TABLE, Options::empty()));
}

#[test]
fn parse_markdown_has_footnotes_on() {
    let html = parse_markdown(FOOTNOTE);
    assert!(html.contains("class=\"footnote-reference\""));
    assert!(html.contains("class=\"footnote-definition\""));
    assert_ne!(html, rendered_with(FOOTNOTE, Options::empty()));
}

#[test]
fn parse_markdown_has_strikethrough_on() {
    assert_eq!(parse_markdown("~~gone~~"), "<p><del>gone</del></p>\n");
}

#[test]
fn parse_markdown_has_task_lists_on() {
    let html = parse_markdown(TASKS);
    assert!(html.contains("<input disabled=\"\" type=\"checkbox\" checked=\"\"/>"));
    assert!(html.contains("<input disabled=\"\" type=\"checkbox\"/>"));
    assert_ne!(html, rendered_with(TASKS, Options::empty()));
}

#[test]
fn parse_markdown_has_smart_punctuation_on() {
    assert_eq!(parse_markdown("\"hi\""), "<p>\u{201c}hi\u{201d}</p>\n");
    assert_eq!(parse_markdown("a -- b..."), "<p>a \u{2013} b\u{2026}</p>\n");
}

#[test]
fn parse_markdown_has_heading_attributes_on() {
    assert_eq!(
        parse_markdown("# Title {#top .big}"),
        "<h1 id=\"top\" class=\"big\">Title</h1>\n"
    );
}

#[test]
fn parse_markdown_has_no_other_extension_on() {
    assert_eq!(parse_markdown("$x$"), "<p>$x$</p>\n");
    assert_eq!(parse_markdown("[[wiki]]"), "<p>[[wiki]]</p>\n");
    assert_eq!(parse_markdown("a^b^"), "<p>a^b^</p>\n");
}

#[test]
fn parse_markdown_is_the_rendering_with_the_six_extensions() {
    for page in PAGES {
        assert_eq!(parse_markdown(page), rendered_with(page, the_six_extensions()));
    }
}

#[test]
fn parse_markdown_gives_the_same_for_the_same() {
    for page in PAGES {
        assert_eq!(parse_markdown(page), parse_markdown(page));
    }
}
