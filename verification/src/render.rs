//! Rendering markdown to HTML.

use pulldown_cmark::{html, Options, Parser};
use vstd::prelude::*;

verus! {

/// The extensions to CommonMark that a rendering has switched on.
#[derive(Clone, Copy, Debug)]
pub struct Extensions {
    pub tables: bool,
    pub footnotes: bool,
    pub strikethrough: bool,
    pub tasklists: bool,
    pub smart_punctuation: bool,
    pub heading_attributes: bool,
}

/// Every extension switched on.
pub open spec fn all_extensions() -> Extensions {
    Extensions {
        tables: true,
        footnotes: true,
        strikethrough: true,
        tasklists: true,
        smart_punctuation: true,
        heading_attributes: true,
    }
}

impl Extensions {
    /// Every extension switched on.
    pub fn all() -> (extensions: Extensions)
        ensures
            extensions == all_extensions(),
    {
        Extensions {
            tables: true,
            footnotes: true,
            strikethrough: true,
            tasklists: true,
            smart_punctuation: true,
            heading_attributes: true,
        }
    }
}

/// The HTML that `pulldown_cmark` writes for the text `markdown` when it
/// parses it with `extensions`.
pub uninterp spec fn rendered_html(markdown: Seq<char>, extensions: Extensions) -> Seq<char>;

/// `pulldown_cmark::Parser::new_ext` on `markdown`, with the options that
/// `extensions` names and no others, handed to `pulldown_cmark::html::push_html`
/// with an empty string. The parser and the writer read nothing but the
/// text and the options, so what they write is a function of the two; the
/// contract gives that function its name and claims nothing else.
#[verifier::external_body]
fn render(markdown: &str, extensions: Extensions) -> (html: String)
    ensures
        html@ == rendered_html(markdown@, extensions),
{
    let mut options = Options::empty();
    options.set(Options::ENABLE_TABLES, extensions.tables);
    options.set(Options::ENABLE_FOOTNOTES, extensions.footnotes);
    options.set(Options::ENABLE_STRIKETHROUGH, extensions.strikethrough);
    options.set(Options::ENABLE_TASKLISTS, extensions.tasklists);
    options.set(Options::ENABLE_SMART_PUNCTUATION, extensions.smart_punctuation);
    options.set(Options::ENABLE_HEADING_ATTRIBUTES, extensions.heading_attributes);
    let mut html = String::new();
    html::push_html(&mut html, Parser::new_ext(markdown, options));
    html
}

/// Renders `markdown` to HTML, with tables, footnotes, strikethrough, task
/// lists, smart punctuation and heading attributes switched on.
pub fn parse_markdown(markdown: &str) -> (html: String)
    ensures
        html@ == rendered_html(markdown@, all_extensions()),
{
    render(markdown, Extensions::all())
}

} // verus!
