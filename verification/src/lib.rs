//! Small tools for markdown text: rendering to HTML, counting, headings,
//! tables, a table of contents and escaping.

use vstd::prelude::*;

pub mod count;
pub mod decimal;
pub mod headings;
pub mod render;
pub mod sanitize;
pub mod tables;
pub mod text;
pub mod toc;

pub use count::{count_characters, count_words};
pub use headings::extract_headings;
pub use render::parse_markdown;
pub use sanitize::sanitize_input;
pub use tables::has_tables;
pub use toc::get_table_of_contents;

verus! {

/// The version of this library.
pub fn get_version() -> (version: String)
    ensures
        version@ == "1.1.0"@,
{
    String::from_str("1.1.0")
}

} // verus!
