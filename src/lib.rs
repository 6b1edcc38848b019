//! A parser for a small line-oriented markdown dialect: headings, bullet
//! items and plain text, each of which may carry `[[target]]` wiki links.
pub mod laws;
pub mod links;
pub mod parser;
pub mod text;
pub mod types;

pub use links::parse_wiki_links;
pub use parser::{parse_bullet_list, parse_heading, parse_line, parse_markdown, parse_wiki_link};
pub use types::{InlineText, MarkdownDocument, MarkdownElement};
