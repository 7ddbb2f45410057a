//! Article extraction from HTML documents.
//!
//! One depth-first pass over a parsed document finds the element that holds
//! the article and renders what lies below it as plain text: paragraphs and
//! headings as lines, lists with bullets or ordinals, table cells separated by
//! tabs, preformatted blocks verbatim.

pub mod unicode;
pub mod text;
pub mod dom;
pub mod selector;
pub mod ignore;
pub mod model;
pub mod walker;
pub mod html;
pub mod extract;
pub mod config;
pub mod laws;

pub use config::{choose_selector, ConfigItem};
pub use dom::{Attribute, DomNode};
pub use extract::{extract, extract_html, output_path, render, Article, ExtractError};
pub use html::{parse_document, MAX_DOCUMENT_BYTES};
pub use ignore::IgnoreSet;
pub use model::{ElementKind, State};
pub use selector::{SimpleSelector, SimpleSelectorParser};
pub use text::{find_word_in_string, strip_trailing_newline};
pub use walker::{HtmlWalker, WalkError};
