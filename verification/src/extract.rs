//! From a document to its article: a walk into a fresh buffer, and the rule
//! for a document in which no article is found.

use vstd::prelude::*;
use vstd::string::*;
use crate::dom::{DomNode, Tree};
use crate::html::{parse_document, parsed_document, MAX_DOCUMENT_BYTES};
use crate::model::{visit, State, Walk};
use crate::selector::{selector_view, Selector, SimpleSelector};
use crate::walker::{default_ignore, HtmlWalker, WalkError};

verus! {

/// What a walk gives.
#[derive(Debug, Clone, PartialEq, Eq)]
pub struct Article {
    /// The text of the article.
    pub text: String,
    /// The title of the document; empty where none was read.
    pub title: String,
    /// Whether an element was met that begins the article.
    pub found_article: bool,
}

/// Why nothing was extracted.
#[derive(Debug, Clone, Copy, PartialEq, Eq)]
pub enum ExtractError {
    /// The document is longer than the parser is given.
    DocumentTooLong,
    /// The walk was given up.
    Walk(WalkError),
}

/// The start of a walk: nothing written, no title, and the names to pass
/// over that every walk starts with, `head` among them where `skip_head` is
/// set. With `whole_document` the article counts as found from the start.
pub open spec fn start(skip_head: bool, whole_document: bool) -> Walk {
    Walk {
        found_article: whole_document,
        title: Seq::empty(),
        ignore: if skip_head {
            default_ignore().insert("head"@)
        } else {
            default_ignore()
        },
        output: Seq::empty(),
        failed: false,
    }
}

/// The walk over `tree` from [`start`].
pub open spec fn walk_of(
    tree: Tree,
    boundary: Option<Selector>,
    skip_head: bool,
    whole_document: bool,
) -> Walk {
    visit(tree, State::Search, boundary, start(skip_head, whole_document))
}

/// What is extracted from `tree`: the walk that searches for the article
/// where it finds one or is given up; else, with the title of that walk, the
/// walk that passes over `head` and takes the whole document for the article.
pub open spec fn extraction(tree: Tree, boundary: Option<Selector>, skip_head: bool) -> Walk {
    let first = walk_of(tree, boundary, skip_head, false);
    if first.failed || first.found_article {
        first
    } else {
        Walk { title: first.title, ..walk_of(tree, boundary, true, true) }
    }
}

impl Article {
    /// Whether this is what `walk` has found and written.
    pub open spec fn shows(&self, walk: Walk) -> bool {
        &&& self.text@ == walk.output
        &&& self.title@ == walk.title
        &&& self.found_article == walk.found_article
    }
}

/// Whether `result` tells how `walk` ended: what it found and wrote, or that
/// it was given up.
pub open spec fn tells(result: Result<Article, WalkError>, walk: Walk) -> bool {
    match result {
        Ok(article) => !walk.failed && article.shows(walk),
        Err(_) => walk.failed,
    }
}

/// One walk over `tree` into a fresh buffer. With `skip_head` nothing below
/// a `head` element is looked at, so no title is read. With `whole_document`
/// the article counts as found from the start and everything is rendered.
pub fn render(
    tree: &DomNode,
    selector: Option<SimpleSelector>,
    skip_head: bool,
    whole_document: bool,
) -> (result: Result<Article, WalkError>)
    ensures
        tells(result, walk_of(tree@, selector_view(selector), skip_head, whole_document)),
{
    let mut buffer = String::new();
    let mut walker = HtmlWalker::with_boundary(tree, &mut buffer, selector);
    if skip_head {
        walker.ignore_elements.insert(String::from_str("head"));
    }
    walker.found_article = whole_document;
    let outcome = walker.walk();
    let HtmlWalker { found_article, title, .. } = walker;
    match outcome {
        Ok(()) => Ok(Article { text: buffer, title, found_article }),
        Err(e) => Err(e),
    }
}

/// Extracts the article from `tree`. Where the search for it finds nothing,
/// the whole document but its `head` is rendered instead, under the title
/// that the search has read.
pub fn extract(tree: &DomNode, selector: Option<SimpleSelector>, skip_head: bool) -> (result: Result<
    Article,
    WalkError,
>)
    ensures
        tells(result, extraction(tree@, selector_view(selector), skip_head)),
{
    let again = match &selector {
        Some(s) => Some(s.clone()),
        None => None,
    };
    let first = render(tree, selector, skip_head, false)?;
    if first.found_article {
        Ok(first)
    } else {
        let second = render(tree, again, true, true)?;
        Ok(Article { text: second.text, title: first.title, found_article: second.found_article })
    }
}

/// Parses the document `html` and extracts the article from it.
pub fn extract_html(html: &str, selector: Option<SimpleSelector>, skip_head: bool) -> (result: Result<
    Article,
    ExtractError,
>)
    ensures
        html.len() > MAX_DOCUMENT_BYTES ==> result == Err::<Article, ExtractError>(
            ExtractError::DocumentTooLong,
        ),
        html.len() <= MAX_DOCUMENT_BYTES ==> match result {
            Ok(article) => tells(
                Ok(article),
                extraction(parsed_document(html@), selector_view(selector), skip_head),
            ),
            Err(e) => e is Walk && extraction(
                parsed_document(html@),
                selector_view(selector),
                skip_head,
            ).failed,
        },
{
    match parse_document(html) {
        None => Err(ExtractError::DocumentTooLong),
        Some(tree) => match extract(&tree, selector, skip_head) {
            Ok(article) => Ok(article),
            Err(e) => Err(ExtractError::Walk(e)),
        },
    }
}

/// The path of the file for an article with this title.
pub open spec fn path_for(title: Seq<char>) -> Seq<char> {
    if title.len() == 0 {
        "/tmp/article.txt"@
    } else {
        "/tmp/"@ + title + ".txt"@
    }
}

/// The path of the file that an article with the title `title` is saved to:
/// under `/tmp`, named by the title, or `article` where the title is empty.
pub fn output_path(title: &str) -> (path: String)
    ensures
        path@ == path_for(title@),
{
    if title.is_empty() {
        String::from_str("/tmp/article.txt")
    } else {
        let mut path = String::from_str("/tmp/");
        path.append(title);
        path.append(".txt");
        path
    }
}

} // verus!
