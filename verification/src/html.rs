//! From the text of an HTML document to its tree.
//!
//! Parsing is the work of `html5ever`, which builds a tree of
//! reference-counted nodes. That tree is copied once into a [`DomNode`] tree,
//! which is what the walker reads.

use html5ever::tendril::TendrilSink;
use vstd::prelude::*;
use crate::dom::{Attribute, DomNode, Tree};

verus! {

/// A node of the tree that the parser builds.
#[verifier::external_type_specification]
#[verifier::external_body]
pub struct ExParsedNode(markup5ever_rcdom::Node);

/// The longest document that is parsed, in bytes. The parser keeps each text
/// in a buffer whose capacity is a power of two below 2^32, so a text of more
/// than 2^31 bytes makes it give up; and a text in the tree can be three
/// times as long as the document, since each NUL byte becomes a replacement
/// character of three bytes. A third of 2^31 is the limit, rounded down here
/// to 512 MiB.
pub const MAX_DOCUMENT_BYTES: usize = 0x2000_0000;

/// The tree that the parser builds from the document `html`, with scripting
/// switched off.
pub uninterp spec fn parsed_document(html: Seq<char>) -> Tree;

/// Copies the tree below `handle`, children in document order. An element
/// gives its local name and its attributes' local names and values; a text
/// node its text; a comment, a doctype or a processing instruction nothing.
#[verifier::external_body]
fn copy_tree(handle: &std::rc::Rc<markup5ever_rcdom::Node>) -> DomNode {
    let children = handle.children.borrow().iter().map(copy_tree).collect();
    match &handle.data {
        markup5ever_rcdom::NodeData::Document => DomNode::Document { children },
        markup5ever_rcdom::NodeData::Text { contents } => DomNode::Text {
            content: contents.borrow().to_string(),
        },
        markup5ever_rcdom::NodeData::Element { name, attrs, .. } => DomNode::Element {
            tag: name.local.to_string(),
            attributes: attrs.borrow().iter().map(
                |a| Attribute { name: a.name.local.to_string(), value: a.value.to_string() },
            ).collect(),
            children,
        },
        _ => DomNode::Other,
    }
}

/// `html5ever::parse_document` into a `markup5ever_rcdom::RcDom`, fed with
/// the bytes of `html`. The tree depends on the text alone. Reading from
/// bytes in memory cannot fail.
#[verifier::external_body]
fn parse_tree(html: &str) -> (tree: DomNode)
    requires
        html.len() <= MAX_DOCUMENT_BYTES,
    ensures
        tree@ == parsed_document(html@),
{
    let mut opts = html5ever::ParseOpts::default();
    opts.tree_builder.scripting_enabled = false;
    let dom = html5ever::parse_document(markup5ever_rcdom::RcDom::default(), opts)
        .from_utf8()
        .read_from(&mut html.as_bytes())
        .unwrap();
    copy_tree(&dom.document)
}

/// Parses the document `html`. `None` where it is longer than
/// [`MAX_DOCUMENT_BYTES`].
pub fn parse_document(html: &str) -> (tree: Option<DomNode>)
    ensures
        html.len() <= MAX_DOCUMENT_BYTES ==> tree is Some && tree->0@ == parsed_document(html@),
        html.len() > MAX_DOCUMENT_BYTES ==> tree is None,
{
    if html.len() <= MAX_DOCUMENT_BYTES {
        Some(parse_tree(html))
    } else {
        None
    }
}

} // verus!
