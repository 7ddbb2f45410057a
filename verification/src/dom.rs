//! The document tree that a walk reads.
//!
//! A tree is made of a document node, elements with a tag, attributes and
//! children, text nodes, and nodes of any other kind (comments, doctypes),
//! which carry nothing that matters here.

use vstd::prelude::*;
use vstd::string::*;

verus! {

/// One attribute of an element: a name and a value.
#[derive(Debug, Clone, PartialEq, Eq)]
pub struct Attribute {
    pub name: String,
    pub value: String,
}

/// What an [`Attribute`] stands for: its name and value as character sequences.
pub struct Attr {
    pub name: Seq<char>,
    pub value: Seq<char>,
}

impl View for Attribute {
    type V = Attr;

    open spec fn view(&self) -> Attr {
        Attr { name: self.name@, value: self.value@ }
    }
}

impl Attribute {
    /// The attribute `name="value"`.
    pub fn new(name: &str, value: &str) -> (attribute: Self)
        ensures
            attribute@ == (Attr { name: name@, value: value@ }),
    {
        Attribute { name: String::from_str(name), value: String::from_str(value) }
    }
}

/// The attributes of an element, in document order.
pub open spec fn attrs_of(attributes: Seq<Attribute>) -> Seq<Attr> {
    attributes.map_values(|a: Attribute| a@)
}

/// A node of a parsed document.
#[derive(Debug, PartialEq, Eq)]
pub enum DomNode {
    /// The root of a document.
    Document { children: Vec<DomNode> },
    /// An element; attribute names are unique and lower case where the tree
    /// comes from a parser, but nothing here depends on that.
    Element { tag: String, attributes: Vec<Attribute>, children: Vec<DomNode> },
    /// A run of text.
    Text { content: String },
    /// A comment, a doctype or a processing instruction.
    Other,
}

/// What a [`DomNode`] stands for: the same tree over sequences.
pub enum Tree {
    Document { children: Seq<Tree> },
    Element { tag: Seq<char>, attributes: Seq<Attr>, children: Seq<Tree> },
    Text { content: Seq<char> },
    Other,
}

impl View for DomNode {
    type V = Tree;

    open spec fn view(&self) -> Tree
        decreases self,
    {
        match self {
            DomNode::Document { children } => Tree::Document {
                children: Seq::new(
                    children@.len(),
                    |i: int|
                        if 0 <= i < children@.len() {
                            children@[i].view()
                        } else {
                            Tree::Other
                        },
                ),
            },
            DomNode::Element { tag, attributes, children } => Tree::Element {
                tag: tag@,
                attributes: attrs_of(attributes@),
                children: Seq::new(
                    children@.len(),
                    |i: int|
                        if 0 <= i < children@.len() {
                            children@[i].view()
                        } else {
                            Tree::Other
                        },
                ),
            },
            DomNode::Text { content } => Tree::Text { content: content@ },
            DomNode::Other => Tree::Other,
        }
    }
}

impl DomNode {
    /// A document with these children.
    pub fn document(children: Vec<DomNode>) -> (node: Self)
        ensures
            node@ == (Tree::Document { children: forest(children@) }),
    {
        let node = DomNode::Document { children };
        proof {
            lemma_children_view(node);
        }
        node
    }

    /// The element `tag` with these attributes and children.
    pub fn element(tag: &str, attributes: Vec<Attribute>, children: Vec<DomNode>) -> (node: Self)
        ensures
            node@ == (Tree::Element {
                tag: tag@,
                attributes: attrs_of(attributes@),
                children: forest(children@),
            }),
    {
        let node = DomNode::Element { tag: String::from_str(tag), attributes, children };
        proof {
            lemma_children_view(node);
        }
        node
    }

    /// A text node that holds `content`.
    pub fn text(content: &str) -> (node: Self)
        ensures
            node@ == (Tree::Text { content: content@ }),
    {
        DomNode::Text { content: String::from_str(content) }
    }
}

/// The trees that a list of nodes stands for.
pub open spec fn forest(nodes: Seq<DomNode>) -> Seq<Tree> {
    Seq::new(nodes.len(), |i: int| nodes[i]@)
}

impl Tree {
    /// The children of a document or an element; no other node has any.
    pub open spec fn children(self) -> Seq<Tree> {
        match self {
            Tree::Document { children } => children,
            Tree::Element { children, .. } => children,
            _ => Seq::empty(),
        }
    }
}

/// The children of a node stand for the children of its tree.
pub proof fn lemma_children_view(node: DomNode)
    ensures
        match node {
            DomNode::Document { children } => node@.children() == forest(children@),
            DomNode::Element { children, .. } => node@.children() == forest(children@),
            _ => node@.children() == Seq::<Tree>::empty(),
        },
{
    match node {
        DomNode::Document { children } => {
            assert(node@.children() =~= forest(children@));
        },
        DomNode::Element { children, .. } => {
            assert(node@.children() =~= forest(children@));
        },
        _ => {},
    }
}

} // verus!
