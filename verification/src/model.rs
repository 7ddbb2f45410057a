//! What a walk does, as mathematics.
//!
//! A walk visits the nodes of a tree in document order. What it has done so
//! far is a [`Walk`]: whether the article was found, the title, the tag names
//! to pass over, the text written, and whether the walk was given up. Each
//! function here takes the walk before a step and gives the walk after it.

use vstd::prelude::*;
use crate::dom::{Attr, Tree};
use crate::selector::Selector;
use crate::text::{decimal, has_word, parse_i32, trimmed, unbroken};

verus! {

/// Where a walk stands with respect to the article.
#[derive(Debug, Clone, Copy, PartialEq, Eq)]
pub enum State {
    /// Looking for the element that holds the article.
    Search,
    /// Inside the article.
    Article,
    /// Inside a `title` element that was met before the article.
    Title,
    /// Inside a `pre` element of the article.
    Pre,
}

/// How an element is treated, which its tag name decides.
#[derive(Debug, Clone, Copy, PartialEq, Eq)]
pub enum ElementKind {
    /// `p`.
    Paragraph,
    /// A tag of two characters that starts with `h`.
    Heading,
    /// `br`.
    LineBreak,
    /// `pre`.
    Preformatted,
    /// `ol`.
    OrderedList,
    /// `ul`.
    UnorderedList,
    /// `li`.
    ListItem,
    /// `table`.
    Table,
    /// `tr`.
    TableRow,
    /// `th` or `td`.
    TableCell,
    /// `title`.
    Title,
    /// Any other tag.
    Other,
}

/// The kind of the element with tag name `tag`.
pub open spec fn kind_of(tag: Seq<char>) -> ElementKind {
    if tag == "p"@ {
        ElementKind::Paragraph
    } else if tag.len() == 2 && tag[0] == 'h' {
        ElementKind::Heading
    } else if tag == "br"@ {
        ElementKind::LineBreak
    } else if tag == "pre"@ {
        ElementKind::Preformatted
    } else if tag == "ol"@ {
        ElementKind::OrderedList
    } else if tag == "ul"@ {
        ElementKind::UnorderedList
    } else if tag == "li"@ {
        ElementKind::ListItem
    } else if tag == "table"@ {
        ElementKind::Table
    } else if tag == "tr"@ {
        ElementKind::TableRow
    } else if tag == "th"@ || tag == "td"@ {
        ElementKind::TableCell
    } else if tag == "title"@ {
        ElementKind::Title
    } else {
        ElementKind::Other
    }
}

/// Whether some attribute has the name `name`.
pub open spec fn has_attribute(attributes: Seq<Attr>, name: Seq<char>) -> bool {
    exists|i: int| 0 <= i < attributes.len() && (#[trigger] attributes[i]).name == name
}

/// Whether some attribute has the name `name` and exactly the value `value`.
pub open spec fn has_value(attributes: Seq<Attr>, name: Seq<char>, value: Seq<char>) -> bool {
    exists|i: int|
        0 <= i < attributes.len() && (#[trigger] attributes[i]).name == name
            && attributes[i].value == value
}

/// Whether some attribute has the name `name` and a value with `word` among
/// the words that whitespace splits it into.
pub open spec fn has_word_in(attributes: Seq<Attr>, name: Seq<char>, word: Seq<char>) -> bool {
    exists|i: int|
        0 <= i < attributes.len() && (#[trigger] attributes[i]).name == name && has_word(
            attributes[i].value,
            word,
        )
}

/// Whether `selector` chooses the element with this tag name and these
/// attributes: by its tag name, by one of the words of a `class` attribute,
/// or by the whole value of an `id` attribute.
pub open spec fn selects(selector: Selector, tag: Seq<char>, attributes: Seq<Attr>) -> bool {
    match selector {
        Selector::Tag(name) => tag == name,
        Selector::Class(name) => has_word_in(attributes, "class"@, name),
        Selector::Id(name) => has_value(attributes, "id"@, name),
    }
}

/// Whether the element looks like an article where no selector is given: an
/// `article`, or a `div` whose whole `class` value is `post hentry` or
/// `post-content`.
pub open spec fn looks_like_article(tag: Seq<char>, attributes: Seq<Attr>) -> bool {
    tag == "article"@ || (tag == "div"@ && (has_value(attributes, "class"@, "post hentry"@)
        || has_value(attributes, "class"@, "post-content"@)))
}

/// Whether the element is where the article begins: what the selector
/// chooses, or, without a selector, what looks like an article.
pub open spec fn is_boundary(
    boundary: Option<Selector>,
    tag: Seq<char>,
    attributes: Seq<Attr>,
) -> bool {
    match boundary {
        Some(selector) => selects(selector, tag, attributes),
        None => looks_like_article(tag, attributes),
    }
}

/// Whether some `start` attribute does not write a 32-bit integer.
pub open spec fn malformed_start(attributes: Seq<Attr>) -> bool {
    exists|i: int|
        0 <= i < attributes.len() && (#[trigger] attributes[i]).name == "start"@ && parse_i32(
            attributes[i].value,
        ) is None
}

/// The number of the first item of an ordered list: what the last `start`
/// attribute writes, and 1 where there is none.
pub open spec fn list_start(attributes: Seq<Attr>) -> int
    decreases attributes.len(),
{
    if attributes.len() == 0 {
        1
    } else if attributes.last().name == "start"@ && parse_i32(attributes.last().value) is Some {
        parse_i32(attributes.last().value)->0
    } else {
        list_start(attributes.drop_last())
    }
}

/// What a walk has done so far.
pub struct Walk {
    /// Whether an element was met that begins the article.
    pub found_article: bool,
    /// The title that was read last; empty where none was.
    pub title: Seq<char>,
    /// The tag names that the walk passes over.
    pub ignore: Set<Seq<char>>,
    /// The text written so far.
    pub output: Seq<char>,
    /// Whether the walk was given up. Nothing changes after that.
    pub failed: bool,
}

impl Walk {
    /// The walk after `text` is written.
    pub open spec fn write(self, text: Seq<char>) -> Walk {
        if self.failed {
            self
        } else {
            Walk { output: self.output + text, ..self }
        }
    }

    /// The walk after a line break is written.
    pub open spec fn newline(self) -> Walk {
        self.write("\n"@)
    }

    /// The walk after the article is entered.
    pub open spec fn enter_article(self) -> Walk {
        Walk { found_article: true, ..self }
    }

    /// The walk after `text` is read as the title. From then on `head`
    /// elements are passed over.
    pub open spec fn capture_title(self, text: Seq<char>) -> Walk {
        Walk { title: trimmed(text), ignore: self.ignore.insert("head"@), ..self }
    }

    /// The walk, given up.
    pub open spec fn abort(self) -> Walk {
        Walk { failed: true, ..self }
    }
}

/// The state that a position is handled in: once the article is found,
/// nothing is searched any more, and what would be searched is rendered.
pub open spec fn effective(state: State, found_article: bool) -> State {
    if state == State::Search && found_article {
        State::Article
    } else {
        state
    }
}

/// The walk after a text node with this content, handled in `state`.
pub open spec fn visit_text(content: Seq<char>, state: State, walk: Walk) -> Walk {
    match state {
        State::Search => walk,
        State::Article => walk.write(unbroken(content)),
        State::Title => walk.capture_title(content),
        State::Pre => walk.write(content),
    }
}

/// The walk after `node` and everything below it, met in `state`.
pub open spec fn visit(node: Tree, state: State, boundary: Option<Selector>, walk: Walk) -> Walk
    decreases node, 0nat,
{
    if walk.failed {
        walk
    } else {
        match node {
            Tree::Document { children } => visit_children(
                children,
                children.len(),
                state,
                boundary,
                walk,
            ),
            Tree::Text { content } => visit_text(
                content,
                effective(state, walk.found_article),
                walk,
            ),
            Tree::Element { tag, attributes, children } => if walk.ignore.contains(tag) {
                walk
            } else {
                visit_element(
                    tag,
                    attributes,
                    children,
                    effective(state, walk.found_article),
                    boundary,
                    walk,
                )
            },
            Tree::Other => walk,
        }
    }
}

/// The walk after an element that is not passed over, handled in `state`.
pub open spec fn visit_element(
    tag: Seq<char>,
    attributes: Seq<Attr>,
    children: Seq<Tree>,
    state: State,
    boundary: Option<Selector>,
    walk: Walk,
) -> Walk
    decreases children, children.len() + 1,
{
    let n = children.len();
    match state {
        State::Search => if is_boundary(boundary, tag, attributes) {
            visit_children(children, n, State::Article, boundary, walk.enter_article())
        } else if kind_of(tag) is Title {
            visit_children(children, n, State::Title, boundary, walk)
        } else {
            visit_children(children, n, State::Search, boundary, walk)
        },
        State::Title => visit_children(children, n, State::Title, boundary, walk),
        State::Pre => if kind_of(tag) is LineBreak {
            walk.newline()
        } else {
            visit_children(children, n, State::Pre, boundary, walk)
        },
        State::Article => match kind_of(tag) {
            ElementKind::Paragraph | ElementKind::Heading => visit_children(
                children,
                n,
                State::Article,
                boundary,
                walk,
            ).newline(),
            ElementKind::LineBreak => walk.newline(),
            ElementKind::Preformatted => visit_children(
                children,
                n,
                State::Pre,
                boundary,
                walk,
            ).newline(),
            ElementKind::OrderedList => if malformed_start(attributes) {
                walk.abort()
            } else {
                ordered_items(
                    children,
                    n,
                    list_start(attributes),
                    has_attribute(attributes, "reversed"@),
                    boundary,
                    walk,
                ).0
            },
            ElementKind::UnorderedList => bullet_items(children, n, boundary, walk),
            ElementKind::Table => table_cells(children, n, boundary, walk),
            _ => visit_children(children, n, State::Article, boundary, walk),
        },
    }
}

/// The walk after the first `n` of `children`, each met in `state`.
pub open spec fn visit_children(
    children: Seq<Tree>,
    n: nat,
    state: State,
    boundary: Option<Selector>,
    walk: Walk,
) -> Walk
    decreases children, n,
{
    if n == 0 || n > children.len() {
        walk
    } else {
        visit(
            children[n - 1],
            state,
            boundary,
            visit_children(children, (n - 1) as nat, state, boundary, walk),
        )
    }
}

/// Whether `node` is rendered as an item of a list: an `li` element that is
/// not passed over.
pub open spec fn is_list_item(node: Tree, walk: Walk) -> bool {
    match node {
        Tree::Element { tag, .. } => !walk.failed && !walk.ignore.contains(tag) && kind_of(
            tag,
        ) is ListItem,
        _ => false,
    }
}

/// The walk after the first `n` children of an ordered list, and the number
/// of the next item. Each `li` child gives a line: its number, a dot and a
/// space, then what it holds. The numbers start at `next` and go down where
/// the list is reversed, up where it is not. Other children give nothing.
pub open spec fn ordered_items(
    children: Seq<Tree>,
    n: nat,
    next: int,
    reversed: bool,
    boundary: Option<Selector>,
    walk: Walk,
) -> (Walk, int)
    decreases children, n,
{
    if n == 0 || n > children.len() {
        (walk, next)
    } else {
        let (before, number) = ordered_items(
            children,
            (n - 1) as nat,
            next,
            reversed,
            boundary,
            walk,
        );
        if is_list_item(children[n - 1], before) {
            let inner = children[n - 1].children();
            (
                visit_children(
                    inner,
                    inner.len(),
                    State::Article,
                    boundary,
                    before.write(decimal(number) + ". "@),
                ).newline(),
                if reversed {
                    number - 1
                } else {
                    number + 1
                },
            )
        } else {
            (before, number)
        }
    }
}

/// The walk after the first `n` children of an unordered list. Each `li`
/// child gives a line: a bullet and a space, then what it holds. Other
/// children give nothing.
pub open spec fn bullet_items(
    children: Seq<Tree>,
    n: nat,
    boundary: Option<Selector>,
    walk: Walk,
) -> Walk
    decreases children, n,
{
    if n == 0 || n > children.len() {
        walk
    } else {
        let before = bullet_items(children, (n - 1) as nat, boundary, walk);
        if is_list_item(children[n - 1], before) {
            let inner = children[n - 1].children();
            visit_children(
                inner,
                inner.len(),
                State::Article,
                boundary,
                before.write("• "@),
            ).newline()
        } else {
            before
        }
    }
}

/// The walk after the first `n` of `children`, met inside a table. A row
/// gives what lies in it and then a line break. A cell gives a tab and then
/// what it holds. Any other element is looked into for rows and cells. Text
/// outside the cells gives nothing.
pub open spec fn table_cells(
    children: Seq<Tree>,
    n: nat,
    boundary: Option<Selector>,
    walk: Walk,
) -> Walk
    decreases children, n,
{
    if n == 0 || n > children.len() {
        walk
    } else {
        let before = table_cells(children, (n - 1) as nat, boundary, walk);
        match children[n - 1] {
            Tree::Element { tag, attributes, children: inner } => if before.failed
                || before.ignore.contains(tag) {
                before
            } else {
                match kind_of(tag) {
                    ElementKind::TableRow => table_cells(
                        inner,
                        inner.len(),
                        boundary,
                        before,
                    ).newline(),
                    ElementKind::TableCell => visit_children(
                        inner,
                        inner.len(),
                        State::Article,
                        boundary,
                        before.write("\t"@),
                    ),
                    _ => table_cells(inner, inner.len(), boundary, before),
                }
            },
            _ => before,
        }
    }
}

} // verus!
