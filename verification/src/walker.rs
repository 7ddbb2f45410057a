//! The walker: one pass over a document tree that finds the article and
//! writes it out as text.

use vstd::prelude::*;
use vstd::string::*;
use crate::dom::{attrs_of, forest, lemma_children_view, Attribute, DomNode};
use crate::ignore::IgnoreSet;
use crate::model::{
    bullet_items, effective, has_attribute, has_value, has_word_in, is_boundary,
    kind_of, list_start, malformed_start, ordered_items, table_cells, visit, visit_children,
    visit_element, ElementKind, State, Walk,
};
use crate::selector::{selector_view, Selector, SimpleSelector};
use crate::text::{
    decimal, find_word_in_string, has_word, parse_i32, push_decimal, read_i32, replace_newlines, same_text,
    trim,
};

verus! {

/// Why a walk was given up.
#[derive(Debug, Clone, Copy, PartialEq, Eq)]
pub enum WalkError {
    /// An ordered list in the article has a `start` attribute that does not
    /// write a 32-bit integer.
    MalformedStart,
}

/// The kind of the element with tag name `tag`.
pub fn element_kind(tag: &str) -> (kind: ElementKind)
    ensures
        kind == kind_of(tag@),
{
    if same_text(tag, "p") {
        ElementKind::Paragraph
    } else if tag.unicode_len() == 2 && tag.get_char(0) == 'h' {
        ElementKind::Heading
    } else if same_text(tag, "br") {
        ElementKind::LineBreak
    } else if same_text(tag, "pre") {
        ElementKind::Preformatted
    } else if same_text(tag, "ol") {
        ElementKind::OrderedList
    } else if same_text(tag, "ul") {
        ElementKind::UnorderedList
    } else if same_text(tag, "li") {
        ElementKind::ListItem
    } else if same_text(tag, "table") {
        ElementKind::Table
    } else if same_text(tag, "tr") {
        ElementKind::TableRow
    } else if same_text(tag, "th") || same_text(tag, "td") {
        ElementKind::TableCell
    } else if same_text(tag, "title") {
        ElementKind::Title
    } else {
        ElementKind::Other
    }
}

/// The state that a position is handled in: the article itself, once it is
/// found, where it would else be searched for.
pub fn effective_state(state: State, found_article: bool) -> (handled: State)
    ensures
        handled == effective(state, found_article),
{
    match state {
        State::Search => if found_article {
            State::Article
        } else {
            State::Search
        },
        other => other,
    }
}

/// Whether some attribute named `name` has `value` among the words of its value.
pub fn find_attr(attrs: &Vec<Attribute>, name: &str, value: &str) -> (found: bool)
    ensures
        found == has_word_in(attrs_of(attrs@), name@, value@),
{
    let mut i: usize = 0;
    while i < attrs.len()
        invariant
            i <= attrs@.len(),
            forall|k: int|
                0 <= k < i ==> !((#[trigger] attrs_of(attrs@)[k]).name == name@ && has_word(
                    attrs_of(attrs@)[k].value,
                    value@,
                )),
        decreases attrs@.len() - i,
    {
        if same_text(attrs[i].name.as_str(), name) && find_word_in_string(
            attrs[i].value.as_str(),
            value,
        ) {
            assert(attrs_of(attrs@)[i as int].name == name@);
            return true;
        }
        i = i + 1;
    }
    false
}

/// Whether some attribute named `name` has exactly the value `value`.
pub fn find_attr_value(attrs: &Vec<Attribute>, name: &str, value: &str) -> (found: bool)
    ensures
        found == has_value(attrs_of(attrs@), name@, value@),
{
    let mut i: usize = 0;
    while i < attrs.len()
        invariant
            i <= attrs@.len(),
            forall|k: int|
                0 <= k < i ==> !((#[trigger] attrs_of(attrs@)[k]).name == name@ && attrs_of(
                    attrs@,
                )[k].value == value@),
        decreases attrs@.len() - i,
    {
        if same_text(attrs[i].name.as_str(), name) && same_text(attrs[i].value.as_str(), value) {
            assert(attrs_of(attrs@)[i as int].name == name@);
            return true;
        }
        i = i + 1;
    }
    false
}

/// Reads how an ordered list counts from its attributes: the number of its
/// first item, and whether it counts down. Fails where a `start` attribute
/// does not write a 32-bit integer.
pub fn list_numbering(attrs: &Vec<Attribute>) -> (numbering: Result<(i32, bool), WalkError>)
    ensures
        numbering is Err <==> malformed_start(attrs_of(attrs@)),
        numbering is Ok ==> numbering->Ok_0.0 == list_start(attrs_of(attrs@)),
        numbering is Ok ==> numbering->Ok_0.1 == has_attribute(attrs_of(attrs@), "reversed"@),
{
    let ghost all = attrs_of(attrs@);
    let mut start: i32 = 1;
    let mut reversed = false;
    let mut i: usize = 0;
    while i < attrs.len()
        invariant
            i <= attrs@.len(),
            all == attrs_of(attrs@),
            !malformed_start(all.take(i as int)),
            start == list_start(all.take(i as int)),
            reversed == has_attribute(all.take(i as int), "reversed"@),
        decreases attrs@.len() - i,
    {
        let ghost seen = all.take(i as int);
        let ghost more = all.take(i + 1);
        assert(more.drop_last() =~= seen);
        assert(more.last() == all[i as int]);
        assert(all[i as int].name == attrs@[i as int].name@);
        assert(all[i as int].value == attrs@[i as int].value@);
        if same_text(attrs[i].name.as_str(), "reversed") {
            reversed = true;
            proof {
                reveal_strlit("reversed");
                reveal_strlit("start");
                assert("reversed"@.len() != "start"@.len());
            }
            assert(more[i as int].name == "reversed"@);
        } else if same_text(attrs[i].name.as_str(), "start") {
            match read_i32(attrs[i].value.as_str()) {
                Some(v) => {
                    start = v;
                },
                None => {
                    assert(malformed_start(all));
                    return Err(WalkError::MalformedStart);
                },
            }
        }
        proof {
            if has_attribute(more, "reversed"@) {
                let k = choose|k: int| 0 <= k < more.len() && (#[trigger] more[k]).name == "reversed"@;
                if k < i {
                    assert(seen[k].name == "reversed"@);
                }
            }
            if has_attribute(seen, "reversed"@) {
                let k = choose|k: int| 0 <= k < seen.len() && (#[trigger] seen[k]).name == "reversed"@;
                assert(more[k].name == "reversed"@);
            }
            if malformed_start(more) {
                let k = choose|k: int|
                    0 <= k < more.len() && (#[trigger] more[k]).name == "start"@ && parse_i32(
                        more[k].value,
                    ) is None;
                if k < i {
                    assert(seen[k].name == "start"@);
                }
            }
        }
        i = i + 1;
    }
    assert(all.take(all.len() as int) =~= all);
    Ok((start, reversed))
}

/// The tag names that every walk passes over from the start.
pub open spec fn default_ignore() -> Set<Seq<char>> {
    Set::<Seq<char>>::empty().insert("link"@).insert("meta"@).insert("script"@).insert("style"@)
}

/// One walk over a document: the tree it reads, the text it writes to, how it
/// knows the article, and what it has found so far.
pub struct HtmlWalker<'a> {
    /// Whether an element was met that begins the article. Set before a walk,
    /// it makes the whole document the article.
    pub found_article: bool,
    /// The title that was read last; empty where none was.
    pub title: String,
    /// The tag names that the walk passes over.
    pub ignore_elements: IgnoreSet,
    /// The root of the tree.
    pub handle: &'a DomNode,
    /// Where the text goes.
    pub buffer: &'a mut String,
    /// How the article is known; without a selector, by its looks.
    pub selector: Option<SimpleSelector>,
}

impl<'a> HtmlWalker<'a> {
    /// What the walker has done so far.
    pub open spec fn progress(&self) -> Walk {
        Walk {
            found_article: self.found_article,
            title: self.title@,
            ignore: self.ignore_elements@,
            output: self.buffer@,
            failed: false,
        }
    }

    /// How the walker knows the article.
    pub open spec fn boundary(&self) -> Option<Selector> {
        selector_view(self.selector)
    }

    /// Whether this walker is `before` after steps that lead to `walk`, with
    /// `result` telling whether the walk was given up: the same tree and the
    /// same selector, and in the fields what `walk` says.
    pub open spec fn follows(&self, before: &Self, walk: Walk, result: Result<(), WalkError>) -> bool {
        &&& self.handle == before.handle
        &&& self.selector == before.selector
        &&& self.found_article == walk.found_article
        &&& self.title@ == walk.title
        &&& self.ignore_elements@ == walk.ignore
        &&& self.buffer@ == walk.output
        &&& result is Err <==> walk.failed
    }

    /// Whether `after` is this walker after a walk from the root of its tree
    /// that ended with `result`.
    pub open spec fn walked(&self, after: &Self, result: Result<(), WalkError>) -> bool {
        after.follows(
            self,
            visit(self.handle@, State::Search, self.boundary(), self.progress()),
            result,
        )
    }

    /// A walker over the tree at `handle` that writes to `buffer` and takes
    /// the element that `selector` chooses for the article. It passes over
    /// `link`, `meta`, `script` and `style` elements.
    pub fn new(handle: &'a DomNode, buffer: &'a mut String, selector: SimpleSelector) -> (walker: Self)
        ensures
            walker.handle == handle,
            walker.selector == Some(selector),
            !walker.found_article,
            walker.title@ == Seq::<char>::empty(),
            walker.ignore_elements@ == default_ignore(),
            *walker.buffer == *old(buffer),
            *final(walker.buffer) == *final(buffer),
    {
        Self::with_boundary(handle, buffer, Some(selector))
    }

    /// A walker like that of [`HtmlWalker::new`], but without a selector: it
    /// takes for the article the first element that looks like one.
    pub fn heuristic(handle: &'a DomNode, buffer: &'a mut String) -> (walker: Self)
        ensures
            walker.handle == handle,
            walker.selector is None,
            !walker.found_article,
            walker.title@ == Seq::<char>::empty(),
            walker.ignore_elements@ == default_ignore(),
            *walker.buffer == *old(buffer),
            *final(walker.buffer) == *final(buffer),
    {
        Self::with_boundary(handle, buffer, None)
    }

    /// A walker with the selector `selector`, or without one.
    pub fn with_boundary(
        handle: &'a DomNode,
        buffer: &'a mut String,
        selector: Option<SimpleSelector>,
    ) -> (walker: Self)
        ensures
            walker.handle == handle,
            walker.selector == selector,
            !walker.found_article,
            walker.title@ == Seq::<char>::empty(),
            walker.ignore_elements@ == default_ignore(),
            *walker.buffer == *old(buffer),
            *final(walker.buffer) == *final(buffer),
    {
        let mut ignore_elements = IgnoreSet::new();
        let title = String::new();
        ignore_elements.insert(String::from_str("link"));
        ignore_elements.insert(String::from_str("meta"));
        ignore_elements.insert(String::from_str("script"));
        ignore_elements.insert(String::from_str("style"));
        HtmlWalker { found_article: false, title, ignore_elements, handle, buffer, selector }
    }

    /// Walks the tree from its root, searching for the article.
    pub fn walk(&mut self) -> (result: Result<(), WalkError>)
        ensures
            old(self).walked(final(self), result),
            *final(final(self).buffer) == *final(old(self).buffer),
    {
        let root = self.handle;
        self.visit(root, State::Search)
    }

    /// Visits each of `children` in turn, in state `e`.
    fn walk_children(&mut self, children: &Vec<DomNode>, e: State) -> (result: Result<(), WalkError>)
        ensures
            final(self).follows(
                old(self),
                visit_children(
                    forest(children@),
                    children@.len(),
                    e,
                    old(self).boundary(),
                    old(self).progress(),
                ),
                result,
            ),
            *final(final(self).buffer) == *final(old(self).buffer),
        decreases children, 0nat,
    {
        let ghost trees = forest(children@);
        let ghost start = self.progress();
        let mut i: usize = 0;
        while i < children.len()
            invariant
                i <= children@.len(),
                trees == forest(children@),
                start == old(self).progress(),
                self.follows(
                    old(self),
                    visit_children(trees, i as nat, e, old(self).boundary(), start),
                    Ok(()),
                ),
                *final(self.buffer) == *final(old(self).buffer),
            decreases children@.len() - i,
        {
            let result = self.visit(&children[i], e);
            if result.is_err() {
                proof {
                    lemma_failed_children(
                        trees,
                        (i + 1) as nat,
                        children@.len(),
                        e,
                        old(self).boundary(),
                        start,
                    );
                }
                return result;
            }
            i = i + 1;
        }
        Ok(())
    }

    /// Visits `node` and everything below it, in state `e`.
    fn visit(&mut self, node: &DomNode, e: State) -> (result: Result<(), WalkError>)
        ensures
            final(self).follows(
                old(self),
                visit(node@, e, old(self).boundary(), old(self).progress()),
                result,
            ),
            *final(final(self).buffer) == *final(old(self).buffer),
        decreases node, 0nat,
    {
        proof {
            lemma_children_view(*node);
        }
        match node {
            DomNode::Document { children } => self.walk_children(children, e),
            DomNode::Text { content } => {
                match effective_state(e, self.found_article) {
                    State::Article => {
                        let text = replace_newlines(content.as_str());
                        self.buffer.append(text.as_str());
                    },
                    State::Title => {
                        self.title = trim(content.as_str());
                        self.ignore_elements.insert(String::from_str("head"));
                    },
                    State::Pre => {
                        self.buffer.append(content.as_str());
                    },
                    State::Search => {},
                }
                Ok(())
            },
            DomNode::Element { tag, attributes, children } => {
                self.handle_element(tag.as_str(), attributes, children, e)
            },
            DomNode::Other => Ok(()),
        }
    }

    /// Handles an element with tag name `name`, met in `state`: nothing where
    /// the name is one to pass over; else what the state and the kind of the
    /// element ask for.
    fn handle_element(
        &mut self,
        name: &str,
        attrs: &Vec<Attribute>,
        children: &Vec<DomNode>,
        state: State,
    ) -> (result: Result<(), WalkError>)
        ensures
            final(self).follows(
                old(self),
                if old(self).progress().ignore.contains(name@) {
                    old(self).progress()
                } else {
                    visit_element(
                        name@,
                        attrs_of(attrs@),
                        forest(children@),
                        effective(state, old(self).found_article),
                        old(self).boundary(),
                        old(self).progress(),
                    )
                },
                result,
            ),
            *final(final(self).buffer) == *final(old(self).buffer),
        decreases children, 2nat,
    {
        if self.ignore_elements.contains(name) {
            return Ok(());
        }
        match effective_state(state, self.found_article) {
            State::Article => match element_kind(name) {
                ElementKind::Paragraph | ElementKind::Heading => {
                    self.walk_children(children, State::Article)?;
                    self.buffer.append("\n");
                    Ok(())
                },
                ElementKind::LineBreak => {
                    self.buffer.append("\n");
                    Ok(())
                },
                ElementKind::Preformatted => {
                    self.print_pre(children)?;
                    self.buffer.append("\n");
                    Ok(())
                },
                ElementKind::OrderedList => {
                    let (start, reversed) = list_numbering(attrs)?;
                    self.print_ol(children, start, reversed)
                },
                ElementKind::UnorderedList => self.print_ul(children),
                ElementKind::Table => self.print_table(children),
                _ => self.walk_children(children, State::Article),
            },
            State::Search => {
                if self.is_article(name, attrs) {
                    self.found_article = true;
                    self.walk_children(children, State::Article)
                } else {
                    match element_kind(name) {
                        ElementKind::Title => self.walk_children(children, State::Title),
                        _ => self.walk_children(children, State::Search),
                    }
                }
            },
            State::Title => self.walk_children(children, State::Title),
            State::Pre => match element_kind(name) {
                ElementKind::LineBreak => {
                    self.buffer.append("\n");
                    Ok(())
                },
                _ => self.walk_children(children, State::Pre),
            },
        }
    }

    /// Whether the element with tag name `name` and attributes `attrs` is
    /// where the article begins.
    fn is_article(&self, name: &str, attrs: &Vec<Attribute>) -> (yes: bool)
        ensures
            yes == is_boundary(self.boundary(), name@, attrs_of(attrs@)),
    {
        match &self.selector {
            Some(SimpleSelector::Id(e)) => find_attr_value(attrs, "id", e.as_str()),
            Some(SimpleSelector::Class(e)) => find_attr(attrs, "class", e.as_str()),
            Some(SimpleSelector::Tag(e)) => same_text(name, e.as_str()),
            None => same_text(name, "article") || (same_text(name, "div") && (find_attr_value(
                attrs,
                "class",
                "post hentry",
            ) || find_attr_value(attrs, "class", "post-content"))),
        }
    }

    /// Writes what a `pre` element holds: its text as it stands.
    fn print_pre(&mut self, children: &Vec<DomNode>) -> (result: Result<(), WalkError>)
        ensures
            final(self).follows(
                old(self),
                visit_children(
                    forest(children@),
                    children@.len(),
                    State::Pre,
                    old(self).boundary(),
                    old(self).progress(),
                ),
                result,
            ),
            *final(final(self).buffer) == *final(old(self).buffer),
        decreases children, 1nat,
    {
        self.walk_children(children, State::Pre)
    }

    /// Writes the rows and cells below a `table` element: a tab before each
    /// cell, a line break after each row.
    fn print_table(&mut self, children: &Vec<DomNode>) -> (result: Result<(), WalkError>)
        ensures
            final(self).follows(
                old(self),
                table_cells(
                    forest(children@),
                    children@.len(),
                    old(self).boundary(),
                    old(self).progress(),
                ),
                result,
            ),
            *final(final(self).buffer) == *final(old(self).buffer),
        decreases children, 1nat,
    {
        let ghost trees = forest(children@);
        let ghost start = self.progress();
        let mut i: usize = 0;
        while i < children.len()
            invariant
                i <= children@.len(),
                trees == forest(children@),
                start == old(self).progress(),
                self.follows(
                    old(self),
                    table_cells(trees, i as nat, old(self).boundary(), start),
                    Ok(()),
                ),
                *final(self.buffer) == *final(old(self).buffer),
            decreases children@.len() - i,
        {
            proof {
                lemma_children_view(children@[i as int]);
            }
            match &children[i] {
                DomNode::Element { tag, attributes: _, children: inner } => {
                    if !self.ignore_elements.contains(tag.as_str()) {
                        let result = match element_kind(tag.as_str()) {
                            ElementKind::TableRow => {
                                let row = self.print_table(inner);
                                if row.is_ok() {
                                    self.buffer.append("\n");
                                }
                                row
                            },
                            ElementKind::TableCell => {
                                self.buffer.append("\t");
                                self.walk_children(inner, State::Article)
                            },
                            _ => self.print_table(inner),
                        };
                        if result.is_err() {
                            proof {
                                lemma_failed_cells(
                                    trees,
                                    (i + 1) as nat,
                                    children@.len(),
                                    old(self).boundary(),
                                    start,
                                );
                            }
                            return result;
                        }
                    }
                },
                _ => {},
            }
            i = i + 1;
        }
        Ok(())
    }

    /// Writes the items of a `ul` element, each on a line after a bullet.
    fn print_ul(&mut self, children: &Vec<DomNode>) -> (result: Result<(), WalkError>)
        ensures
            final(self).follows(
                old(self),
                bullet_items(
                    forest(children@),
                    children@.len(),
                    old(self).boundary(),
                    old(self).progress(),
                ),
                result,
            ),
            *final(final(self).buffer) == *final(old(self).buffer),
        decreases children, 1nat,
    {
        let ghost trees = forest(children@);
        let ghost start = self.progress();
        let mut i: usize = 0;
        while i < children.len()
            invariant
                i <= children@.len(),
                trees == forest(children@),
                start == old(self).progress(),
                self.follows(
                    old(self),
                    bullet_items(trees, i as nat, old(self).boundary(), start),
                    Ok(()),
                ),
                *final(self.buffer) == *final(old(self).buffer),
            decreases children@.len() - i,
        {
            proof {
                lemma_children_view(children@[i as int]);
            }
            match &children[i] {
                DomNode::Element { tag, attributes: _, children: inner } => {
                    if !self.ignore_elements.contains(tag.as_str()) && matches!(
                        element_kind(tag.as_str()),
                        ElementKind::ListItem
                    ) {
                        self.buffer.append("• ");
                        let result = self.walk_children(inner, State::Article);
                        if result.is_err() {
                            proof {
                                lemma_failed_bullets(
                                    trees,
                                    (i + 1) as nat,
                                    children@.len(),
                                    old(self).boundary(),
                                    start,
                                );
                            }
                            return result;
                        }
                        self.buffer.append("\n");
                    }
                },
                _ => {},
            }
            i = i + 1;
        }
        Ok(())
    }

    /// Writes the items of an `ol` element, each on a line after its number.
    /// The numbers begin at `start` and go down where `reversed` is set, up
    /// where it is not.
    fn print_ol(&mut self, children: &Vec<DomNode>, start: i32, reversed: bool) -> (result: Result<
        (),
        WalkError,
    >)
        ensures
            final(self).follows(
                old(self),
                ordered_items(
                    forest(children@),
                    children@.len(),
                    start as int,
                    reversed,
                    old(self).boundary(),
                    old(self).progress(),
                ).0,
                result,
            ),
            *final(final(self).buffer) == *final(old(self).buffer),
        decreases children, 1nat,
    {
        let ghost trees = forest(children@);
        let ghost begin = self.progress();
        let mut pos: i128 = start as i128;
        let mut i: usize = 0;
        while i < children.len()
            invariant
                i <= children@.len(),
                trees == forest(children@),
                begin == old(self).progress(),
                start - i <= pos <= start + i,
                self.follows(
                    old(self),
                    ordered_items(
                        trees,
                        i as nat,
                        start as int,
                        reversed,
                        old(self).boundary(),
                        begin,
                    ).0,
                    Ok(()),
                ),
                *final(self.buffer) == *final(old(self).buffer),
                pos == ordered_items(
                    trees,
                    i as nat,
                    start as int,
                    reversed,
                    old(self).boundary(),
                    begin,
                ).1,
            decreases children@.len() - i,
        {
            proof {
                lemma_children_view(children@[i as int]);
            }
            match &children[i] {
                DomNode::Element { tag, attributes: _, children: inner } => {
                    if !self.ignore_elements.contains(tag.as_str()) && matches!(
                        element_kind(tag.as_str()),
                        ElementKind::ListItem
                    ) {
                        let ghost before = self.buffer@;
                        push_decimal(self.buffer, pos);
                        self.buffer.append(". ");
                        assert(self.buffer@ =~= before + (decimal(pos as int) + ". "@));
                        let result = self.walk_children(inner, State::Article);
                        if result.is_err() {
                            proof {
                                lemma_failed_ordered(
                                    trees,
                                    (i + 1) as nat,
                                    children@.len(),
                                    start as int,
                                    reversed,
                                    old(self).boundary(),
                                    begin,
                                );
                            }
                            return result;
                        }
                        self.buffer.append("\n");
                        if reversed {
                            pos = pos - 1;
                        } else {
                            pos = pos + 1;
                        }
                    }
                },
                _ => {},
            }
            i = i + 1;
        }
        Ok(())
    }
}

/// Once a walk over children is given up, the children that follow change nothing.
pub proof fn lemma_failed_children(
    children: Seq<crate::dom::Tree>,
    k: nat,
    n: nat,
    state: State,
    boundary: Option<Selector>,
    walk: Walk,
)
    requires
        k <= n <= children.len(),
        visit_children(children, k, state, boundary, walk).failed,
    ensures
        visit_children(children, n, state, boundary, walk) == visit_children(
            children,
            k,
            state,
            boundary,
            walk,
        ),
    decreases n,
{
    if k < n {
        lemma_failed_children(children, k, (n - 1) as nat, state, boundary, walk);
        let before = visit_children(children, (n - 1) as nat, state, boundary, walk);
        assert(visit(children[n - 1], state, boundary, before) == before);
    }
}

/// Once a walk over the items of an unordered list is given up, the
/// children that follow change nothing.
pub proof fn lemma_failed_bullets(
    children: Seq<crate::dom::Tree>,
    k: nat,
    n: nat,
    boundary: Option<Selector>,
    walk: Walk,
)
    requires
        k <= n <= children.len(),
        bullet_items(children, k, boundary, walk).failed,
    ensures
        bullet_items(children, n, boundary, walk) == bullet_items(children, k, boundary, walk),
    decreases n,
{
    if k < n {
        lemma_failed_bullets(children, k, (n - 1) as nat, boundary, walk);
    }
}

/// Once a walk over the items of an ordered list is given up, the children
/// that follow change nothing.
pub proof fn lemma_failed_ordered(
    children: Seq<crate::dom::Tree>,
    k: nat,
    n: nat,
    next: int,
    reversed: bool,
    boundary: Option<Selector>,
    walk: Walk,
)
    requires
        k <= n <= children.len(),
        ordered_items(children, k, next, reversed, boundary, walk).0.failed,
    ensures
        ordered_items(children, n, next, reversed, boundary, walk) == ordered_items(
            children,
            k,
            next,
            reversed,
            boundary,
            walk,
        ),
    decreases n,
{
    if k < n {
        lemma_failed_ordered(children, k, (n - 1) as nat, next, reversed, boundary, walk);
    }
}

/// Once a walk over the rows and cells of a table is given up, the children
/// that follow change nothing.
pub proof fn lemma_failed_cells(
    children: Seq<crate::dom::Tree>,
    k: nat,
    n: nat,
    boundary: Option<Selector>,
    walk: Walk,
)
    requires
        k <= n <= children.len(),
        table_cells(children, k, boundary, walk).failed,
    ensures
        table_cells(children, n, boundary, walk) == table_cells(children, k, boundary, walk),
    decreases n,
{
    if k < n {
        lemma_failed_cells(children, k, (n - 1) as nat, boundary, walk);
    }
}

} // verus!
