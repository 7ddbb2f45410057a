//! What holds of every walk.

use vstd::prelude::*;
use crate::dom::{Attr, Tree};
use crate::model::{
    bullet_items, effective, has_attribute, is_list_item, list_start, ordered_items, table_cells,
    visit, visit_children, visit_element, State, Walk,
};
use crate::model::is_boundary;
use crate::extract::{extraction, start};
use crate::selector::Selector;
use crate::walker::{HtmlWalker, WalkError};

verus! {

/// Whether `after` is a walk that has found the article and has left the
/// title and the names to pass over as they were in `before`.
pub open spec fn settled(before: Walk, after: Walk) -> bool {
    &&& after.found_article
    &&& after.title == before.title
    &&& after.ignore == before.ignore
}

/// Once the article is found, it stays found through the visit of any node,
/// in any state. Outside a title, the visit leaves the title and the names
/// to pass over alone. And a node met in search of the article is rendered
/// as a part of it: nothing is held back any more.
pub proof fn lemma_visit_after_match(
    node: Tree,
    state: State,
    boundary: Option<Selector>,
    walk: Walk,
)
    requires
        walk.found_article,
    ensures
        visit(node, state, boundary, walk).found_article,
        state != State::Title ==> settled(walk, visit(node, state, boundary, walk)),
        visit(node, State::Search, boundary, walk) == visit(node, State::Article, boundary, walk),
    decreases node, 0nat,
{
    if !walk.failed {
        match node {
            Tree::Document { children } => {
                lemma_children_after_match(children, children.len(), state, boundary, walk);
            },
            Tree::Element { tag, attributes, children } => {
                if !walk.ignore.contains(tag) {
                    lemma_element_after_match(
                        tag,
                        attributes,
                        children,
                        effective(state, true),
                        boundary,
                        walk,
                    );
                }
            },
            _ => {},
        }
    }
}

/// The same for an element that is not passed over, handled in `state`.
pub proof fn lemma_element_after_match(
    tag: Seq<char>,
    attributes: Seq<Attr>,
    children: Seq<Tree>,
    state: State,
    boundary: Option<Selector>,
    walk: Walk,
)
    requires
        walk.found_article,
    ensures
        visit_element(tag, attributes, children, state, boundary, walk).found_article,
        state == State::Article || state == State::Pre ==> settled(
            walk,
            visit_element(tag, attributes, children, state, boundary, walk),
        ),
    decreases children, children.len() + 1,
{
    let n = children.len();
    lemma_children_after_match(children, n, State::Search, boundary, walk);
    lemma_children_after_match(children, n, State::Article, boundary, walk);
    lemma_children_after_match(children, n, State::Article, boundary, walk.enter_article());
    lemma_children_after_match(children, n, State::Title, boundary, walk);
    lemma_children_after_match(children, n, State::Pre, boundary, walk);
    lemma_bullets_after_match(children, n, boundary, walk);
    lemma_cells_after_match(children, n, boundary, walk);
    lemma_ordered_after_match(
        children,
        n,
        list_start(attributes),
        has_attribute(attributes, "reversed"@),
        boundary,
        walk,
    );
}

/// The same for the first `n` of `children`, each met in `state`.
pub proof fn lemma_children_after_match(
    children: Seq<Tree>,
    n: nat,
    state: State,
    boundary: Option<Selector>,
    walk: Walk,
)
    requires
        walk.found_article,
    ensures
        visit_children(children, n, state, boundary, walk).found_article,
        state != State::Title ==> settled(
            walk,
            visit_children(children, n, state, boundary, walk),
        ),
        visit_children(children, n, State::Search, boundary, walk) == visit_children(
            children,
            n,
            State::Article,
            boundary,
            walk,
        ),
    decreases children, n,
{
    if 0 < n <= children.len() {
        let m = (n - 1) as nat;
        lemma_children_after_match(children, m, state, boundary, walk);
        lemma_visit_after_match(
            children[n - 1],
            state,
            boundary,
            visit_children(children, m, state, boundary, walk),
        );
        lemma_children_after_match(children, m, State::Article, boundary, walk);
        lemma_visit_after_match(
            children[n - 1],
            State::Article,
            boundary,
            visit_children(children, m, State::Article, boundary, walk),
        );
    }
}

/// The same for the first `n` children of an ordered list.
pub proof fn lemma_ordered_after_match(
    children: Seq<Tree>,
    n: nat,
    next: int,
    reversed: bool,
    boundary: Option<Selector>,
    walk: Walk,
)
    requires
        walk.found_article,
    ensures
        settled(walk, ordered_items(children, n, next, reversed, boundary, walk).0),
    decreases children, n,
{
    if 0 < n <= children.len() {
        let m = (n - 1) as nat;
        lemma_ordered_after_match(children, m, next, reversed, boundary, walk);
        let (before, number) = ordered_items(children, m, next, reversed, boundary, walk);
        if is_list_item(children[n - 1], before) {
            let inner = children[n - 1].children();
            lemma_children_after_match(
                inner,
                inner.len(),
                State::Article,
                boundary,
                before.write(crate::text::decimal(number) + ". "@),
            );
        }
    }
}

/// The same for the first `n` children of an unordered list.
pub proof fn lemma_bullets_after_match(
    children: Seq<Tree>,
    n: nat,
    boundary: Option<Selector>,
    walk: Walk,
)
    requires
        walk.found_article,
    ensures
        settled(walk, bullet_items(children, n, boundary, walk)),
    decreases children, n,
{
    if 0 < n <= children.len() {
        let m = (n - 1) as nat;
        lemma_bullets_after_match(children, m, boundary, walk);
        let before = bullet_items(children, m, boundary, walk);
        if is_list_item(children[n - 1], before) {
            let inner = children[n - 1].children();
            lemma_children_after_match(
                inner,
                inner.len(),
                State::Article,
                boundary,
                before.write("• "@),
            );
        }
    }
}

/// The same for the first `n` of `children`, met inside a table.
pub proof fn lemma_cells_after_match(
    children: Seq<Tree>,
    n: nat,
    boundary: Option<Selector>,
    walk: Walk,
)
    requires
        walk.found_article,
    ensures
        settled(walk, table_cells(children, n, boundary, walk)),
    decreases children, n,
{
    if 0 < n <= children.len() {
        let m = (n - 1) as nat;
        lemma_cells_after_match(children, m, boundary, walk);
        let before = table_cells(children, m, boundary, walk);
        match children[n - 1] {
            Tree::Element { tag, attributes, children: inner } => {
                lemma_cells_after_match(inner, inner.len(), boundary, before);
                lemma_children_after_match(
                    inner,
                    inner.len(),
                    State::Article,
                    boundary,
                    before.write("\t"@),
                );
            },
            _ => {},
        }
    }
}

/// Below a title nothing is searched: whether the article is found is the
/// same after the visit as before. So a title is only ever read before the
/// article is found.
pub proof fn lemma_title_finds_nothing(node: Tree, boundary: Option<Selector>, walk: Walk)
    ensures
        visit(node, State::Title, boundary, walk).found_article == walk.found_article,
    decreases node, 0nat,
{
    if walk.found_article {
        lemma_visit_after_match(node, State::Title, boundary, walk);
    } else {
        match node {
            Tree::Document { children } => {
                lemma_titles_find_nothing(children, children.len(), boundary, walk);
            },
            Tree::Element { tag, attributes, children } => {
                lemma_titles_find_nothing(children, children.len(), boundary, walk);
            },
            _ => {},
        }
    }
}

/// The same for the first `n` of `children`.
pub proof fn lemma_titles_find_nothing(
    children: Seq<Tree>,
    n: nat,
    boundary: Option<Selector>,
    walk: Walk,
)
    ensures
        visit_children(children, n, State::Title, boundary, walk).found_article
            == walk.found_article,
    decreases children, n,
{
    if 0 < n <= children.len() {
        let m = (n - 1) as nat;
        lemma_titles_find_nothing(children, m, boundary, walk);
        lemma_title_finds_nothing(
            children[n - 1],
            boundary,
            visit_children(children, m, State::Title, boundary, walk),
        );
    }
}

/// Whether `node` or a node below it is an element where the article begins.
pub open spec fn holds_boundary(node: Tree, boundary: Option<Selector>) -> bool
    decreases node,
{
    match node {
        Tree::Document { children } => exists|i: int|
            0 <= i < children.len() && holds_boundary(#[trigger] children[i], boundary),
        Tree::Element { tag, attributes, children } => is_boundary(boundary, tag, attributes)
            || exists|i: int|
            0 <= i < children.len() && holds_boundary(#[trigger] children[i], boundary),
        _ => false,
    }
}

/// In a tree without an element where the article begins, a walk that
/// searches for the article, or reads a title, does not find it, writes
/// nothing, and is not given up.
pub proof fn lemma_no_boundary_no_article(
    node: Tree,
    state: State,
    boundary: Option<Selector>,
    walk: Walk,
)
    requires
        !holds_boundary(node, boundary),
        !walk.found_article,
        state == State::Search || state == State::Title,
    ensures
        !visit(node, state, boundary, walk).found_article,
        visit(node, state, boundary, walk).output == walk.output,
        visit(node, state, boundary, walk).failed == walk.failed,
    decreases node, 0nat,
{
    match node {
        Tree::Document { children } => {
            lemma_no_boundary_below(children, children.len(), state, boundary, walk);
        },
        Tree::Element { tag, attributes, children } => {
            lemma_no_boundary_below(children, children.len(), State::Search, boundary, walk);
            lemma_no_boundary_below(children, children.len(), State::Title, boundary, walk);
        },
        _ => {},
    }
}

/// The same for the first `n` of `children`, none of which holds an element
/// where the article begins.
pub proof fn lemma_no_boundary_below(
    children: Seq<Tree>,
    n: nat,
    state: State,
    boundary: Option<Selector>,
    walk: Walk,
)
    requires
        forall|i: int| 0 <= i < children.len() ==> !holds_boundary(#[trigger] children[i], boundary),
        !walk.found_article,
        state == State::Search || state == State::Title,
    ensures
        !visit_children(children, n, state, boundary, walk).found_article,
        visit_children(children, n, state, boundary, walk).output == walk.output,
        visit_children(children, n, state, boundary, walk).failed == walk.failed,
    decreases children, n,
{
    if 0 < n <= children.len() {
        let m = (n - 1) as nat;
        lemma_no_boundary_below(children, m, state, boundary, walk);
        lemma_no_boundary_no_article(
            children[n - 1],
            state,
            boundary,
            visit_children(children, m, state, boundary, walk),
        );
    }
}

/// A walk that starts with the article counted as found renders the whole
/// tree as the article: it ends as a walk would that met the root inside the
/// article, and it never reads a title.
pub proof fn lemma_seeded_walk_renders_all(node: Tree, boundary: Option<Selector>, walk: Walk)
    requires
        walk.found_article,
    ensures
        visit(node, State::Search, boundary, walk) == visit(node, State::Article, boundary, walk),
        settled(walk, visit(node, State::Search, boundary, walk)),
{
    lemma_visit_after_match(node, State::Search, boundary, walk);
}

/// An extraction that is not given up has an article: where the search
/// finds none, the whole document is one.
pub proof fn lemma_extraction_finds_article(
    tree: Tree,
    boundary: Option<Selector>,
    skip_head: bool,
)
    ensures
        extraction(tree, boundary, skip_head).failed || extraction(
            tree,
            boundary,
            skip_head,
        ).found_article,
{
    lemma_visit_after_match(tree, State::Search, boundary, start(true, true));
}

/// What a walk ends in depends on the tree, on how the article is known and
/// on what the walker held before, and on nothing else: of two walkers that
/// agree in these, both walks write the same text, read the same title,
/// agree on whether the article was found and on the names to pass over,
/// and either both are given up or neither is.
pub proof fn lemma_walk_is_deterministic(
    first: HtmlWalker,
    first_after: HtmlWalker,
    first_result: Result<(), WalkError>,
    second: HtmlWalker,
    second_after: HtmlWalker,
    second_result: Result<(), WalkError>,
)
    requires
        first.walked(&first_after, first_result),
        second.walked(&second_after, second_result),
        first.handle@ == second.handle@,
        first.boundary() == second.boundary(),
        first.progress() == second.progress(),
    ensures
        first_after.progress() == second_after.progress(),
        first_result is Err <==> second_result is Err,
{
}

} // verus!
