use extract_article::{
    parse_document, render, Article, Attribute, DomNode, HtmlWalker, SimpleSelector, WalkError,
};

fn tag(name: &str) -> Option<SimpleSelector> {
    Some(SimpleSelector::Tag(name.to_string()))
}

fn walk(html: &str, selector: Option<SimpleSelector>) -> Article {
    let tree = parse_document(html).expect("a short document");
    render(&tree, selector, false, false).expect("a walk that is not given up")
}

fn article(html: &str) -> String {
    let found = walk(html, tag("article"));
    assert!(found.found_article);
    found.text
}

fn element(name: &str, children: Vec<DomNode>) -> DomNode {
    DomNode::element(name, Vec::new(), children)
}

fn text(content: &str) -> DomNode {
    DomNode::text(content)
}

fn in_article(children: Vec<DomNode>) -> String {
    let tree = DomNode::document(vec![element("article", children)]);
    render(&tree, tag("article"), false, false).expect("a walk that is not given up").text
}

#[test]
fn paragraphs_become_lines() {
    assert_eq!(article("<article><p>Hello</p><p>World</p></article>"), "Hello\nWorld\n");
}

#[test]
fn reversed_list_counts_down_from_start() {
    assert_eq!(
        article("<article><ol start=\"3\" reversed><li>a</li><li>b</li></ol></article>"),
        "3. a\n2. b\n"
    );
}

#[test]
fn table_cells_follow_tabs() {
    assert_eq!(
        article("<article><table><tr><td>x</td><td>y</td></tr></table></article>"),
        "\tx\ty\n"
    );
}

#[test]
fn title_before_the_article_is_captured() {
    let found = walk("<title>My Post</title><article><p>Body</p></article>", tag("article"));
    assert_eq!(found.title, "My Post");
    assert_eq!(found.text, "Body\n");
    assert!(found.found_article);
}

#[test]
fn title_is_trimmed() {
    let found = walk("<title>\n  My Post \t</title><article></article>", tag("article"));
    assert_eq!(found.title, "My Post");
}

#[test]
fn title_after_the_article_is_text() {
    let tree = DomNode::document(vec![
        element("article", vec![text("a")]),
        element("title", vec![text(" late ")]),
    ]);
    let found = render(&tree, tag("article"), false, false).unwrap();
    assert_eq!(found.title, "");
    assert_eq!(found.text, "a late ");
}

#[test]
fn no_title_is_read_below_a_skipped_head() {
    let tree = parse_document("<title>My Post</title><article><p>Body</p></article>").unwrap();
    let found = render(&tree, tag("article"), true, false).unwrap();
    assert_eq!(found.title, "");
    assert_eq!(found.text, "Body\n");
}

#[test]
fn ordered_list_starts_at_one() {
    assert_eq!(article("<article><ol><li>a</li><li>b</li><li>c</li></ol></article>"), "1. a\n2. b\n3. c\n");
}

#[test]
fn ordered_list_may_pass_zero() {
    assert_eq!(
        article("<article><ol start=\"1\" reversed><li>a</li><li>b</li><li>c</li></ol></article>"),
        "1. a\n0. b\n-1. c\n"
    );
    assert_eq!(article("<article><ol start=\"-2\"><li>a</li><li>b</li></ol></article>"), "-2. a\n-1. b\n");
}

#[test]
fn ordered_list_counts_beyond_32_bits() {
    assert_eq!(
        article("<article><ol start=\"2147483647\"><li>a</li><li>b</li></ol></article>"),
        "2147483647. a\n2147483648. b\n"
    );
    assert_eq!(
        article("<article><ol start=\"-2147483648\" reversed><li>a</li><li>b</li></ol></article>"),
        "-2147483648. a\n-2147483649. b\n"
    );
}

#[test]
fn malformed_start_gives_the_walk_up() {
    for start in ["x", "", "1.5", "2147483648", " 3"] {
        let html = format!("<article><p>a</p><ol start=\"{}\"><li>b</li></ol><p>c</p></article>", start);
        let tree = parse_document(&html).unwrap();
        assert_eq!(render(&tree, tag("article"), false, false), Err(WalkError::MalformedStart));
    }
}

#[test]
fn malformed_start_outside_the_article_is_not_read() {
    let found = walk("<ol start=\"x\"><li>b</li></ol><article><p>a</p></article>", tag("article"));
    assert_eq!(found.text, "a\n");
}

#[test]
fn the_buffer_holds_what_was_written_before_the_walk_was_given_up() {
    let tree = parse_document("<article><p>a</p><ol start=\"x\"><li>b</li></ol></article>").unwrap();
    let mut buffer = String::from("> ");
    let mut walker = HtmlWalker::new(&tree, &mut buffer, SimpleSelector::Tag("article".to_string()));
    assert_eq!(walker.walk(), Err(WalkError::MalformedStart));
    assert!(walker.found_article);
    assert_eq!(buffer, "> a\n");
}

#[test]
fn the_last_start_attribute_counts() {
    let list = DomNode::element(
        "ol",
        vec![Attribute::new("start", "5"), Attribute::new("reversed", ""), Attribute::new("start", "9")],
        vec![element("li", vec![text("a")]), element("li", vec![text("b")])],
    );
    assert_eq!(in_article(vec![list]), "9. a\n8. b\n");
}

#[test]
fn unordered_list_has_bullets() {
    assert_eq!(article("<article><ul><li>a</li><li>b</li></ul></article>"), "• a\n• b\n");
}

#[test]
fn only_items_of_a_list_are_rendered() {
    let children = vec![text("x"), element("li", vec![text("a")]), element("p", vec![text("y")]), element("li", vec![])];
    assert_eq!(in_article(vec![element("ul", children)]), "• a\n• \n");
    let children = vec![text("x"), element("li", vec![text("a")]), element("p", vec![text("y")]), element("li", vec![])];
    assert_eq!(in_article(vec![element("ol", children)]), "1. a\n2. \n");
}

#[test]
fn lists_nest() {
    assert_eq!(
        article("<article><ul><li>a<ol><li>b</li></ol></li><li>c</li></ul></article>"),
        "• a1. b\n\n• c\n"
    );
}

#[test]
fn table_rows_end_lines() {
    assert_eq!(
        article("<article><table><thead><tr><th>h</th><th>k</th></tr></thead><tbody><tr><td>x</td><td>y</td></tr></tbody></table></article>"),
        "\th\tk\n\tx\ty\n"
    );
}

#[test]
fn text_outside_the_cells_of_a_table_is_dropped() {
    let row = element("tr", vec![text("r"), element("td", vec![text("x")]), element("span", vec![text("s")])]);
    let table = element("table", vec![text("t"), element("caption", vec![text("c")]), row]);
    assert_eq!(in_article(vec![table]), "\tx\n");
}

#[test]
fn a_cell_is_rendered_as_a_part_of_the_article() {
    let cell = element("td", vec![element("p", vec![text("x")]), element("ul", vec![element("li", vec![text("i")])])]);
    let table = element("table", vec![element("tr", vec![cell])]);
    assert_eq!(in_article(vec![table]), "\tx\n• i\n\n");
}

#[test]
fn headings_are_lines() {
    assert_eq!(article("<article><h1>One</h1><h2>Two</h2><p>x</p></article>"), "One\nTwo\nx\n");
}

#[test]
fn any_tag_of_two_characters_from_h_is_a_line() {
    assert_eq!(in_article(vec![element("hr", vec![]), element("hx", vec![text("a")])]), "\na\n");
    assert_eq!(in_article(vec![element("h", vec![text("a")]), element("h10", vec![text("b")])]), "ab");
}

#[test]
fn line_break_element() {
    assert_eq!(article("<article>a<br>b</article>"), "a\nb");
}

#[test]
fn line_breaks_in_text_become_spaces() {
    assert_eq!(article("<article><p>a\nb\n</p></article>"), "a b \n");
}

#[test]
fn text_is_written_as_it_stands() {
    assert_eq!(article("<article> <p> a </p> </article>"), "  a \n ");
}

#[test]
fn preformatted_text_keeps_its_line_breaks() {
    assert_eq!(article("<article><pre>a\n  b<br>c <b>d\ne</b></pre></article>"), "a\n  b\nc d\ne\n");
}

#[test]
fn other_elements_are_looked_through() {
    assert_eq!(article("<article><div><span>a</span><em>b</em></div><p><a href=\"#\">c</a></p></article>"), "abc\n");
}

#[test]
fn ignored_elements_are_passed_over() {
    assert_eq!(
        article("<article><script>s</script><p>a<style>t</style></p><link><meta></article>"),
        "a\n"
    );
}

#[test]
fn an_ignored_element_is_never_the_article() {
    let found = walk("<body><script class=\"x\">a</script><p class=\"x\">b</p></body>", Some(SimpleSelector::Class("x".to_string())));
    assert_eq!(found.text, "b");
}

#[test]
fn names_added_to_the_ignore_set_are_passed_over() {
    let tree = parse_document("<article><p>a</p><aside>b</aside><ul><li>c</li></ul></article>").unwrap();
    let mut buffer = String::new();
    let mut walker = HtmlWalker::new(&tree, &mut buffer, SimpleSelector::Tag("article".to_string()));
    walker.ignore_elements.insert("aside".to_string());
    walker.ignore_elements.insert("li".to_string());
    walker.walk().unwrap();
    assert_eq!(buffer, "a\n");
}

#[test]
fn comments_give_nothing() {
    assert_eq!(article("<!doctype html><article><!-- c --><p>a<!-- d --></p></article>"), "a\n");
}

#[test]
fn nothing_before_the_article_is_written() {
    assert_eq!(article("<p>before</p><div>x<article><p>a</p></article></div>"), "a\n");
}

#[test]
fn what_follows_the_article_is_written_too() {
    assert_eq!(article("<p>before</p><article><p>a</p></article><p>b</p>tail<article>c</article>"), "a\nb\ntailc");
}

#[test]
fn without_a_boundary_nothing_is_found() {
    let found = walk("<title>T</title><p>Hi</p>", tag("article"));
    assert!(!found.found_article);
    assert_eq!(found.text, "");
    assert_eq!(found.title, "T");
}

#[test]
fn a_seeded_walk_renders_the_whole_body() {
    let tree = parse_document("<title>T</title><p>Hi</p><ul><li>x</li></ul>").unwrap();
    let found = render(&tree, tag("article"), true, true).unwrap();
    assert!(found.found_article);
    assert_eq!(found.text, "Hi\n• x\n");
    assert_eq!(found.title, "");
}

#[test]
fn a_seeded_walker_renders_from_the_root() {
    let tree = DomNode::document(vec![text("a"), element("p", vec![text("b")])]);
    let mut buffer = String::new();
    let mut walker = HtmlWalker::new(&tree, &mut buffer, SimpleSelector::Tag("article".to_string()));
    walker.found_article = true;
    walker.walk().unwrap();
    assert!(walker.found_article);
    assert_eq!(buffer, "ab\n");
}

#[test]
fn the_walker_appends_to_its_buffer() {
    let tree = parse_document("<article><p>a</p></article>").unwrap();
    let mut buffer = String::from("kept\n");
    let mut walker = HtmlWalker::new(&tree, &mut buffer, SimpleSelector::Tag("article".to_string()));
    assert_eq!(walker.walk(), Ok(()));
    assert!(walker.found_article);
    assert_eq!(walker.title, "");
    assert_eq!(buffer, "kept\na\n");
}

#[test]
fn two_walks_give_the_same() {
    let html = "<title> T </title><div class=\"main\"><h1>A</h1><ol start=\"4\"><li>x</li></ol><pre>p\nq</pre></div>";
    let tree = parse_document(html).unwrap();
    let selector = SimpleSelector::Class("main".to_string());
    let first = render(&tree, Some(selector.clone()), false, false);
    let second = render(&tree, Some(selector), false, false);
    assert_eq!(first, second);
    assert_eq!(first.unwrap().text, "A\n4. x\np\nq\n");
    let again = parse_document(html).unwrap();
    assert_eq!(tree, again);
}

#[test]
fn class_selector_takes_a_word_of_the_class() {
    let html = "<div class=\"post  main\n wide\"><p>a</p></div>";
    for name in ["post", "main", "wide"] {
        assert_eq!(walk(html, Some(SimpleSelector::Class(name.to_string()))).text, "a\n");
    }
    for name in ["pos", "post main", "", "div"] {
        let found = walk(html, Some(SimpleSelector::Class(name.to_string())));
        assert!(!found.found_article);
        assert_eq!(found.text, "");
    }
}

#[test]
fn id_selector_takes_the_whole_id() {
    let html = "<div id=\"a b\"><p>x</p></div><div id=\"c\"><p>y</p></div>";
    assert_eq!(walk(html, Some(SimpleSelector::Id("c".to_string()))).text, "y\n");
    assert_eq!(walk(html, Some(SimpleSelector::Id("a b".to_string()))).text, "x\ny\n");
    assert!(!walk(html, Some(SimpleSelector::Id("a".to_string()))).found_article);
    assert!(!walk(html, Some(SimpleSelector::Id("b".to_string()))).found_article);
}

#[test]
fn tag_selector_takes_the_tag_name() {
    assert_eq!(walk("<p>a</p><section><p>b</p></section>", tag("section")).text, "b\n");
    assert_eq!(walk("<p>a</p><section><p>b</p></section>", tag("body")).text, "a\nb\n");
    assert!(!walk("<p>a</p>", tag("sect")).found_article);
}

#[test]
fn without_a_selector_an_article_is_known_by_its_looks() {
    assert_eq!(walk("<p>n</p><article><p>a</p></article>", None).text, "a\n");
    assert_eq!(walk("<p>n</p><div class=\"post hentry\"><p>a</p></div>", None).text, "a\n");
    assert_eq!(walk("<p>n</p><div class=\"post-content\"><p>a</p></div>", None).text, "a\n");
}

#[test]
fn the_looks_of_an_article_are_exact() {
    for html in [
        "<div class=\"post-content wide\"><p>a</p></div>",
        "<div class=\"hentry post\"><p>a</p></div>",
        "<div class=\"post\"><p>a</p></div>",
        "<div class=\" post-content\"><p>a</p></div>",
        "<section class=\"post-content\"><p>a</p></section>",
        "<div id=\"post-content\"><p>a</p></div>",
    ] {
        let found = walk(html, None);
        assert!(!found.found_article, "{}", html);
        assert_eq!(found.text, "");
    }
}

#[test]
fn the_heuristic_walker_has_no_selector() {
    let tree = parse_document("<article><p>a</p></article>").unwrap();
    let mut buffer = String::new();
    let mut walker = HtmlWalker::heuristic(&tree, &mut buffer);
    assert_eq!(walker.selector, None);
    walker.walk().unwrap();
    assert!(walker.found_article);
    assert_eq!(buffer, "a\n");
}

#[test]
fn head_is_passed_over_once_a_title_is_read() {
    let tree = DomNode::document(vec![
        element("head", vec![element("title", vec![text("one")])]),
        element("head", vec![element("title", vec![text("two")])]),
        element("title", vec![text("three"), element("b", vec![text(" four ")])]),
    ]);
    let mut buffer = String::new();
    let mut walker = HtmlWalker::new(&tree, &mut buffer, SimpleSelector::Tag("article".to_string()));
    assert!(!walker.ignore_elements.contains("head"));
    walker.walk().unwrap();
    assert!(walker.ignore_elements.contains("head"));
    assert_eq!(walker.title, "four");
    assert!(!walker.found_article);
    assert_eq!(buffer, "");
}

#[test]
fn the_parser_builds_the_tree() {
    let tree = parse_document("<!doctype html><title>T</title><p class=\"a\" id=b>x<br>y</p><!-- c -->").unwrap();
    let expected = DomNode::document(vec![
        DomNode::Other,
        element(
            "html",
            vec![
                element("head", vec![element("title", vec![text("T")])]),
                element(
                    "body",
                    vec![
                        DomNode::element(
                            "p",
                            vec![Attribute::new("class", "a"), Attribute::new("id", "b")],
                            vec![text("x"), element("br", vec![]), text("y")],
                        ),
                        DomNode::Other,
                    ],
                ),
            ],
        ),
    ]);
    assert_eq!(tree, expected);
}

#[test]
fn the_parser_lowers_names_and_decodes_text() {
    let tree = parse_document("<DIV CLASS=\"A\">&lt;&amp;&#233;</DIV>").unwrap();
    let expected = DomNode::document(vec![element(
        "html",
        vec![
            element("head", vec![]),
            element("body", vec![DomNode::element("div", vec![Attribute::new("class", "A")], vec![text("<&é")])]),
        ],
    )]);
    assert_eq!(tree, expected);
}

#[test]
fn noscript_is_parsed_as_markup() {
    assert_eq!(article("<article><noscript><p>a</p></noscript></article>"), "a\n");
}

#[test]
fn builders_build_the_variants() {
    assert_eq!(text("a"), DomNode::Text { content: "a".to_string() });
    assert_eq!(
        DomNode::element("p", vec![Attribute::new("k", "v")], vec![text("a")]),
        DomNode::Element {
            tag: "p".to_string(),
            attributes: vec![Attribute { name: "k".to_string(), value: "v".to_string() }],
            children: vec![DomNode::Text { content: "a".to_string() }],
        }
    );
    assert_eq!(DomNode::document(vec![]), DomNode::Document { children: vec![] });
}
