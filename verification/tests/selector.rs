use extract_article::selector::{identifier_continues, selector_lead, Lead};
use extract_article::{SimpleSelector, SimpleSelectorParser};

fn parse(text: &str) -> Option<SimpleSelector> {
    SimpleSelectorParser::new(text).parse()
}

#[test]
fn class_selector() {
    assert_eq!(parse(".foo"), Some(SimpleSelector::Class("foo".to_string())));
}

#[test]
fn id_selector() {
    assert_eq!(parse("#bar"), Some(SimpleSelector::Id("bar".to_string())));
}

#[test]
fn tag_selector() {
    assert_eq!(parse("div"), Some(SimpleSelector::Tag("div".to_string())));
}

#[test]
fn empty_text_is_no_selector() {
    assert_eq!(parse(""), None);
}

#[test]
fn leading_digit_is_no_selector() {
    assert_eq!(parse("123abc"), None);
}

#[test]
fn other_leading_characters_are_no_selector() {
    assert_eq!(parse(" div"), None);
    assert_eq!(parse("-x"), None);
    assert_eq!(parse("*"), None);
    assert_eq!(parse("[href]"), None);
}

#[test]
fn identifier_may_be_empty() {
    assert_eq!(parse("."), Some(SimpleSelector::Class(String::new())));
    assert_eq!(parse("#"), Some(SimpleSelector::Id(String::new())));
    assert_eq!(parse(". x"), Some(SimpleSelector::Class(String::new())));
}

#[test]
fn identifier_takes_letters_digits_hyphen_and_underscore() {
    assert_eq!(parse(".post-content_2"), Some(SimpleSelector::Class("post-content_2".to_string())));
    assert_eq!(parse("#a1-b_c"), Some(SimpleSelector::Id("a1-b_c".to_string())));
    assert_eq!(parse("h1"), Some(SimpleSelector::Tag("h1".to_string())));
}

#[test]
fn what_follows_the_identifier_is_left_alone() {
    assert_eq!(parse("div.foo"), Some(SimpleSelector::Tag("div".to_string())));
    assert_eq!(parse(".foo bar"), Some(SimpleSelector::Class("foo".to_string())));
    assert_eq!(parse("#a > b"), Some(SimpleSelector::Id("a".to_string())));
    assert_eq!(parse("a:hover"), Some(SimpleSelector::Tag("a".to_string())));
}

#[test]
fn letters_beyond_ascii_count() {
    assert_eq!(parse("émile"), Some(SimpleSelector::Tag("émile".to_string())));
    assert_eq!(parse(".größe"), Some(SimpleSelector::Class("größe".to_string())));
}

#[test]
fn a_second_parse_goes_on_where_the_first_stopped() {
    let mut parser = SimpleSelectorParser::new("div.foo#bar");
    assert_eq!(parser.parse(), Some(SimpleSelector::Tag("div".to_string())));
    assert_eq!(parser.parse(), Some(SimpleSelector::Class("foo".to_string())));
    assert_eq!(parser.parse(), Some(SimpleSelector::Id("bar".to_string())));
    assert_eq!(parser.parse(), None);
    assert_eq!(parser.parse(), None);
}

#[test]
fn a_failed_parse_leaves_the_cursor() {
    let mut parser = SimpleSelectorParser::new("a b");
    assert_eq!(parser.parse(), Some(SimpleSelector::Tag("a".to_string())));
    assert_eq!(parser.parse(), None);
    assert_eq!(parser.parse(), None);
}

#[test]
fn lead_of_a_selector() {
    assert_eq!(selector_lead('.', false), Some(Lead::Class));
    assert_eq!(selector_lead('#', false), Some(Lead::Id));
    assert_eq!(selector_lead('d', true), Some(Lead::Tag));
    assert_eq!(selector_lead('1', false), None);
}

#[test]
fn characters_of_an_identifier() {
    assert!(identifier_continues('a', true));
    assert!(identifier_continues('-', false));
    assert!(identifier_continues('_', false));
    assert!(!identifier_continues('.', false));
    assert!(!identifier_continues(' ', false));
}

#[test]
fn a_copy_of_a_selector_is_equal() {
    let selector = SimpleSelector::Class("foo".to_string());
    assert_eq!(selector.clone(), selector);
}

#[test]
fn ascii_letters_start_a_tag_name() {
    for c in '\0'..='\u{7f}' {
        let parsed = parse(&c.to_string());
        if c.is_ascii_alphabetic() {
            assert_eq!(parsed, Some(SimpleSelector::Tag(c.to_string())));
        } else if c == '.' {
            assert_eq!(parsed, Some(SimpleSelector::Class(String::new())));
        } else if c == '#' {
            assert_eq!(parsed, Some(SimpleSelector::Id(String::new())));
        } else {
            assert_eq!(parsed, None, "{:?}", c);
        }
    }
}

#[test]
fn ascii_letters_and_digits_make_an_identifier() {
    for c in '\0'..='\u{7f}' {
        let expected = if c.is_ascii_alphanumeric() || c == '-' || c == '_' {
            c.to_string()
        } else {
            String::new()
        };
        assert_eq!(parse(&format!(".{}", c)), Some(SimpleSelector::Class(expected)), "{:?}", c);
    }
}

#[test]
fn every_letter_belongs_to_the_name_it_starts() {
    for c in '\0'..=char::MAX {
        if c.is_alphabetic() {
            assert_eq!(parse(&c.to_string()), Some(SimpleSelector::Tag(c.to_string())), "{:?}", c);
        }
    }
}
