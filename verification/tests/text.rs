use extract_article::text::{push_decimal, read_i32, replace_newlines, trim};
use extract_article::{find_word_in_string, output_path, strip_trailing_newline, IgnoreSet};

fn decimal(n: i128) -> String {
    let mut out = String::from(">");
    push_decimal(&mut out, n);
    out
}

#[test]
fn decimal_of_small_numbers() {
    assert_eq!(decimal(0), ">0");
    assert_eq!(decimal(7), ">7");
    assert_eq!(decimal(10), ">10");
    assert_eq!(decimal(-1), ">-1");
    assert_eq!(decimal(-120), ">-120");
    assert_eq!(decimal(2147483647), ">2147483647");
}

#[test]
fn decimal_of_the_extremes() {
    assert_eq!(decimal(i128::MAX), format!(">{}", i128::MAX));
    assert_eq!(decimal(i128::MIN), format!(">{}", i128::MIN));
}

#[test]
fn integers_are_read_as_the_standard_library_reads_them() {
    let texts = [
        "0", "1", "-1", "+1", "007", "-0", "+0", "2147483647", "2147483648", "-2147483648",
        "-2147483649", "99999999999999999999", "", "+", "-", "--1", "+-1", "1 ", " 1", "1a", "a",
        "1.5", "٣", "１", "0x10", "1_000",
    ];
    for text in texts {
        assert_eq!(read_i32(text), text.parse::<i32>().ok(), "reading {:?}", text);
    }
}

#[test]
fn integer_values() {
    assert_eq!(read_i32("3"), Some(3));
    assert_eq!(read_i32("-42"), Some(-42));
    assert_eq!(read_i32("+15"), Some(15));
    assert_eq!(read_i32("2147483647"), Some(i32::MAX));
    assert_eq!(read_i32("-2147483648"), Some(i32::MIN));
    assert_eq!(read_i32("2147483648"), None);
    assert_eq!(read_i32("three"), None);
    assert_eq!(read_i32(""), None);
}

#[test]
fn line_breaks_become_spaces() {
    assert_eq!(replace_newlines("a\nb\n"), "a b ");
    assert_eq!(replace_newlines("a\r\nb"), "a\r b");
    assert_eq!(replace_newlines(""), "");
    assert_eq!(replace_newlines("no break"), "no break");
}

#[test]
fn trimming_is_that_of_the_standard_library() {
    let texts = [
        "", " ", "a", " a", "a ", "  a b  ", "\n\t a \r\n", "\u{a0}x\u{3000}", "\u{200b}x",
        " \u{2028} ", "x  y", "é ",
    ];
    for text in texts {
        assert_eq!(trim(text), text.trim(), "trimming {:?}", text);
    }
}

#[test]
fn trimmed_title() {
    assert_eq!(trim("  My Post \n"), "My Post");
}

#[test]
fn words_are_those_of_the_standard_library() {
    let texts = ["", " ", "post", "post hentry", " post  hentry ", "a\tb\nc", "posthentry", "x\u{a0}y"];
    let words = ["", "post", "hentry", "post hentry", "a", "b", "c", "x", "y", "pos", " "];
    for text in texts {
        for word in words {
            assert_eq!(
                find_word_in_string(text, word),
                text.split_whitespace().any(|w| w == word),
                "{:?} in {:?}",
                word,
                text
            );
        }
    }
}

#[test]
fn a_word_is_found_whole_only() {
    assert!(find_word_in_string("post hentry", "post"));
    assert!(find_word_in_string("post hentry", "hentry"));
    assert!(!find_word_in_string("post hentry", "pos"));
    assert!(!find_word_in_string("post hentry", "post hentry"));
    assert!(!find_word_in_string("post hentry", ""));
    assert!(!find_word_in_string("", ""));
}

#[test]
fn trailing_line_break_is_stripped_once() {
    assert_eq!(strip_trailing_newline("a\n"), "a");
    assert_eq!(strip_trailing_newline("a\r\n"), "a");
    assert_eq!(strip_trailing_newline("a\n\n"), "a\n");
    assert_eq!(strip_trailing_newline("a\r"), "a\r");
    assert_eq!(strip_trailing_newline("a\n\r"), "a\n\r");
    assert_eq!(strip_trailing_newline("a"), "a");
    assert_eq!(strip_trailing_newline("\n"), "");
    assert_eq!(strip_trailing_newline("\r\n"), "");
    assert_eq!(strip_trailing_newline(""), "");
    assert_eq!(strip_trailing_newline("é\n"), "é");
}

#[test]
fn path_of_the_saved_article() {
    assert_eq!(output_path(""), "/tmp/article.txt");
    assert_eq!(output_path("My Post"), "/tmp/My Post.txt");
}

#[test]
fn ignore_set_holds_what_was_inserted() {
    let mut set = IgnoreSet::new();
    assert!(!set.contains("head"));
    assert!(set.insert("head".to_string()));
    assert!(set.contains("head"));
    assert!(!set.insert("head".to_string()));
    assert!(set.contains("head"));
    assert!(!set.contains("hea"));
    assert!(!set.contains(""));
    assert!(set.insert("script".to_string()));
    assert!(set.contains("head"));
    assert!(set.contains("script"));
}

fn listed_as_whitespace(c: char) -> bool {
    matches!(
        c,
        '\u{9}'..='\u{d}'
            | '\u{20}'
            | '\u{85}'
            | '\u{a0}'
            | '\u{1680}'
            | '\u{2000}'..='\u{200a}'
            | '\u{2028}'
            | '\u{2029}'
            | '\u{202f}'
            | '\u{205f}'
            | '\u{3000}'
    )
}

#[test]
fn whitespace_is_the_listed_code_points() {
    let mut count = 0;
    for c in '\0'..=char::MAX {
        let alone = c.to_string();
        let trimmed_away = trim(&alone).is_empty();
        assert_eq!(trimmed_away, listed_as_whitespace(c), "{:?}", c);
        assert_eq!(find_word_in_string(&alone, &alone), !listed_as_whitespace(c), "{:?}", c);
        if trimmed_away {
            count += 1;
        }
    }
    assert_eq!(count, 25);
}
