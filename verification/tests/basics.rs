use sync_rs::number::{digit_of, push_decimal};
use sync_rs::size::{GB, KB, MB};
use sync_rs::split::{count_leading, join_rows, Delim};
use sync_rs::text::{
    copy_of, matches_at, one_char, push_all, push_str, push_text, same_text, slice_of, to_rows,
    to_texts,
};
use sync_rs::tree::{empty_tree, insert_entry, render_lines};

fn chars(s: &str) -> Vec<char> {
    s.chars().collect()
}

#[test]
fn decimal_digits_are_written_in_order() {
    let mut out = chars("n=");
    push_decimal(&mut out, 0);
    push_decimal(&mut out, 7);
    push_decimal(&mut out, 1234567890);
    push_decimal(&mut out, u128::MAX);
    assert_eq!(
        out.iter().collect::<String>(),
        "n=071234567890340282366920938463463374607431768211455"
    );
    assert_eq!(digit_of(0), '0');
    assert_eq!(digit_of(9), '9');
}

#[test]
fn binary_units() {
    assert_eq!(KB, 1024);
    assert_eq!(MB, 1024 * 1024);
    assert_eq!(GB, 1024 * 1024 * 1024);
}

#[test]
fn text_pieces() {
    let s = chars("hello world");
    assert_eq!(slice_of(&s, 6, 11), chars("world"));
    assert_eq!(slice_of(&s, 3, 3), chars(""));
    assert!(matches_at(&s, &chars("lo w"), 3));
    assert!(!matches_at(&s, &chars("lo w"), 4));
    assert!(!matches_at(&s, &chars("world!"), 6));
    assert!(matches_at(&s, &chars(""), 11));
    assert!(!matches_at(&s, &chars(""), 12));
    assert!(same_text(&s, &copy_of(&s)));
    assert!(!same_text(&s, &chars("hello worle")));
    assert!(!same_text(&s, &chars("hello")));
    assert_eq!(one_char('x'), chars("x"));
    let mut out = chars("a");
    push_all(&mut out, &chars("bc"));
    push_str(&mut out, "dé");
    assert_eq!(out, chars("abcdé"));
}

#[test]
fn lists_of_texts() {
    let mut list = vec!["one".to_string()];
    push_text(&mut list, "two");
    assert_eq!(list, vec!["one", "two"]);
    let rows = to_rows(&list);
    assert_eq!(rows, vec![chars("one"), chars("two")]);
    assert_eq!(to_texts(&rows), list);
    assert_eq!(join_rows(&rows, &chars(", ")), chars("one, two"));
    assert_eq!(join_rows(&Vec::new(), &chars(", ")), chars(""));
    assert_eq!(join_rows(&vec![chars("solo")], &chars("/")), chars("solo"));
    assert_eq!(join_rows(&vec![chars(""), chars("")], &chars("/")), chars("/"));
}

#[test]
fn leading_separators_are_counted() {
    assert_eq!(count_leading(&chars("///a/"), Delim::Char('/')), 3);
    assert_eq!(count_leading(&chars("a//"), Delim::Char('/')), 0);
    assert_eq!(count_leading(&chars(" \t\u{2003}x"), Delim::Whitespace), 3);
    assert_eq!(count_leading(&chars(""), Delim::Whitespace), 0);
    assert_eq!(count_leading(&chars("   "), Delim::Whitespace), 3);
}

#[test]
fn entries_are_taken_line_by_line() {
    let mut root = empty_tree();
    for line in ["f|src/main.rs|10", "", "broken", "f|.git/config|1", "d|src/|0", "f|./docs/a.md|2"] {
        insert_entry(&mut root, &chars(line));
    }
    assert_eq!(
        render_lines(&root),
        vec!["|-- docs", "|  +-- a.md", "+-- src", "   +-- main.rs"]
    );
}
