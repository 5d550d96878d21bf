use acc2taxid::{
    compare, format_found, format_not_found, parse_queries, sort_queries, split_lines, Event,
};
use std::cmp::Ordering;

#[test]
fn compare_orders_by_bytes() {
    assert_eq!(compare("a", "b"), Ordering::Less);
    assert_eq!(compare("b", "a"), Ordering::Greater);
    assert_eq!(compare("acc.A", "acc.A"), Ordering::Equal);
    assert_eq!(compare("ab", "a"), Ordering::Greater);
    assert_eq!(compare("", "a"), Ordering::Less);
    assert_eq!(compare("", ""), Ordering::Equal);
    assert_eq!(compare("Z", "a"), Ordering::Less);
    assert_eq!(compare("\u{e9}", "z"), Ordering::Greater);
}

#[test]
fn queries_one_per_line() {
    assert_eq!(parse_queries("b\na\n"), vec!["b".to_string(), "a".to_string()]);
}

#[test]
fn queries_trailing_whitespace_is_ignored() {
    assert_eq!(parse_queries("a  \n\n"), vec!["a".to_string()]);
    assert_eq!(parse_queries("a\r\nb\r\n"), vec!["a\r".to_string(), "b".to_string()]);
}

#[test]
fn queries_empty_text_holds_none() {
    assert_eq!(parse_queries(""), Vec::<String>::new());
    assert_eq!(parse_queries(" \n\t\n"), Vec::<String>::new());
}

#[test]
fn split_lines_keeps_empty_lines_inside() {
    assert_eq!(
        split_lines("a\n\nb"),
        vec!["a".to_string(), "".to_string(), "b".to_string()]
    );
    assert_eq!(split_lines(""), Vec::<String>::new());
}

#[test]
fn sort_queries_ascending_with_repeats() {
    let mut v = vec!["c".to_string(), "a".to_string(), "b".to_string(), "a".to_string()];
    sort_queries(&mut v);
    assert_eq!(v, vec!["a", "a", "b", "c"]);
}

#[test]
fn found_line_format() {
    assert_eq!(format_found("acc.B", 2, 200), "acc.B,2,200\n");
    assert_eq!(format_found("x", 0, 18446744073709551615), "x,0,18446744073709551615\n");
    assert_eq!(format_found("y", 1234567890, 10), "y,1234567890,10\n");
}

#[test]
fn not_found_line_format() {
    assert_eq!(format_not_found("acc.C"), "acc.C not found\n");
}

#[test]
fn event_lines() {
    let f = Event::Found { accession: "q".to_string(), taxid: 7, gid: 70 };
    let n = Event::NotFound { query: "r".to_string() };
    assert_eq!(f.line(), "q,7,70\n");
    assert_eq!(n.line(), "r not found\n");
}
