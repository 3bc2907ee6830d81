//! Texts: numbers, lines, order and paths.

use winctrl_config::text;

fn strings(s: &[&str]) -> Vec<String> {
    s.iter().map(|x| x.to_string()).collect()
}

#[test]
fn numbers_as_text() {
    assert_eq!(text::dec_text(0), "0");
    assert_eq!(text::dec_text(u64::MAX), "18446744073709551615");
    assert_eq!(text::signed_text(-120), "-120");
    assert_eq!(text::with_sign_text(0), "+0");
    assert_eq!(text::with_sign_text(-5), "-5");
    assert_eq!(text::hex_text(0xAB, 4), "00ab");
    assert_eq!(text::hex_prefixed_text(0x1234, 2), "0x1234");
    assert_eq!(text::parse_number("ff", 16, 255), Some(255));
    assert_eq!(text::parse_number("FF", 16, 254), None);
    assert_eq!(text::parse_number("", 10, 9), None);
    assert_eq!(text::parse_number("12x", 10, 999), None);
    assert_eq!(text::padded_text("ab", 4), "ab  ");
    assert_eq!(text::padded_text("abcde", 4), "abcde");
}

#[test]
fn parts_of_texts() {
    assert_eq!(text::trim_text(" \t a b \n"), "a b");
    assert_eq!(text::trim_end_text(" a \u{3000}"), " a");
    assert_eq!(text::split_text("a::b", ':'), strings(&["a", "", "b"]));
    assert_eq!(text::split_once_text("k=v=w", '='), Some(("k".to_string(), "v=w".to_string())));
    assert_eq!(text::split_once_text("k", '='), None);
    assert_eq!(text::lines_of("a\r\nb\n\nc"), strings(&["a", "b", "", "c"]));
    assert_eq!(text::join_text(&strings(&["a", "b"]), ", "), "a, b");
    assert!(text::str_starts_with("hidraw1", "hidraw") && !text::str_starts_with("x", "xy"));
    assert!(text::str_ends_with("a_L", "_L") && text::str_contains("J5_BASE", "BASE"));
    assert!(!text::str_contains("BAS", "BASE"));
}

#[test]
fn order_of_texts() {
    assert_eq!(text::order_of(&strings(&["b", "a", "b", "ab"])), vec![1, 3, 0, 2]);
    assert!(text::comes_before("a", "aa") && !text::comes_before("b", "ab"));
    assert_eq!(
        text::sorted_entries(&strings(&["x2", "y", "x10", "x1"]), "x"),
        strings(&["x1", "x10", "x2"])
    );
}

#[test]
fn paths() {
    assert_eq!(text::path_below("/a", "b"), "/a/b");
    assert_eq!(text::path_below("/a/", "b"), "/a/b");
    assert_eq!(text::path_below("", "b"), "b");
    assert_eq!(text::path_below("/a", "/b"), "/b");
}
