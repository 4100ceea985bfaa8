use todomvc::text::{decimal_string, parse_id, route_from_hash, trim};
use todomvc::view::{filter_selector, item_class, item_id_of, item_selector, new_todo_title, ENTER_KEY, ESCAPE_KEY};

#[test]
fn decimal_notation() {
    assert_eq!(decimal_string(0), "0");
    assert_eq!(decimal_string(7), "7");
    assert_eq!(decimal_string(10), "10");
    assert_eq!(decimal_string(1_600_000_000_123), "1600000000123");
    assert_eq!(decimal_string(u64::MAX), u64::MAX.to_string());
}

#[test]
fn parse_ids() {
    assert_eq!(parse_id("0"), Some(0));
    assert_eq!(parse_id("1600000000123"), Some(1_600_000_000_123));
    assert_eq!(parse_id("007"), Some(7));
    assert_eq!(parse_id(""), None);
    assert_eq!(parse_id("12a"), None);
    assert_eq!(parse_id("-1"), None);
    assert_eq!(parse_id(" 1"), None);
    let too_big = format!("{}0", u64::MAX);
    assert_eq!(parse_id(&too_big), None);
    assert_eq!(parse_id(&u64::MAX.to_string()), Some(u64::MAX));
}

#[test]
fn parse_reads_back_decimal() {
    for n in [0u64, 1, 9, 10, 99, 100, 4_294_967_296, 1_700_000_000_000, u64::MAX] {
        assert_eq!(parse_id(&decimal_string(n)), Some(n));
    }
}

#[test]
fn trim_white_space() {
    assert_eq!(trim("  buy milk \n"), "buy milk");
    assert_eq!(trim("\u{3000}x\u{a0}"), "x");
    assert_eq!(trim("   "), "");
    assert_eq!(trim(""), "");
    assert_eq!(trim("a b"), "a b");
    for s in ["\t a \u{2028}", "\u{85}q\u{205f}", " é "] {
        assert_eq!(trim(s), s.trim());
    }
}

#[test]
fn route_from_location_hash() {
    assert_eq!(route_from_hash("#/active"), "active");
    assert_eq!(route_from_hash("#/completed"), "completed");
    assert_eq!(route_from_hash("#/"), "");
    assert_eq!(route_from_hash(""), "");
    assert_eq!(route_from_hash("#"), "#");
    assert_eq!(route_from_hash("active"), "active");
    assert_eq!(route_from_hash("/#/x"), "/#/x");
}

#[test]
fn new_todo_titles() {
    assert_eq!(new_todo_title("  buy milk "), Some("buy milk".to_string()));
    assert_eq!(new_todo_title(" \t\n"), None);
    assert_eq!(new_todo_title(""), None);
}

#[test]
fn item_id_from_parent_or_grandparent() {
    let s = |x: &str| Some(x.to_string());
    assert_eq!(item_id_of(s("7"), s("9")), s("7"));
    assert_eq!(item_id_of(s(""), s("9")), s("9"));
    assert_eq!(item_id_of(None, s("9")), s("9"));
    assert_eq!(item_id_of(s(""), s("")), s(""));
    assert_eq!(item_id_of(None, None), None);
}

#[test]
fn view_selectors_and_classes() {
    assert_eq!(item_selector("42"), "[data-id=\"42\"]");
    assert_eq!(filter_selector("active"), ".filters [href=\"#active\"]");
    assert_eq!(item_class(true), "completed");
    assert_eq!(item_class(false), "");
    assert_eq!(ENTER_KEY, 13);
    assert_eq!(ESCAPE_KEY, 27);
}

#[test]
fn trimmed_text_has_no_white_space_at_its_ends() {
    for s in ["  a b  ", "\u{2000}x\u{200a}", "q", " \t\u{3000}"] {
        let t = trim(s);
        assert!(s.contains(t));
        if let (Some(first), Some(last)) = (t.chars().next(), t.chars().last()) {
            assert!(!first.is_whitespace() && !last.is_whitespace());
        }
    }
}
