use pulsebook::bignat::{divide, multiply};
use pulsebook::sorting::{names_of, put_text};
use pulsebook::table::Table;
use pulsebook::text::{
    clip, decimal, join, lines, signed_decimal, split, split_once, starts_with, strip,
    text_precedes, Edge,
};

#[test]
fn lines_are_split_as_in_files() {
    for s in ["", "a", "a\n", "a\r\nb", "\n\n", "a\r", "x\r\r\ny\n"] {
        let expected: Vec<String> = s.lines().map(|l| l.to_string()).collect();
        assert_eq!(lines(s), expected, "{s:?}");
    }
}

#[test]
fn texts_are_split_and_joined() {
    assert_eq!(split("a,b,,c", ','), vec!["a", "b", "", "c"]);
    assert_eq!(split("", ','), vec![""]);
    assert_eq!(join(&split("a,b,,c", ','), ";"), "a;b;;c");
    assert_eq!(join(&Vec::new(), ","), "");
    assert_eq!(split_once("k=v=w", '='), Some(("k", "v=w")));
    assert_eq!(split_once("k", '='), None);
    assert!(starts_with("orderbook.50", "orderbook"));
    assert!(!starts_with("order", "orderbook"));
    assert_eq!(clip("тест", 2), "те");
    assert_eq!(clip("ab", 9), "ab");
}

#[test]
fn edges_are_stripped() {
    for s in [" a b ", "\t\u{a0}\u{2003}x\n", "", "  ", "x"] {
        assert_eq!(strip(s, Edge::Space), s.trim(), "{s:?}");
    }
    assert_eq!(strip("\"'a'b\"", Edge::Quote), "a'b");
}

#[test]
fn numbers_are_written_in_decimal() {
    assert_eq!(decimal(0), "0");
    assert_eq!(decimal(u64::MAX), "18446744073709551615");
    assert_eq!(signed_decimal(i64::MIN), "-9223372036854775808");
    assert_eq!(signed_decimal(42), "42");
}

#[test]
fn texts_are_ordered_by_their_characters() {
    for (a, b) in [("a", "b"), ("", "a"), ("ab", "abc"), ("Z", "a"), ("я", "🙂")] {
        assert!(a < b);
        assert!(text_precedes(a, b));
        assert!(!text_precedes(b, a));
        assert!(!text_precedes(a, a));
    }
    let mut list = Vec::new();
    for s in ["b", "a", "c", "a"] {
        put_text(&mut list, s);
    }
    assert_eq!(list, vec!["a", "b", "c"]);
}

#[test]
fn a_table_keeps_one_value_for_each_key() {
    let mut t: Table<u64> = Table::new();
    t.insert("b", 1);
    t.insert("a", 2);
    t.insert("b", 3);
    assert_eq!(t.len(), 2);
    assert_eq!(t.get("b"), Some(&3));
    assert_eq!(t.get("c"), None);
    assert_eq!(names_of(&t), vec!["a", "b"]);
    assert_eq!(t.key_at(0), "b");
    assert_eq!(t.remove("b"), Some(3));
    assert_eq!(t.remove("b"), None);
    assert!(!t.contains("b"));
}

#[test]
fn large_numbers_are_exact() {
    let mut n = vec![u32::MAX, u32::MAX];
    multiply(&mut n, u32::MAX, 0);
    multiply(&mut n, 8, 0);
    let expected = (u64::MAX as u128) * (u32::MAX as u128) * 8;
    let value: u128 = n.iter().rev().fold(0, |v, w| (v << 32) | *w as u128);
    assert_eq!(value, expected);
    let rest = divide(&mut n, 1_000_000_007);
    let value: u128 = n.iter().rev().fold(0, |v, w| (v << 32) | *w as u128);
    assert_eq!(value, expected / 1_000_000_007);
    assert_eq!(rest as u128, expected % 1_000_000_007);
}
