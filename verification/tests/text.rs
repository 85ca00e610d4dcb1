use oneplayer::sort::stable_sort;
use oneplayer::text::{
    ascii_lower, contains_text, ends_with, i64_text, is_blank, parse_u32, remove_text,
    replace_text, starts_with, text_before, text_less, trim, trim_leading, trim_trailing, u64_text,
};

#[test]
fn numbers_are_written_in_decimal() {
    assert_eq!(u64_text(0), "0");
    assert_eq!(u64_text(u64::MAX), u64::MAX.to_string());
    assert_eq!(i64_text(i64::MIN), i64::MIN.to_string());
    assert_eq!(i64_text(-7), "-7");
}

#[test]
fn numbers_are_read_from_decimal() {
    for text in ["", "+", "-1", "1a", " 1", "4294967296", "99999999999999999999", "0", "+7", "007", "4294967295"] {
        assert_eq!(parse_u32(text), text.parse::<u32>().ok());
    }
}

#[test]
fn space_is_taken_off() {
    for text in ["", "  ", " a b ", "\u{a0}x\u{3000}", "\tx\r\n", "한 글 "] {
        assert_eq!(trim(text), text.trim());
        assert_eq!(is_blank(text), text.trim().is_empty());
    }
    assert_eq!(trim_leading("##a#", '#'), "a#");
    assert_eq!(trim_trailing("a//", '/'), "a");
    assert_eq!(ascii_lower("AbCÄ"), "AbCÄ".to_ascii_lowercase());
}

#[test]
fn texts_are_compared_by_character() {
    assert!(starts_with("abc", "ab") && !starts_with("a", "ab"));
    assert!(ends_with("abc", "bc") && !ends_with("c", "bc"));
    for (a, b) in [("a", "b"), ("a", "ab"), ("", ""), ("z", "가"), ("b", "a")] {
        assert_eq!(text_less(a, b), a < b);
    }
    assert_eq!(text_before("a?b?c", '?'), "a");
}

#[test]
fn parts_are_replaced() {
    assert_eq!(replace_text("aXbXc", "X", "--"), "a--b--c");
    assert_eq!(replace_text("aaa", "aa", "b"), "ba");
}

#[test]
fn lists_lose_one_entry() {
    let mut list = vec!["a".to_string(), "b".to_string(), "a".to_string()];
    remove_text(&mut list, "a");
    assert_eq!(list, vec!["b", "a"]);
    remove_text(&mut list, "x");
    assert_eq!(list.len(), 2);
    assert!(contains_text(&list, "b") && !contains_text(&list, "x"));
}

#[test]
fn sorting_is_stable() {
    let sorted = stable_sort(
        vec!['a', 'b', 'c', 'd'],
        &vec![(2, 0, 0), (1, 0, 0), (2, 0, 0), (1, 0, -1)],
    );
    assert_eq!(sorted, vec!['d', 'b', 'a', 'c']);
}
