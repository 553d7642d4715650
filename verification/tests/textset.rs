use part_registry::textset::{text_less, TextSet};

#[test]
fn text_order_is_character_by_character() {
    assert!(text_less("2026-01-01", "2026-06-12"));
    assert!(!text_less("2026-06-12", "2026-01-01"));
    assert!(!text_less("2026-01-01", "2026-01-01"));
    assert!(text_less("ab", "abc"));
    assert!(text_less("", "a"));
    assert!(!text_less("b", "abc"));
}

#[test]
fn inserting_keeps_members_sorted_and_unique() {
    let mut s = TextSet::new();
    for t in ["pear", "apple", "fig", "apple", "banana"] {
        s.insert(t.to_string());
    }
    assert_eq!(s.len(), 4);
    let all: Vec<&str> = (0..s.len()).map(|i| s.get(i).as_str()).collect();
    assert_eq!(all, vec!["apple", "banana", "fig", "pear"]);
    assert!(s.contains("fig"));
    assert!(!s.contains("grape"));
    assert!(!s.is_empty());
}
