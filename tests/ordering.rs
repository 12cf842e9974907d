use manga_pdf::chapters::{chapter_key, filter_chapters, prepare_chapters, sort_chapters, ChapterRef};
use manga_pdf::order::{key_less, parse_chapter_number, stable_order};
use manga_pdf::text::{contains_str, push_decimal};

fn refs(names: &[&str]) -> Vec<ChapterRef> {
    names
        .iter()
        .enumerate()
        .map(|(i, n)| ChapterRef::new(n.to_string(), format!("/c/{}", i)))
        .collect()
}

fn names(v: &[ChapterRef]) -> Vec<String> {
    v.iter().map(|c| c.name.clone()).collect()
}

#[test]
fn sorts_by_chapter_number_unnumbered_last() {
    let sorted = sort_chapters(refs(&["Chapter 2", "Chapter 10", "Chapter 1.5", "Extra"]));
    assert_eq!(names(&sorted), vec!["Chapter 1.5", "Chapter 2", "Chapter 10", "Extra"]);
}

#[test]
fn sort_keeps_links_with_names() {
    let sorted = sort_chapters(refs(&["Chapter 3", "Chapter 1"]));
    assert_eq!(sorted[0].link, "/c/1");
    assert_eq!(sorted[1].link, "/c/0");
}

#[test]
fn sort_is_stable_among_equal_keys() {
    let sorted = sort_chapters(refs(&["Chapter 4 b", "Notes", "Chapter 4 a", "Chapter 1", "Chapter x"]));
    assert_eq!(
        names(&sorted),
        vec!["Chapter 1", "Chapter 4 b", "Chapter 4 a", "Notes", "Chapter x"]
    );
}

#[test]
fn sort_of_empty_is_empty() {
    assert!(sort_chapters(Vec::new()).is_empty());
}

#[test]
fn decimal_fractions_compare_by_value() {
    let sorted = sort_chapters(refs(&["Chapter 1.10", "Chapter 1.5", "Chapter 1.05"]));
    assert_eq!(names(&sorted), vec!["Chapter 1.05", "Chapter 1.10", "Chapter 1.5"]);
}

#[test]
fn filtering_drops_entries_without_chapter() {
    let kept = filter_chapters(refs(&["Chapter 1", "Extra", "chapter 3", "Side Chapter 2"]));
    assert_eq!(names(&kept), vec!["Chapter 1", "Side Chapter 2"]);
}

#[test]
fn prepared_chapters_hold_only_chapters_in_order() {
    let out = prepare_chapters(refs(&["Chapter 2", "Extra", "Chapter 10", "Prologue", "Chapter 1.5", "Chapter Special"]));
    assert_eq!(names(&out), vec!["Chapter 1.5", "Chapter 2", "Chapter 10", "Chapter Special"]);
    assert!(out.iter().all(|c| c.name.contains("Chapter")));
}

#[test]
fn chapter_numbers_parse_as_fixed_point() {
    assert_eq!(parse_chapter_number("10"), Some((10, 0)));
    assert_eq!(parse_chapter_number("1.5"), Some((1, 500_000_000_000_000_000)));
    assert_eq!(parse_chapter_number("0.123456789012345678"), Some((0, 123_456_789_012_345_678)));
    assert_eq!(parse_chapter_number("18446744073709551615"), Some((u64::MAX, 0)));
}

#[test]
fn malformed_chapter_numbers_have_no_key() {
    assert_eq!(parse_chapter_number(""), None);
    assert_eq!(parse_chapter_number("1."), None);
    assert_eq!(parse_chapter_number(".5"), None);
    assert_eq!(parse_chapter_number("1.5x"), None);
    assert_eq!(parse_chapter_number("2a"), None);
    assert_eq!(parse_chapter_number("18446744073709551616"), None);
    assert_eq!(parse_chapter_number("0.1234567890123456789"), None);
}

#[test]
fn chapter_key_reads_number_after_word() {
    assert_eq!(chapter_key("Vol.2 Chapter 7.25: Title"), Some((7, 250_000_000_000_000_000)));
    assert_eq!(chapter_key("Extra"), None);
    assert_eq!(chapter_key("Chapter"), None);
}

#[test]
fn missing_key_sorts_last() {
    assert!(key_less(Some((1, 0)), None));
    assert!(!key_less(None, Some((1, 0))));
    assert!(!key_less(None, None));
    assert!(key_less(Some((1, 5)), Some((1, 6))));
    assert!(!key_less(Some((2, 0)), Some((1, 9))));
}

#[test]
fn stable_order_lists_positions() {
    let keys = vec![None, Some((3, 0)), Some((1, 0)), Some((3, 0))];
    assert_eq!(stable_order(&keys), vec![2, 1, 3, 0]);
}

#[test]
fn substring_search() {
    assert!(contains_str("Chapter 1", "Chapter"));
    assert!(contains_str("abc", ""));
    assert!(!contains_str("Chap", "Chapter"));
    assert!(contains_str("xxChapterxx", "Chapter"));
    assert!(!contains_str("chapter", "Chapter"));
}

#[test]
fn decimal_numerals() {
    let mut s = String::from("p");
    push_decimal(&mut s, 0);
    assert_eq!(s, "p0");
    let mut t = String::new();
    push_decimal(&mut t, 1203);
    assert_eq!(t, "1203");
    let mut u = String::new();
    push_decimal(&mut u, usize::MAX);
    assert_eq!(u, usize::MAX.to_string());
}
