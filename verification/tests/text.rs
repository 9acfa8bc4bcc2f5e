//! The vocabulary of texts, held against what std has under the same names.

use termaxa::tally::{distinct, rank, tally};
use termaxa::text::{
    chars_of, comes_before, contains, is_whitespace, lower, push_decimal, push_padded, same,
    slice_text, to_lowercase,
};

#[test]
fn white_space_is_what_unicode_has() {
    for n in 0..=0x10ffffu32 {
        if let Some(c) = char::from_u32(n) {
            assert_eq!(is_whitespace(c), c.is_whitespace(), "{n:x}");
            assert_eq!(lower(c), c.to_ascii_lowercase(), "{n:x}");
        }
    }
}

#[test]
fn lower_case_is_ascii_only() {
    assert_eq!(to_lowercase("/DEV/Null É"), "/dev/null É");
    assert_eq!(to_lowercase(""), "");
}

#[test]
fn sameness_is_that_of_the_text() {
    for a in ["", "a", "ab", "ba", "é", "e\u{301}", "0"] {
        for b in ["", "a", "ab", "ba", "é", "e\u{301}", "0"] {
            assert_eq!(same(a, b), a == b, "{a:?} {b:?}");
            assert_eq!(comes_before(a, b), a < b, "{a:?} {b:?}");
            assert_eq!(contains(a, b), a.contains(b), "{a:?} {b:?}");
        }
    }
    // Code points above the surrogates order as their bytes do.
    assert!(comes_before("\u{ffff}", "\u{10000}"));
    assert!(contains("termaxa rollback 7", "rollback"));
    assert!(!contains("roll back", "rollback"));
    assert!(contains("aab", "ab"));
}

#[test]
fn numbers_are_written_in_decimal() {
    for n in [0, 7, 10, 99, 100, 12345, u64::MAX] {
        let mut out = String::from(">");
        push_decimal(&mut out, n);
        assert_eq!(out, format!(">{n}"));
    }
}

#[test]
fn padding_counts_characters() {
    for s in ["", "breaker trips", "größe", "a label that is much too long"] {
        let mut out = String::new();
        push_padded(&mut out, s, 20);
        assert_eq!(out, format!("{s:<20}"));
    }
}

#[test]
fn slices_are_of_characters() {
    let chars = chars_of("aéb");
    assert_eq!(chars, vec!['a', 'é', 'b']);
    assert_eq!(slice_text(&chars, 1, 3), "éb");
    assert_eq!(slice_text(&chars, 2, 2), "");
}

fn labels(list: &[&str]) -> Vec<String> {
    list.iter().map(|l| l.to_string()).collect()
}

fn counted(list: &[(&str, usize)]) -> Vec<(String, usize)> {
    list.iter().map(|(l, n)| (l.to_string(), *n)).collect()
}

#[test]
fn labels_are_counted_and_ranked() {
    let all = labels(&["b", "a", "c", "b", "d", "c"]);
    assert_eq!(tally(&all), counted(&[("b", 2), ("a", 1), ("c", 2), ("d", 1)]));
    // Most frequent first; equals in the order of their texts.
    assert_eq!(rank(&all), counted(&[("b", 2), ("c", 2), ("a", 1), ("d", 1)]));
    assert_eq!(distinct(&all), 4);
    // Every label is counted once.
    assert_eq!(rank(&all).iter().map(|(_, n)| n).sum::<usize>(), all.len());
    assert!(rank(&Vec::new()).is_empty());
    assert_eq!(distinct(&Vec::new()), 0);
}

#[test]
fn a_ranking_does_not_depend_on_the_order_of_the_labels() {
    let a = labels(&["x", "y", "x", "z", "é", "z"]);
    let b = labels(&["z", "é", "x", "z", "x", "y"]);
    assert_eq!(rank(&a), rank(&b));
    assert_eq!(rank(&a), counted(&[("x", 2), ("z", 2), ("y", 1), ("é", 1)]));
}
