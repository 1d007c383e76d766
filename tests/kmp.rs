use kmp_grep::kmp::{prefix, KnuthMorrisPratt};
use kmp_grep::searcher::Searcher;

#[test]
fn prefix0() {
    let a = prefix("");
    assert!(a.is_none());
}

#[test]
fn prefix1() {
    let a = prefix("a");
    assert!(a.is_none());
}

#[test]
fn prefix2() {
    let result = prefix("abbab");
    assert_eq!(result.unwrap(), [0, 0, 0, 1, 2]);
}

#[test]
fn prefix3() {
    let result = prefix("abbababb");
    assert_eq!(result.unwrap(), [0, 0, 0, 1, 2, 1, 2, 3]);
}

#[test]
fn test1() {
    let kmp = KnuthMorrisPratt::default();
    let result = kmp.search_left("aba", "abacaba");
    assert!(result.is_some());
    assert_eq!(result.unwrap(), (0, 3));
}

#[test]
fn test2() {
    let kmp = KnuthMorrisPratt::default();
    let result = kmp.search_left("aba", "aba");
    assert!(result.is_some());
    assert_eq!(result.unwrap(), (0, 3));
}

#[test]
fn kmp_test1() {
    let kmp = KnuthMorrisPratt::default();
    let result = kmp.search_right("aba", "abacaba");
    assert!(result.is_some());
    assert_eq!(result.unwrap(), (4, 7));
}

#[test]
fn kmp_test2() {
    let kmp = KnuthMorrisPratt::default();
    let result = kmp.search_right("aba", "aba");
    assert!(result.is_some());
    assert_eq!(result.unwrap(), (0, 3));
}

#[test]
fn search_all_test1() {
    let kmp = KnuthMorrisPratt::default();
    let result = kmp.search_all("aba", "abacaba");
    assert!(result.is_some());
    assert_eq!(result.unwrap(), [(0, 3), (4, 7)]);
}

#[test]
fn search_all_test2() {
    let kmp = KnuthMorrisPratt::default();
    let result = kmp.search_all("aba", "aba");
    assert!(result.is_some());
    assert_eq!(result.unwrap(), [(0, 3)]);
}

#[test]
fn search_left_counts_characters_not_bytes() {
    let kmp = KnuthMorrisPratt::default();
    let result = kmp.search_left("русский", "Ого, русский язык");
    assert_eq!(result, Some((5, 12)));
}

#[test]
fn search_right_counts_characters_not_bytes() {
    let kmp = KnuthMorrisPratt::default();
    let result = kmp.search_right("русский", "Ого, русский язык");
    assert_eq!(result, Some((5, 12)));
}

#[test]
fn search_all_keeps_overlapping_matches() {
    let kmp = KnuthMorrisPratt::default();
    assert_eq!(kmp.search_all("aa", "aaa"), Some(vec![(0, 2), (1, 3)]));
}

#[test]
fn pattern_longer_than_line_is_no_match() {
    let kmp = KnuthMorrisPratt::default();
    assert_eq!(kmp.search_left("abcd", "abc"), None);
    assert_eq!(kmp.search_right("abcd", "abc"), None);
    assert_eq!(kmp.search_all("abcd", "abc"), None);
    assert!(!kmp.contains_match("abcd", "abc"));
}

#[test]
fn empty_pattern_has_no_match() {
    let kmp = KnuthMorrisPratt::default();
    assert_eq!(kmp.search_left("", "abc"), None);
    assert_eq!(kmp.search_all("", "abc"), None);
    assert!(!kmp.contains_match("", "abc"));
}

#[test]
fn empty_line_has_no_match() {
    let kmp = KnuthMorrisPratt::default();
    assert_eq!(kmp.search_left("a", ""), None);
    assert_eq!(kmp.search_all("a", ""), None);
}

#[test]
fn search_all_none_exactly_when_no_match() {
    let kmp = KnuthMorrisPratt::default();
    let cases = [("aba", "abacaba"), ("x", "abacaba"), ("ab", "b"), ("b", "ab")];
    for (p, l) in cases {
        assert_eq!(kmp.search_all(p, l).is_none(), !kmp.contains_match(p, l));
    }
}

#[test]
fn repeated_search_gives_same_result() {
    let kmp = KnuthMorrisPratt::default();
    assert_eq!(kmp.search_left("ab", "cabab"), kmp.search_left("ab", "cabab"));
    assert_eq!(kmp.search_right("ab", "cabab"), kmp.search_right("ab", "cabab"));
    assert_eq!(kmp.search_all("ab", "cabab"), kmp.search_all("ab", "cabab"));
    assert_eq!(kmp.search_right("ab", "cabab"), Some((3, 5)));
}

#[test]
fn prefix_of_non_ascii_text() {
    assert_eq!(prefix("ёжё").unwrap(), [0, 0, 1]);
}
