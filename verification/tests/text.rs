use pagi_core::text::{
    bytes_less, chars_of, contains, contains_ignoring_case, same_bytes, same_text, text_less, trim,
};

#[test]
fn contains_finds_a_needle_anywhere() {
    assert!(contains("Failure: timeout", "Failure"));
    assert!(contains("Failure: timeout", "timeout"));
    assert!(contains("Failure: timeout", ": "));
    assert!(contains("abc", ""));
    assert!(contains("", ""));
    assert!(contains("abc", "abc"));
    assert!(!contains("abc", "abcd"));
    assert!(!contains("", "a"));
    assert!(!contains("Failure", "failure"));
    assert!(contains("aab", "ab"));
    assert!(contains("na\u{ef}ve caf\u{e9}", "caf\u{e9}"));
    assert!(!contains("cafe", "caf\u{e9}"));
}

#[test]
fn contains_ignoring_case_folds_the_haystack() {
    assert!(contains_ignoring_case("Rerun: Deep Search", "deep"));
    assert!(contains_ignoring_case("DEEP", "deep"));
    assert!(!contains_ignoring_case("deep", "DEEP"));
    assert!(contains_ignoring_case("\u{c9}COLE", "\u{e9}cole"));
    assert!(contains_ignoring_case("crowdstri\u{212a}e", "crowdstrike"));
    assert!(!contains_ignoring_case("de-ep", "deep"));
}

#[test]
fn trim_removes_white_space_at_both_ends() {
    assert_eq!(trim("  a b  "), "a b");
    assert_eq!(trim("\t\r\na\u{a0}\u{2003}\u{3000}"), "a");
    assert_eq!(trim(""), "");
    assert_eq!(trim(" \n "), "");
    assert_eq!(trim("a"), "a");
    assert_eq!(trim("\u{e9} \u{e9}"), "\u{e9} \u{e9}");
    assert_eq!(trim("\u{200b}a"), "\u{200b}a");
}

#[test]
fn texts_are_ordered_by_their_bytes() {
    assert!(text_less("", "a"));
    assert!(!text_less("", ""));
    assert!(text_less("a", "b"));
    assert!(text_less("a", "ab"));
    assert!(!text_less("ab", "a"));
    assert!(text_less("B", "a"));
    assert!(text_less("z", "\u{e9}"));
    assert!(text_less("\u{ffff}", "\u{10000}"));
    assert!(!text_less("same", "same"));
    assert!(bytes_less(b"\x00", b"\x00\x00"));
    assert!(bytes_less(b"\x7f", b"\x80"));
}

#[test]
fn equality_is_by_content() {
    assert!(same_text("SearchAgent", "SearchAgent"));
    assert!(!same_text("SearchAgent", "searchagent"));
    assert!(!same_text("a", "ab"));
    assert!(same_text("", ""));
    assert!(same_bytes(b"ab", b"ab"));
    assert!(!same_bytes(b"ab", b"ba"));
    assert!(!same_bytes(b"ab", b"abc"));
}

#[test]
fn chars_of_gives_the_characters() {
    assert_eq!(chars_of("a\u{e9}\u{1f600}"), vec!['a', '\u{e9}', '\u{1f600}']);
    assert!(chars_of("").is_empty());
}
