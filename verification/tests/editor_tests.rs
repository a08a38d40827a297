use std::io::{BufRead, Cursor};

use rust_days::editor::{
    append_suffix, finish_line, replace_word, show_length, uppercase_preview, word_count,
};

fn read_line_from<R: BufRead>(reader: &mut R) -> String {
    let mut input = String::new();
    reader.read_line(&mut input).expect("Failed to read line");
    finish_line(&input)
}

#[test]
fn read_line_from_reads_line_and_trims_end() {
    let mut c = Cursor::new(b"hello\n");
    assert_eq!(read_line_from(&mut c), "hello");
}

#[test]
fn read_line_from_empty_line() {
    let mut c = Cursor::new(b"\n");
    assert_eq!(read_line_from(&mut c), "");
}

#[test]
fn show_length_ascii_bytes() {
    assert_eq!(show_length(""), 0);
    assert_eq!(show_length("hi"), 2);
}

#[test]
fn word_count_splits_on_whitespace() {
    assert_eq!(word_count(""), 0);
    assert_eq!(word_count("one"), 1);
    assert_eq!(word_count("a few words here"), 4);
    assert_eq!(word_count("  spaced  out  "), 2);
}

#[test]
fn append_suffix_skips_empty_suffix() {
    let mut s = String::from("base");
    append_suffix(&mut s, "");
    assert_eq!(s, "base");
}

#[test]
fn append_suffix_adds_space_and_text() {
    let mut s = String::from("Jane");
    append_suffix(&mut s, "Doe");
    assert_eq!(s, "Jane Doe");
}

#[test]
fn uppercase_preview_basic() {
    assert_eq!(uppercase_preview(""), "");
    assert_eq!(uppercase_preview("Rust"), "RUST");
}

#[test]
fn replace_word_replaces_whole_words_only() {
    let mut s = String::from("foo bar foo");
    replace_word(&mut s, "foo", "baz");
    assert_eq!(s, "baz bar baz");
}

#[test]
fn replace_word_skips_substring_inside_longer_token() {
    let mut s = String::from("foobar foo");
    replace_word(&mut s, "foo", "x");
    assert_eq!(s, "foobar x");
}

#[test]
fn replace_word_empty_from_is_noop() {
    let mut s = String::from("a b");
    replace_word(&mut s, "", "z");
    assert_eq!(s, "a b");
}

#[test]
fn replace_word_respects_punctuation_as_boundary() {
    let mut s = String::from("foo, foo.");
    replace_word(&mut s, "foo", "bar");
    assert_eq!(s, "bar, bar.");
}

#[test]
fn replace_word_underscore_is_part_of_a_word() {
    let mut s = String::from("foo_1 foo _foo");
    replace_word(&mut s, "foo", "q");
    assert_eq!(s, "foo_1 q _foo");
}

#[test]
fn replace_word_handles_multibyte_text() {
    let mut s = String::from("héllo wörld héllo");
    replace_word(&mut s, "héllo", "hi");
    assert_eq!(s, "hi wörld hi");
    assert_eq!(show_length("é"), 2);
    assert_eq!(word_count("a\u{3000}b\tc\n"), 3);
}

#[test]
fn finish_line_keeps_leading_space() {
    assert_eq!(finish_line("  x \r\n"), "  x");
}

#[test]
fn joined_texts_add_their_word_counts() {
    for (a, b) in [("one two", "three"), ("", "x y"), ("  ", ""), ("a\tb ", " c")] {
        assert_eq!(word_count(&format!("{} {}", a, b)), word_count(a) + word_count(b));
        assert_eq!(word_count(a) == 0, a.trim().is_empty());
    }
}

#[test]
fn replacing_back_restores_the_text() {
    let original = "foo bar, foo_x foo. foobar foo";
    let mut text = original.to_string();
    replace_word(&mut text, "foo", "qux");
    assert_eq!(text, "qux bar, foo_x qux. foobar qux");
    replace_word(&mut text, "qux", "foo");
    assert_eq!(text, original);
}

#[test]
fn replacing_without_effect() {
    let mut text = "alpha beta".to_string();
    replace_word(&mut text, "beta", "beta");
    assert_eq!(text, "alpha beta");
    replace_word(&mut text, "gamma", "delta");
    assert_eq!(text, "alpha beta");
    replace_word(&mut text, "", "delta");
    assert_eq!(text, "alpha beta");
}
