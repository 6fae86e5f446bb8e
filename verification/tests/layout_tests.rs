use openzax::layout::wrap;

fn w(text: &str, width: usize) -> Vec<String> {
    wrap(text, width)
}

#[test]
fn words_fill_lines_greedily() {
    assert_eq!(w("hello world", 5), vec!["hello", "world"]);
    assert_eq!(w("hello world", 11), vec!["hello world"]);
    assert_eq!(w("abcd efgh", 4), vec!["abcd", "efgh"]);
    assert_eq!(w("a  b   c", 80), vec!["a b c"]);
}

#[test]
fn long_words_are_broken() {
    assert_eq!(w("abcdefghij", 4), vec!["abcd", "efgh", "ij"]);
    assert_eq!(w("ab abcdefgh", 4), vec!["ab a", "bcde", "fgh"]);
    assert_eq!(w("abcd efghij", 4), vec!["abcd ", "efgh", "ij"]);
}

#[test]
fn lines_and_blank_lines() {
    assert_eq!(w("a\n\nb", 10), vec!["a", "", "b"]);
    assert_eq!(w("a\r\nb\n", 10), vec!["a", "b"]);
    assert_eq!(w("   ", 5), Vec::<String>::new());
    assert_eq!(w("", 5), Vec::<String>::new());
}

#[test]
fn zero_width_keeps_the_text() {
    assert_eq!(w("x y\nz", 0), vec!["x y\nz"]);
}

#[test]
fn whitespace_is_the_unicode_white_space_set() {
    for u in 0u32..0x3100 {
        if let Some(c) = char::from_u32(u) {
            assert_eq!(openzax::text::is_whitespace(c), c.is_whitespace(), "U+{:04X}", u);
        }
    }
    assert!(openzax::text::is_whitespace('\u{3000}'));
    assert!(!openzax::text::is_whitespace('\u{200B}'));
}
