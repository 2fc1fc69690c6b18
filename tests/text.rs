use gitprops::text::{contains, find_char, is_whitespace, lines, starts_with, trim};

#[test]
fn lines_split_like_std() {
    for s in ["", "a", "a\n", "a\r\nb", "\n\n", "x\ry\n", "a\r", "é\nü"] {
        let expected: Vec<String> = s.lines().map(|l| l.to_string()).collect();
        assert_eq!(lines(s), expected, "{:?}", s);
    }
}

#[test]
fn trim_like_std() {
    for s in ["", "  a b  ", "\t\u{3000}x\u{a0}", "   ", "y"] {
        assert_eq!(trim(s), s.trim());
    }
}

#[test]
fn whitespace_like_std() {
    for c in [' ', '\t', '\n', '\u{85}', '\u{2009}', 'a', '\u{200b}', '\u{3000}'] {
        assert_eq!(is_whitespace(c), c.is_whitespace(), "{:?}", c);
    }
}

#[test]
fn search_helpers() {
    assert!(contains("hello", "ll"));
    assert!(contains("hello", ""));
    assert!(!contains("he", "hello"));
    assert!(starts_with("Co-authored-by: x", "Co-authored-by"));
    assert!(!starts_with("Co", "Co-authored-by"));
    assert_eq!(find_char("a<b<c", '<'), Some(1));
    assert_eq!(find_char("abc", '<'), None);
}
