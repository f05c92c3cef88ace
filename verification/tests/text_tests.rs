use red_robin::text::{
    char_is_whitespace, is_blank, split_line_words, split_lines, split_whitespace, text_equals,
    text_less_or_equal, trim,
};

#[test]
fn whitespace_matches_std() {
    for code in 0u32..0x3100 {
        if let Some(c) = char::from_u32(code) {
            assert_eq!(char_is_whitespace(c), c.is_whitespace(), "U+{code:04X}");
        }
    }
    for c in ['\u{FEFF}', '\u{180E}', '\u{200B}', 'x', '\u{10FFFF}'] {
        assert_eq!(char_is_whitespace(c), c.is_whitespace());
    }
}

#[test]
fn trim_matches_std() {
    for text in ["", "  ", " a ", "\t\na b\r\n", "\u{3000}x\u{85}", "abc", " é "] {
        assert_eq!(trim(text), text.trim());
        assert_eq!(is_blank(text), text.trim().is_empty());
    }
}

#[test]
fn words_match_std() {
    for text in ["", "   ", "a", " a  b\tc\n", "default via 10.0.0.1 dev eth0\r", "x\u{a0}y"] {
        let expected: Vec<String> = text.split_whitespace().map(|w| w.to_string()).collect();
        assert_eq!(split_whitespace(text), expected);
    }
}

#[test]
fn lines_split_at_line_feeds() {
    assert_eq!(split_lines("a\nb\n"), vec!["a", "b", ""]);
    assert_eq!(split_lines(""), vec![""]);
    assert_eq!(split_lines("x\r\ny"), vec!["x\r", "y"]);
    let words = split_line_words("a b\n\nc\n");
    assert_eq!(words, vec![vec!["a".to_string(), "b".to_string()], vec![], vec!["c".to_string()], vec![]]);
}

#[test]
fn text_comparisons() {
    assert!(text_equals("abc", "abc"));
    assert!(!text_equals("abc", "abd"));
    for (a, b) in [("a", "b"), ("ab", "a"), ("", "x"), ("eth10", "eth2"), ("Z", "a"), ("é", "z"), ("same", "same")] {
        assert_eq!(text_less_or_equal(a, b), a <= b, "{a} {b}");
    }
}
