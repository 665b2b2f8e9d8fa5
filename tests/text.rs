use office_terminal::text::{
    count_newlines, find_last_line_start, is_space_char, lowercase_ascii, to_ascii_lower,
    trim_chars, trim_end_chars,
};

fn chars(s: &str) -> Vec<char> {
    s.chars().collect()
}

#[test]
fn white_space_matches_unicode() {
    for c in ['\t', '\n', '\u{b}', '\u{c}', '\r', ' ', '\u{85}', '\u{a0}', '\u{1680}', '\u{2000}',
        '\u{200a}', '\u{2028}', '\u{2029}', '\u{202f}', '\u{205f}', '\u{3000}'] {
        assert!(is_space_char(c), "{c:?}");
        assert!(c.is_whitespace());
    }
    for c in ['a', '>', '\u{200b}', '\u{0}', '\u{1f}', '\u{feff}'] {
        assert!(!is_space_char(c), "{c:?}");
        assert_eq!(c.is_whitespace(), false);
    }
}

#[test]
fn trimming_matches_str_trim() {
    for s in ["", "   ", "\u{a0} show code\u{3000}\r", "a", "  x y  "] {
        assert_eq!(trim_chars(&chars(s)), chars(s.trim()), "{s:?}");
        assert_eq!(trim_end_chars(&chars(s)), chars(s.trim_end()), "{s:?}");
    }
}

#[test]
fn ascii_lowercase_leaves_other_characters() {
    assert_eq!(to_ascii_lower('Q'), 'q');
    assert_eq!(to_ascii_lower('É'), 'É');
    assert_eq!(lowercase_ascii(&chars("ShOw CoDe 1")), chars("show code 1"));
}

#[test]
fn lines_are_located_and_counted() {
    assert_eq!(find_last_line_start(&chars("ab\ncd\n>>x")), 6);
    assert_eq!(find_last_line_start(&chars("no break")), 0);
    assert_eq!(count_newlines(&chars("a\nb\n\nc")), 3);
    assert_eq!(count_newlines(&[]), 0);
}
