use neo::text::{
    char_is_whitespace, chars_of, find_char, find_pattern, occurs_at, split_bounds, trim_bounds,
};

fn chars(text: &str) -> Vec<char> {
    text.chars().collect()
}

fn cut(text: &str, bounds: (usize, usize)) -> String {
    text.chars().skip(bounds.0).take(bounds.1 - bounds.0).collect()
}

#[test]
fn white_space_is_what_unicode_says() {
    let mut code: u32 = 0;
    while code <= 0x10FFFF {
        if let Some(c) = char::from_u32(code) {
            assert_eq!(char_is_whitespace(c), c.is_whitespace(), "U+{:04X}", code);
        }
        code += 1;
    }
}

#[test]
fn some_white_space_and_some_other_characters() {
    for c in [' ', '\t', '\n', '\r', '\u{b}', '\u{c}', '\u{85}', '\u{a0}', '\u{1680}', '\u{2000}',
        '\u{200a}', '\u{2028}', '\u{2029}', '\u{202f}', '\u{205f}', '\u{3000}']
    {
        assert!(char_is_whitespace(c));
    }
    for c in ['a', '{', '}', ':', ',', '0', '\u{0}', '\u{8}', '\u{e}', '\u{200b}', '\u{feff}', '越'] {
        assert!(!char_is_whitespace(c));
    }
}

#[test]
fn chars_of_lists_the_characters() {
    assert_eq!(chars_of(""), Vec::<char>::new());
    assert_eq!(chars_of("aé越"), vec!['a', 'é', '越']);
}

#[test]
fn trim_bounds_agrees_with_trim() {
    for text in ["", " ", "a", " a", "a ", "  a b  ", "\t\n x\r\n", "\u{a0}é\u{3000}", "   ", "a  b"] {
        let all = chars(text);
        let bounds = trim_bounds(&all, 0, all.len());
        assert_eq!(cut(text, bounds), text.trim(), "{:?}", text);
    }
}

#[test]
fn trim_bounds_stays_inside_the_range() {
    let all = chars("ab  cd  ef");
    assert_eq!(trim_bounds(&all, 2, 8), (4, 6));
    assert_eq!(trim_bounds(&all, 2, 4), (4, 4));
    assert_eq!(trim_bounds(&all, 0, 10), (0, 10));
    assert_eq!(trim_bounds(&all, 5, 5), (5, 5));
}

#[test]
fn find_char_finds_the_first_one_in_range() {
    let all = chars("a:b:c");
    assert_eq!(find_char(&all, 0, 5, ':'), Some(1));
    assert_eq!(find_char(&all, 2, 5, ':'), Some(3));
    assert_eq!(find_char(&all, 4, 5, ':'), None);
    assert_eq!(find_char(&all, 0, 1, ':'), None);
    assert_eq!(find_char(&all, 1, 1, ':'), None);
    assert_eq!(find_char(&all, 0, 5, 'x'), None);
}

#[test]
fn split_bounds_agrees_with_split() {
    for text in ["", ",", "a", "a,b", "a,,b", ",a,", "one,two,three", ",,"] {
        let all = chars(text);
        let pieces: Vec<String> =
            split_bounds(&all, 0, all.len(), ',').into_iter().map(|b| cut(text, b)).collect();
        let expected: Vec<&str> = text.split(',').collect();
        assert_eq!(pieces, expected, "{:?}", text);
    }
}

#[test]
fn split_bounds_cuts_only_the_range() {
    let all = chars("a,b,c,d");
    assert_eq!(split_bounds(&all, 2, 5, ','), vec![(2, 3), (4, 5)]);
    assert_eq!(split_bounds(&all, 1, 2, ','), vec![(1, 1), (2, 2)]);
    assert_eq!(split_bounds(&all, 3, 3, ','), vec![(3, 3)]);
}

#[test]
fn find_pattern_finds_the_first_occurrence() {
    let blank = chars("\r\n\r\n");
    assert_eq!(find_pattern(&chars("HEAD\r\n\r\nBODY"), &blank), Some(4));
    assert_eq!(find_pattern(&chars("a\r\n\r\nb\r\n\r\nc"), &blank), Some(1));
    assert_eq!(find_pattern(&chars("\r\n\r\n"), &blank), Some(0));
    assert_eq!(find_pattern(&chars("a\r\n\r"), &blank), None);
    assert_eq!(find_pattern(&chars("\r\r\n\r\n"), &blank), Some(1));
    assert_eq!(find_pattern(&chars(""), &blank), None);
    assert_eq!(find_pattern(&chars("abc"), &chars("")), Some(0));
    assert_eq!(find_pattern(&chars(""), &chars("")), Some(0));
    assert_eq!(find_pattern(&chars("aab"), &chars("ab")), Some(1));
}

#[test]
fn occurs_at_compares_in_place() {
    let all = chars("abcabc");
    assert!(occurs_at(&all, &chars("abc"), 0));
    assert!(occurs_at(&all, &chars("abc"), 3));
    assert!(!occurs_at(&all, &chars("abc"), 1));
    assert!(occurs_at(&all, &chars(""), 6));
    assert!(!occurs_at(&all, &chars("abd"), 3));
}

#[test]
fn nothing_occurs_past_the_end() {
    let all = chars("abcabc");
    assert!(!occurs_at(&all, &chars("abc"), 4));
    assert!(!occurs_at(&all, &chars("abcabcabc"), 0));
    assert!(!occurs_at(&all, &chars(""), 7));
    assert!(!occurs_at(&all, &chars("c"), usize::MAX));
}
