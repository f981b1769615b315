use rfcu::lines::{
    find_line_break, line_spans, space_width_at, space_width_before, trim, window_begins_with,
    window_finishes_with, window_is_blank,
};
use rfcu::text::{append, bytes_eq, find, matches_at, slice_copy, splice};

#[test]
fn bytes_eq_compares_content_and_length() {
    assert!(bytes_eq(b"abc", b"abc"));
    assert!(!bytes_eq(b"abc", b"abd"));
    assert!(!bytes_eq(b"abc", b"ab"));
    assert!(bytes_eq(b"", b""));
}

#[test]
fn matches_at_checks_the_window() {
    assert!(matches_at(b"hello world", 6, b"world"));
    assert!(!matches_at(b"hello world", 7, b"world"));
    assert!(!matches_at(b"hello", 3, b"lol"));
    assert!(matches_at(b"hello", 5, b""));
    assert!(!matches_at(b"hello", 6, b""));
}

#[test]
fn find_returns_the_first_occurrence() {
    assert_eq!(find(b"abcabc", b"bc"), Some(1));
    assert_eq!(find(b"abcabc", b"cb"), None);
    assert_eq!(find(b"abc", b""), Some(0));
    assert_eq!(find(b"ab", b"abc"), None);
    assert_eq!(find(b"aab", b"ab"), Some(1));
}

#[test]
fn append_and_slice_copy_keep_bytes() {
    let mut out = b"ab".to_vec();
    append(&mut out, b"cd");
    assert_eq!(out, b"abcd".to_vec());
    assert_eq!(slice_copy(b"abcdef", 2, 4), b"cd".to_vec());
    assert_eq!(slice_copy(b"abcdef", 3, 3), Vec::<u8>::new());
}

#[test]
fn splice_replaces_only_the_range() {
    assert_eq!(splice(b"0123456789", 3, 6, b"xy"), b"012xy6789".to_vec());
    assert_eq!(splice(b"0123456789", 0, 10, b""), Vec::<u8>::new());
    assert_eq!(splice(b"abc", 1, 1, b"--"), b"a--bc".to_vec());
    assert_eq!(splice(b"abc", 3, 3, b"!"), b"abc!".to_vec());
}

fn std_trim_window(text: &str) -> (usize, usize) {
    let start = text.len() - text.trim_start().len();
    (start, start + text.trim().len())
}

#[test]
fn trim_agrees_with_std_on_ascii() {
    for text in ["", "   ", "abc", "  abc", "abc  ", " \t\r\n abc \x0b\x0c ", "a b", "\n"] {
        assert_eq!(trim(text.as_bytes(), 0, text.len()), std_trim_window(text), "{:?}", text);
    }
}

#[test]
fn trim_agrees_with_std_on_unicode_white_space() {
    let spaces = [
        '\u{0085}', '\u{00A0}', '\u{1680}', '\u{2000}', '\u{2001}', '\u{2002}', '\u{2003}',
        '\u{2004}', '\u{2005}', '\u{2006}', '\u{2007}', '\u{2008}', '\u{2009}', '\u{200A}',
        '\u{2028}', '\u{2029}', '\u{202F}', '\u{205F}', '\u{3000}',
    ];
    for space in spaces {
        assert!(space.is_whitespace());
        let text = format!("{}{}x y{}{}", space, ' ', space, '\t');
        assert_eq!(trim(text.as_bytes(), 0, text.len()), std_trim_window(&text), "{:?}", text);
        let blank = format!("{}{}", space, space);
        assert!(window_is_blank(blank.as_bytes(), 0, blank.len()));
    }
}

#[test]
fn trim_keeps_characters_that_are_not_white_space() {
    for text in ["\u{200B}x\u{200B}", "\u{00A1}x", "é x é", "\u{2060}", "\u{180E}a"] {
        assert_eq!(trim(text.as_bytes(), 0, text.len()), std_trim_window(text), "{:?}", text);
    }
}

#[test]
fn trim_works_inside_a_window() {
    let text = b"xx  ab  yy";
    assert_eq!(trim(text, 2, 8), (4, 6));
    assert_eq!(trim(text, 2, 4), (4, 4));
    assert_eq!(trim(text, 0, 10), (0, 10));
}

#[test]
fn space_widths_are_one_two_or_three_bytes() {
    let text = " \u{00A0}\u{3000}x".as_bytes();
    assert_eq!(space_width_at(text, 0, text.len()), 1);
    assert_eq!(space_width_at(text, 1, text.len()), 2);
    assert_eq!(space_width_at(text, 3, text.len()), 3);
    assert_eq!(space_width_at(text, 6, text.len()), 0);
    assert_eq!(space_width_at(text, 3, 5), 0);
    assert_eq!(space_width_before(text, 0, 6), 3);
    assert_eq!(space_width_before(text, 0, 3), 2);
    assert_eq!(space_width_before(text, 0, 1), 1);
    assert_eq!(space_width_before(text, 4, 6), 0);
    assert_eq!(space_width_before(text, 0, 0), 0);
}

#[test]
fn windows_are_tested_after_trimming() {
    let text = b"   /** doc */  ";
    assert!(window_begins_with(text, 0, text.len(), b"/**"));
    assert!(window_finishes_with(text, 0, text.len(), b"*/"));
    assert!(!window_begins_with(text, 0, text.len(), b"*"));
    assert!(!window_is_blank(text, 0, text.len()));
    assert!(window_is_blank(text, 0, 3));
    assert!(!window_begins_with(b"  /*", 0, 4, b"/**"));
    assert!(window_begins_with(b"abc", 0, 3, b""));
}

fn std_line_spans(text: &str) -> Vec<(usize, usize)> {
    let base = text.as_ptr() as usize;
    text.lines().map(|line| {
        let start = line.as_ptr() as usize - base;
        (start, start + line.len())
    }).collect()
}

#[test]
fn line_spans_agree_with_std_lines() {
    for text in [
        "", "a", "a\n", "a\nb", "a\n\nb\n", "\n", "\n\n", "a\r\nb\r\n", "a\r", "\r\n", "a\rb\n",
        "one\ntwo\r\nthree", "x\n\r\ny",
    ] {
        assert_eq!(line_spans(text.as_bytes(), 0, text.len()), std_line_spans(text), "{:?}", text);
    }
}

#[test]
fn line_spans_of_a_window_start_at_its_start() {
    let text = b"ab\ncd\nef";
    assert_eq!(line_spans(text, 1, 7), vec![(1, 2), (3, 5), (6, 7)]);
    assert_eq!(line_spans(text, 3, 3), Vec::<(usize, usize)>::new());
    assert_eq!(find_line_break(text, 0, 8), 2);
    assert_eq!(find_line_break(text, 3, 5), 5);
    assert_eq!(find_line_break(text, 6, 8), 8);
}
