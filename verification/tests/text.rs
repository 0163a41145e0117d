use nand2tetris::text::{
    char_is_space, decimal_string, digits_only, find_char, find_comment_start, matches_text,
    read_decimal, strip_range, text_of, to_chars, CharSet,
};

#[test]
fn numbers_are_written_in_decimal() {
    assert_eq!(decimal_string(0), "0");
    assert_eq!(decimal_string(7), "7");
    assert_eq!(decimal_string(10), "10");
    assert_eq!(decimal_string(65535), "65535");
    assert_eq!(decimal_string(u64::MAX), "18446744073709551615");
}

#[test]
fn numbers_are_read_up_to_a_limit() {
    let chars = to_chars("x00123y");
    assert!(digits_only(&chars, 1, 6));
    assert!(!digits_only(&chars, 0, 6));
    assert_eq!(read_decimal(&chars, 1, 6, 1000), Some(123));
    assert_eq!(read_decimal(&chars, 1, 6, 123), Some(123));
    assert_eq!(read_decimal(&chars, 1, 6, 122), None);
    assert_eq!(read_decimal(&chars, 1, 1, 5), Some(0));
}

#[test]
fn characters_are_counted_not_bytes() {
    let chars = to_chars("a\u{00e9}\u{4e2d}z");
    assert_eq!(chars, vec!['a', '\u{00e9}', '\u{4e2d}', 'z']);
    assert_eq!(text_of(&chars, 1, 3), "\u{00e9}\u{4e2d}");
    assert_eq!(text_of(&chars, 2, 2), "");
    assert!(matches_text(&chars, 0, 4, "a\u{00e9}\u{4e2d}z"));
    assert!(!matches_text(&chars, 0, 3, "a\u{00e9}\u{4e2d}z"));
}

#[test]
fn stripping_takes_both_ends() {
    let chars = to_chars(" \t((x y)) \r\n");
    assert_eq!(strip_range(&chars, 0, chars.len(), CharSet::Spaces), (2, 9));
    assert_eq!(strip_range(&chars, 2, 9, CharSet::Parentheses), (4, 7));
    assert_eq!(strip_range(&chars, 0, 2, CharSet::Spaces), (2, 2));
    assert_eq!(strip_range(&chars, 4, 7, CharSet::Blanks), (4, 7));
    for c in ['\t', '\n', '\u{0b}', '\u{0c}', '\r', ' ', '\u{85}', '\u{a0}', '\u{1680}', '\u{2000}', '\u{200a}', '\u{2028}', '\u{2029}', '\u{202f}', '\u{205f}', '\u{3000}'] {
        assert!(char_is_space(c));
        assert!(c.is_whitespace());
    }
    for c in ['a', '0', '/', '\u{200b}', '\u{feff}', '\u{1c}'] {
        assert_eq!(char_is_space(c), c.is_whitespace());
    }
}

#[test]
fn searches_stop_at_the_first_hit() {
    let chars = to_chars("a=b=c / d // e // f");
    assert_eq!(find_char(&chars, 0, chars.len(), '='), 1);
    assert_eq!(find_char(&chars, 2, chars.len(), '='), 3);
    assert_eq!(find_char(&chars, 4, chars.len(), '='), chars.len());
    assert_eq!(find_comment_start(&chars, 0, chars.len()), 10);
    assert_eq!(find_comment_start(&chars, 0, 11), 11);
    assert_eq!(find_comment_start(&chars, 11, chars.len()), 15);
}
