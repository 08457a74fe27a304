use gpui_primitives::navigation::{
    is_word_char, whitespace, line_col_to_offset, line_count, line_end_offset, line_range_at,
    line_start_offset, newline_count, offset_above, offset_below, offset_to_line_col,
};
use gpui_primitives::text::{offset_from_utf16, offset_to_utf16};
use gpui_primitives::words::{next_boundary, previous_boundary, word_end, word_start};

#[test]
fn test_line_count_empty() {
    assert_eq!(line_count(""), 1);
}

#[test]
fn test_line_count_single_line() {
    assert_eq!(line_count("hello world"), 1);
}

#[test]
fn test_line_count_multiple_lines() {
    assert_eq!(line_count("line1\nline2\nline3"), 3);
}

#[test]
fn test_line_count_trailing_newline() {
    assert_eq!(line_count("line1\n"), 2);
}

#[test]
fn test_line_start_offset() {
    let text = "abc\ndefgh\nij";
    assert_eq!(line_start_offset(text, 0), 0);
    assert_eq!(line_start_offset(text, 1), 4);
    assert_eq!(line_start_offset(text, 2), 10);
}

#[test]
fn test_line_end_offset() {
    let text = "abc\ndefgh\nij";
    assert_eq!(line_end_offset(text, 0), 3);
    assert_eq!(line_end_offset(text, 1), 9);
    assert_eq!(line_end_offset(text, 2), 12);
}

#[test]
fn test_offset_to_line_col() {
    let text = "abc\ndefgh\nij";
    assert_eq!(offset_to_line_col(text, 0), (0, 0));
    assert_eq!(offset_to_line_col(text, 2), (0, 2));
    assert_eq!(offset_to_line_col(text, 4), (1, 0));
    assert_eq!(offset_to_line_col(text, 7), (1, 3));
    assert_eq!(offset_to_line_col(text, 10), (2, 0));
    assert_eq!(offset_to_line_col(text, 11), (2, 1));
}

#[test]
fn test_line_col_to_offset() {
    let text = "abc\ndefgh\nij";
    assert_eq!(line_col_to_offset(text, 0, 0), 0);
    assert_eq!(line_col_to_offset(text, 0, 2), 2);
    assert_eq!(line_col_to_offset(text, 1, 0), 4);
    assert_eq!(line_col_to_offset(text, 1, 3), 7);
    assert_eq!(line_col_to_offset(text, 2, 0), 10);
    assert_eq!(line_col_to_offset(text, 2, 1), 11);
}

#[test]
fn test_line_col_to_offset_clamps_column() {
    let text = "abc\nde";
    assert_eq!(line_col_to_offset(text, 0, 100), 3);
    assert_eq!(line_col_to_offset(text, 1, 100), 6);
}

#[test]
fn test_is_word_char() {
    assert!(is_word_char('a'));
    assert!(is_word_char('Z'));
    assert!(is_word_char('0'));
    assert!(is_word_char('9'));
    assert!(is_word_char('_'));
    assert!(!is_word_char(' '));
    assert!(!is_word_char('-'));
    assert!(!is_word_char('.'));
    assert!(!is_word_char('!'));
    assert!(!is_word_char('\n'));
}

#[test]
fn test_word_start_simple() {
    let text = "hello world";
    assert_eq!(word_start(text, 0), 0);
    assert_eq!(word_start(text, 3), 0);
    assert_eq!(word_start(text, 5), 0);
    assert_eq!(word_start(text, 6), 5);
    assert_eq!(word_start(text, 7), 6);
    assert_eq!(word_start(text, 9), 6);
}

#[test]
fn test_word_end_simple() {
    let text = "hello world";
    assert_eq!(word_end(text, 0), 5);
    assert_eq!(word_end(text, 3), 5);
    assert_eq!(word_end(text, 5), 6);
    assert_eq!(word_end(text, 6), 11);
    assert_eq!(word_end(text, 11), 11);
}

#[test]
fn test_word_boundaries_with_underscore() {
    let text = "hello_world";
    assert_eq!(word_start(text, 6), 0);
    assert_eq!(word_end(text, 0), 11);
}

#[test]
fn test_word_boundaries_with_hyphen() {
    let text = "foo-bar";
    assert_eq!(word_start(text, 2), 0);
    assert_eq!(word_end(text, 0), 3);
    assert_eq!(word_start(text, 4), 3);
    assert_eq!(word_end(text, 3), 4);
    assert_eq!(word_start(text, 5), 4);
    assert_eq!(word_end(text, 4), 7);
}

#[test]
fn test_word_boundaries_with_numbers() {
    let text = "test123";
    assert_eq!(word_start(text, 5), 0);
    assert_eq!(word_end(text, 0), 7);
}

#[test]
fn test_word_boundaries_empty() {
    assert_eq!(word_start("", 0), 0);
    assert_eq!(word_end("", 0), 0);
}

#[test]
fn test_word_boundaries_punctuation_only() {
    let text = "...";
    assert_eq!(word_start(text, 1), 0);
    assert_eq!(word_end(text, 0), 1);
    assert_eq!(word_end(text, 1), 2);
}

#[test]
fn grapheme_boundaries_step_over_multibyte_chars() {
    // "aé" + "b": 'é' takes two bytes.
    let text = "a\u{e9}b";
    assert_eq!(next_boundary(text, 0), 1);
    assert_eq!(next_boundary(text, 1), 3);
    assert_eq!(next_boundary(text, 3), 4);
    assert_eq!(next_boundary(text, 4), 4);
    assert_eq!(previous_boundary(text, 4), 3);
    assert_eq!(previous_boundary(text, 3), 1);
    assert_eq!(previous_boundary(text, 1), 0);
    assert_eq!(previous_boundary(text, 0), 0);
}

#[test]
fn grapheme_boundaries_keep_combining_marks_together() {
    // 'e' followed by a combining acute accent forms one grapheme of three bytes.
    let text = "e\u{301}x";
    assert_eq!(next_boundary(text, 0), 3);
    assert_eq!(previous_boundary(text, 3), 0);
    assert_eq!(next_boundary(text, 3), 4);
}

#[test]
fn word_navigation_over_unicode_letters() {
    let text = "caf\u{e9} bar";
    // "café" takes five bytes.
    assert_eq!(word_end(text, 0), 5);
    assert_eq!(word_start(text, 5), 0);
    assert_eq!(word_start(text, 9), 6);
}

#[test]
fn utf16_offsets_count_surrogate_pairs() {
    // '😀' is four bytes in UTF-8 and two units in UTF-16.
    let text = "a\u{1F600}b";
    assert_eq!(offset_to_utf16(text, 0), 0);
    assert_eq!(offset_to_utf16(text, 1), 1);
    assert_eq!(offset_to_utf16(text, 5), 3);
    assert_eq!(offset_to_utf16(text, 6), 4);
    assert_eq!(offset_from_utf16(text, 3), 5);
    assert_eq!(offset_from_utf16(text, 4), 6);
    assert_eq!(offset_from_utf16(text, offset_to_utf16(text, 5)), 5);
}

#[test]
fn line_range_at_finds_the_line_around_an_offset() {
    let text = "abc\ndefgh\nij";
    assert_eq!(line_range_at(text, 5), 4..9);
    assert_eq!(line_range_at(text, 3), 0..3);
    assert_eq!(line_range_at(text, 100), 10..12);
    assert_eq!(line_range_at("", 0), 0..0);
}

#[test]
fn vertical_moves_keep_the_column() {
    let text = "abc\ndefgh\nij";
    assert_eq!(offset_above(text, 7), Some(3));
    assert_eq!(offset_above(text, 2), None);
    assert_eq!(offset_below(text, 2), Some(6));
    assert_eq!(offset_below(text, 7), Some(12));
    assert_eq!(offset_below(text, 11), None);
    assert_eq!(newline_count(text), 2);
}

#[test]
fn line_col_round_trip() {
    let text = "abc\ndefgh\nij";
    for offset in 0..=12 {
        let (line, col) = offset_to_line_col(text, offset);
        assert_eq!(line_col_to_offset(text, line, col), offset);
    }
}

#[test]
fn word_end_always_moves_forward_inside_the_text() {
    let text = "a b";
    for offset in 0..3 {
        let end = word_end(text, offset);
        assert!(offset < end && end <= 3);
    }
    assert_eq!(word_end(text, 1), 2);
    assert_eq!(word_end(text, 3), 3);
}

#[test]
fn whitespace_agrees_with_std_on_every_char() {
    for u in 0..=0x10FFFFu32 {
        if let Some(c) = char::from_u32(u) {
            assert_eq!(whitespace(c), c.is_whitespace(), "U+{u:04X}");
        }
    }
}
