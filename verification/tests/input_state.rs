use gpui_primitives::input_state::InputState;

fn input_with(text: &str) -> InputState {
    InputState::new().initial_value(text)
}

#[test]
fn test_is_selecting_default_false() {
    let state = InputState::new();
    assert!(!state.is_selecting(), "is_selecting should default to false");
}

#[test]
fn test_is_selecting_set_on_mouse_down_cleared_on_mouse_up() {
    let mut state = input_with("hello");
    state.on_mouse_down(2, 1, false);
    assert!(state.is_selecting(), "is_selecting should be true after mouse down");
    state.on_mouse_up();
    assert!(!state.is_selecting(), "is_selecting should be false after mouse up");
}

#[test]
fn new_input_is_empty() {
    let state = InputState::new();
    assert_eq!(state.value(), "");
    assert_eq!(state.selected_range(), 0..0);
    assert_eq!(state.undo_len(), 0);
    assert_eq!(state.redo_len(), 0);
}

#[test]
fn initial_value_is_set_once() {
    let state = InputState::new().initial_value("first").initial_value("second");
    assert_eq!(state.value(), "first");
}

#[test]
fn typing_places_cursor_after_inserted_text() {
    let mut state = input_with("hello");
    state.move_to(5);
    state.replace_text_in_range(None, " world");
    assert_eq!(state.value(), "hello world");
    assert_eq!(state.selected_range(), 11..11);
    state.move_to(0);
    state.replace_text_in_range(None, ">");
    assert_eq!(state.value(), ">hello world");
    assert_eq!(state.cursor_offset(), 1);
}

#[test]
fn typing_replaces_the_selection() {
    let mut state = input_with("hello world");
    state.move_to(0);
    state.select_to(5);
    state.replace_text_in_range(None, "bye");
    assert_eq!(state.value(), "bye world");
    assert_eq!(state.selected_range(), 3..3);
}

#[test]
fn replacing_a_utf16_range() {
    // '😀' is two UTF-16 units; replacing units 1..3 removes it.
    let mut state = input_with("a\u{1F600}b");
    state.replace_text_in_range(Some(1..3), "x");
    assert_eq!(state.value(), "axb");
    assert_eq!(state.cursor_offset(), 2);
}

#[test]
fn mapped_edit_uses_the_mapped_text() {
    let mut state = input_with("abc");
    state.move_to(3);
    let edited = state.edited_text(&None, "d");
    assert_eq!(edited, "abcd");
    state.replace_text_in_range_mapped(None, "d", edited.to_uppercase());
    assert_eq!(state.value(), "ABCD");
    assert_eq!(state.cursor_offset(), 4);
    // A map that shortens the text keeps the cursor inside it.
    let edited = state.edited_text(&None, "e");
    assert_eq!(edited, "ABCDe");
    state.replace_text_in_range_mapped(None, "e", String::from("AB"));
    assert_eq!(state.value(), "AB");
    assert_eq!(state.cursor_offset(), 2);
}

#[test]
fn composition_marks_the_inserted_text() {
    let mut state = input_with("ab");
    state.move_to(1);
    state.replace_and_mark_text_in_range(None, "xy", None);
    assert_eq!(state.value(), "axyb");
    assert_eq!(state.marked_text_range(), Some(1..3));
    assert_eq!(state.selected_range(), 3..3);
    state.unmark_text();
    assert_eq!(state.marked_text_range(), None);
}

#[test]
fn undo_then_redo_restores_each_state() {
    let mut state = input_with("abc");
    state.move_to(3);
    state.replace_text_in_range(None, "d");
    assert_eq!(state.value(), "abcd");
    assert_eq!(state.undo_len(), 1);
    state.undo();
    assert_eq!(state.value(), "abc");
    assert_eq!(state.selected_range(), 3..3);
    assert_eq!(state.redo_len(), 1);
    state.redo();
    assert_eq!(state.value(), "abcd");
    assert_eq!(state.selected_range(), 4..4);
    assert_eq!(state.redo_len(), 0);
}

#[test]
fn undo_with_empty_history_changes_nothing() {
    let mut state = input_with("abc");
    state.undo();
    assert_eq!(state.value(), "abc");
    state.redo();
    assert_eq!(state.value(), "abc");
}

#[test]
fn a_new_edit_clears_the_redo_history() {
    let mut state = input_with("abc");
    state.move_to(3);
    state.replace_text_in_range(None, "d");
    state.undo();
    assert_eq!(state.redo_len(), 1);
    state.replace_text_in_range(None, "e");
    assert_eq!(state.redo_len(), 0);
    assert_eq!(state.value(), "abce");
}

#[test]
fn history_keeps_only_the_newest_entries() {
    let mut state = input_with("");
    state.set_max_history(2);
    state.replace_text_in_range(None, "a");
    state.replace_text_in_range(None, "b");
    state.replace_text_in_range(None, "c");
    assert_eq!(state.undo_len(), 2);
    state.undo();
    state.undo();
    assert_eq!(state.value(), "a");
    state.undo();
    assert_eq!(state.value(), "a");
}

#[test]
fn backspace_and_delete() {
    let mut state = input_with("h\u{e9}llo");
    state.move_to(3);
    state.backspace();
    assert_eq!(state.value(), "hllo");
    assert_eq!(state.cursor_offset(), 1);
    state.delete();
    assert_eq!(state.value(), "hlo");
    assert_eq!(state.cursor_offset(), 1);
}

#[test]
fn deleting_words_and_lines() {
    let mut state = input_with("foo bar baz");
    state.move_to(7);
    state.delete_to_previous_word_start();
    assert_eq!(state.value(), "foo  baz");
    state.delete_to_next_word_end();
    assert_eq!(state.value(), "foo baz");
    state.delete_to_end_of_line();
    assert_eq!(state.value(), "foo ");
    state.delete_to_beginning_of_line();
    assert_eq!(state.value(), "");
}

#[test]
fn copy_cut_and_paste() {
    let mut state = input_with("hello world");
    state.move_to(0);
    state.select_to(5);
    assert_eq!(state.copy(), Some(String::from("hello")));
    assert_eq!(state.cut(), Some(String::from("hello")));
    assert_eq!(state.value(), " world");
    state.move_to(0);
    state.paste("a\nb");
    assert_eq!(state.value(), "a b world");
    state.set_multiline(true);
    state.move_to(0);
    state.paste("x\ny");
    assert_eq!(state.value(), "x\nya b world");
    state.move_to(1);
    assert_eq!(state.copy(), None);
}

#[test]
fn arrow_keys_move_by_grapheme_and_line() {
    let mut state = input_with("ab\ncd");
    state.move_to(1);
    state.right();
    assert_eq!(state.cursor_offset(), 2);
    state.down();
    assert_eq!(state.cursor_offset(), 5);
    state.up();
    assert_eq!(state.cursor_offset(), 2);
    state.left();
    assert_eq!(state.cursor_offset(), 1);
    state.select_right();
    assert_eq!(state.selected_range(), 1..2);
    state.left();
    assert_eq!(state.selected_range(), 1..1);
}

#[test]
fn selection_direction_follows_the_cursor() {
    let mut state = input_with("hello world");
    state.move_to(6);
    state.select_left();
    state.select_left();
    assert_eq!(state.selected_range(), 4..6);
    assert!(state.selection_reversed());
    assert_eq!(state.cursor_offset(), 4);
    state.select_to_end();
    assert_eq!(state.selected_range(), 6..11);
    assert!(!state.selection_reversed());
}

#[test]
fn select_all_selects_the_whole_text() {
    let mut state = input_with("hello");
    state.select_all();
    assert_eq!(state.selected_range(), 0..5);
    assert!(state.is_select_all());
    assert_eq!(state.copy(), Some(String::from("hello")));
    state.move_to(2);
    assert!(!state.is_select_all());
}

#[test]
fn line_and_document_moves() {
    let mut state = input_with("abc\ndefgh\nij");
    state.move_to(6);
    state.move_to_start_of_line();
    assert_eq!(state.cursor_offset(), 4);
    state.move_to_end_of_line();
    assert_eq!(state.cursor_offset(), 9);
    state.select_to_start_of_line();
    assert_eq!(state.selected_range(), 4..9);
    state.home();
    assert_eq!(state.cursor_offset(), 0);
    state.end();
    assert_eq!(state.cursor_offset(), 12);
    state.move_to_start();
    assert_eq!(state.cursor_offset(), 0);
    state.select_to_end();
    assert_eq!(state.selected_range(), 0..12);
}

#[test]
fn word_moves() {
    let mut state = input_with("foo bar");
    state.move_to(7);
    state.move_to_previous_word();
    assert_eq!(state.cursor_offset(), 4);
    state.move_to_next_word();
    assert_eq!(state.cursor_offset(), 7);
    state.move_to(0);
    state.select_to_next_word_end();
    assert_eq!(state.selected_range(), 0..3);
}

#[test]
fn clicks_select_words_and_lines() {
    let mut state = input_with("foo bar\nbaz");
    state.on_mouse_down(5, 2, false);
    assert_eq!(state.selected_range(), 4..7);
    state.on_mouse_up();
    state.on_mouse_down(2, 3, false);
    assert_eq!(state.selected_range(), 0..7);
    state.on_mouse_up();
    state.on_mouse_down(1, 1, false);
    state.on_mouse_move(9);
    assert_eq!(state.selected_range(), 1..9);
    state.on_mouse_up();
    state.on_mouse_move(3);
    assert_eq!(state.selected_range(), 1..9);
    state.on_mouse_down(10, 1, true);
    assert_eq!(state.selected_range(), 1..10);
}

#[test]
fn blur_collapses_the_selection() {
    let mut state = input_with("hello");
    assert_eq!(state.update_focus_state(true), Some(true));
    assert_eq!(state.update_focus_state(true), None);
    state.move_to(1);
    state.select_to(4);
    assert_eq!(state.update_focus_state(false), Some(false));
    assert_eq!(state.selected_range(), 4..4);
}

#[test]
fn utf16_ranges_for_platform_text_input() {
    let mut state = input_with("a\u{1F600}b");
    state.move_to(1);
    state.select_to(5);
    let sel = state.selected_text_range().unwrap();
    assert_eq!(sel.range, 1..3);
    assert!(!sel.reversed);
    assert_eq!(state.range_to_utf16(&(0..6)), 0..4);
    assert_eq!(state.range_from_utf16(&(1..3)), 1..5);
    let mut actual = None;
    assert_eq!(state.text_for_range(1..3, &mut actual), Some(String::from("\u{1F600}")));
    assert_eq!(actual, Some(1..3));
}

#[test]
fn newlines_are_inserted_at_the_cursor() {
    let mut state = input_with("ab");
    state.move_to(1);
    state.insert_newline();
    assert_eq!(state.value(), "a\nb");
    state.insert_newline_secondary();
    assert_eq!(state.value(), "a\n\nb");
}

#[test]
fn clear_returns_the_previous_value() {
    let mut state = input_with("abc");
    assert_eq!(state.clear(), Some(String::from("abc")));
    assert_eq!(state.value(), "");
    assert_eq!(state.clear(), None);
}

#[test]
fn cursor_visibility_target_when_lines_overflow() {
    let mut state = input_with("a\nb\nc\nd");
    state.move_to(6);
    assert_eq!(state.ensure_cursor_visible(Some(2)), Some(3));
    assert_eq!(state.ensure_cursor_visible(Some(4)), None);
    assert_eq!(state.ensure_cursor_visible(None), None);
}

#[test]
fn a_history_limit_of_zero_keeps_nothing() {
    let mut state = input_with("abc");
    state.set_max_history(0);
    state.move_to(3);
    state.replace_text_in_range(None, "d");
    assert_eq!(state.value(), "abcd");
    assert_eq!(state.undo_len(), 0);
    state.undo();
    assert_eq!(state.value(), "abcd");
    assert_eq!(state.selected_range(), 4..4);
}

#[test]
fn word_end_moves_forward() {
    let mut state = input_with("a b");
    state.move_to(1);
    state.move_to_next_word();
    assert_eq!(state.cursor_offset(), 2);
    assert_eq!(state.edit_byte_range(&None), (2, 2));
}
