use gpui_primitives::layout_groups::{child_groups, group_runs, layout_pieces, ChildGroup, LayoutPiece};
use gpui_primitives::rendering::VisualLineInfo;
use gpui_primitives::selectable_layout_state::{word_range_at, SelectableLayoutState};
use gpui_primitives::selectable_text_state::SelectableTextState;

fn text_state(text: &str) -> SelectableTextState {
    let mut s = SelectableTextState::new();
    s.text(text);
    s
}

fn layout_state(children: &[&str]) -> SelectableLayoutState {
    let mut s = SelectableLayoutState::new();
    let texts: Vec<String> = children.iter().map(|c| c.to_string()).collect();
    s.set_children(&texts);
    s
}

#[test]
fn setting_text_clamps_the_selection() {
    let mut s = text_state("hello world");
    s.move_to(3);
    s.select_to(9);
    s.text("hello");
    assert_eq!(s.selected_range(), 3..5);
    s.move_to(8);
    s.text("hello world");
    s.text("hi");
    assert_eq!(s.selected_range(), 2..2);
    assert_eq!(s.get_text(), "hi");
}

#[test]
fn select_all_and_copy() {
    let mut s = text_state("h\u{e9}llo");
    assert_eq!(s.copy(), None);
    s.select_all();
    assert_eq!(s.selected_range(), 0..6);
    assert!(s.is_select_all());
    assert_eq!(s.copy(), Some(String::from("h\u{e9}llo")));
    s.move_to(1);
    s.select_to(3);
    assert_eq!(s.copy(), Some(String::from("\u{e9}")));
    assert!(!s.is_select_all());
}

#[test]
fn selectable_text_keyboard_navigation() {
    let mut s = text_state("foo bar\nbaz qux");
    s.move_to(5);
    s.move_to_end_of_line();
    assert_eq!(s.cursor_offset(), 7);
    s.down();
    assert_eq!(s.cursor_offset(), 15);
    s.move_to_start_of_line();
    assert_eq!(s.cursor_offset(), 8);
    s.up();
    assert_eq!(s.cursor_offset(), 0);
    s.select_down();
    assert_eq!(s.selected_range(), 0..8);
    s.right();
    assert_eq!(s.selected_range(), 8..8);
    s.select_to_end_of_line();
    assert_eq!(s.selected_range(), 8..15);
    s.left();
    assert_eq!(s.cursor_offset(), 8);
    s.move_to_previous_word();
    assert_eq!(s.cursor_offset(), 4);
    s.move_to_next_word();
    assert_eq!(s.cursor_offset(), 7);
    s.select_to_previous_word_start();
    assert_eq!(s.selected_range(), 4..7);
    assert!(s.selection_reversed());
    s.home();
    assert_eq!(s.cursor_offset(), 0);
    s.end();
    assert_eq!(s.cursor_offset(), 15);
    s.select_to_start();
    assert_eq!(s.selected_range(), 0..15);
}

#[test]
fn selectable_text_mouse_selection() {
    let mut s = text_state("one two\nthree");
    s.on_mouse_down(5, 2, false);
    assert_eq!(s.selected_range(), 4..7);
    assert!(s.is_selecting());
    s.on_mouse_up();
    assert!(!s.is_selecting());
    s.on_mouse_down(10, 3, false);
    assert_eq!(s.selected_range(), 8..13);
    assert!(s.is_select_all());
    s.on_mouse_down(2, 1, false);
    assert_eq!(s.selected_range(), 2..2);
    assert!(!s.is_select_all());
    s.on_mouse_down(6, 1, true);
    assert_eq!(s.selected_range(), 2..6);
}

#[test]
fn selectable_text_blur_drops_the_selection() {
    let mut s = text_state("hello");
    s.update_focus_state(true);
    s.select_all();
    s.update_focus_state(false);
    assert_eq!(s.selected_range(), 0..0);
    assert!(!s.is_select_all());
}

#[test]
fn selectable_text_scroll_target() {
    let mut s = text_state("a\nb\nc");
    s.move_to(4);
    assert_eq!(s.ensure_cursor_visible(Some(2)), Some(2));
    assert_eq!(s.ensure_cursor_visible(Some(3)), None);
}

#[test]
fn double_click_ranges() {
    let text = "foo  bar, baz";
    assert_eq!(word_range_at(text, 1), 0..3);
    assert_eq!(word_range_at(text, 3), 3..5);
    assert_eq!(word_range_at(text, 8), 8..9);
    assert_eq!(word_range_at(text, 13), 10..13);
    assert_eq!(word_range_at(text, 100), 10..13);
    assert_eq!(word_range_at("", 4), 0..0);
    assert_eq!(word_range_at("a.", 2), 1..2);
    assert_eq!(word_range_at("snake_case x", 4), 0..10);
    assert_eq!(word_range_at("\u{e9}t\u{e9}!", 3), 0..5);
}

#[test]
fn children_are_concatenated_with_their_offsets() {
    let s = layout_state(&["Hello, ", "w\u{f6}rld", "!"]);
    assert_eq!(s.combined_text(), "Hello, w\u{f6}rld!");
    assert_eq!(s.child_byte_offsets(), vec![0, 7, 13]);
    assert_eq!(s.total_text_len(), 14);
}

#[test]
fn layout_clicks_and_drags() {
    let mut s = layout_state(&["alpha beta", "\ngamma"]);
    s.on_mouse_down(3, 1, false);
    assert_eq!(s.selected_range(), 3..3);
    assert!(s.is_selecting());
    s.on_mouse_move_global(8);
    assert_eq!(s.selected_range(), 3..8);
    s.on_mouse_move_global(1);
    assert_eq!(s.selected_range(), 1..3);
    s.on_mouse_up();
    assert!(!s.is_selecting());
    s.on_mouse_down(9, 1, true);
    assert_eq!(s.selected_range(), 3..9);
    // Double click selects a word, and dragging extends in whole words.
    s.on_mouse_down(7, 2, false);
    assert_eq!(s.selected_range(), 6..10);
    s.on_mouse_move_global(13);
    assert_eq!(s.selected_range(), 6..16);
    s.on_mouse_move_global(2);
    assert_eq!(s.selected_range(), 0..10);
    s.on_mouse_up();
    // Triple click selects the line.
    s.on_mouse_down(12, 3, false);
    assert_eq!(s.selected_range(), 11..16);
    // More clicks change nothing.
    s.on_mouse_down(0, 4, false);
    assert_eq!(s.selected_range(), 11..16);
}

#[test]
fn layout_select_all_copy_and_blur() {
    let mut s = layout_state(&["ab", "cd"]);
    assert_eq!(s.copy(), None);
    s.select_all();
    assert_eq!(s.selected_range(), 0..4);
    assert_eq!(s.copy(), Some(String::from("abcd")));
    s.update_focus_state(true);
    s.update_focus_state(false);
    assert_eq!(s.selected_range(), 0..0);
}

#[test]
fn children_are_grouped_between_line_breaks() {
    // Children "Hello ", "world", a line break "\n", "" and "next".
    let offsets = [0, 6, 11, 12, 12];
    let breaks = [false, false, true, false, false];
    let groups = child_groups(&offsets, &breaks, 16);
    assert_eq!(
        groups,
        vec![
            ChildGroup { first_child: 0, end_child: 2, byte_start: 0, byte_end: 11 },
            ChildGroup { first_child: 4, end_child: 5, byte_start: 12, byte_end: 16 },
        ]
    );
    assert_eq!(group_runs(&offsets, &breaks, 16, &groups[0]), vec![(0, 6), (1, 5)]);
    assert_eq!(group_runs(&offsets, &breaks, 16, &groups[1]), vec![(4, 4)]);
}

#[test]
fn empty_children_make_no_group() {
    assert_eq!(child_groups(&[0, 0], &[false, false], 0), vec![]);
    assert_eq!(child_groups(&[], &[], 0), vec![]);
    assert_eq!(child_groups(&[0], &[true], 1), vec![]);
}

fn vline(start: usize, end: usize, index: usize) -> VisualLineInfo {
    VisualLineInfo { start_offset: start, end_offset: end, wrapped_line_index: 0, visual_index_in_wrapped: index }
}

#[test]
fn layout_pieces_cut_children_at_visual_lines() {
    let lines = [vline(0, 6, 0), vline(6, 11, 1)];
    assert_eq!(
        layout_pieces(&[0, 6], &[false, false], 11, &lines),
        vec![
            LayoutPiece::Segment { child: 0, start: 0, end: 6 },
            LayoutPiece::Segment { child: 1, start: 6, end: 11 },
        ]
    );
    assert_eq!(
        layout_pieces(&[0], &[false], 11, &lines),
        vec![
            LayoutPiece::Segment { child: 0, start: 0, end: 6 },
            LayoutPiece::Break { child: 0, byte_start: 0, is_line_break_child: false },
            LayoutPiece::Segment { child: 0, start: 6, end: 11 },
        ]
    );
    let lines = [vline(0, 2, 0), vline(3, 5, 0)];
    assert_eq!(
        layout_pieces(&[0, 2, 3], &[false, true, false], 5, &lines),
        vec![
            LayoutPiece::Segment { child: 0, start: 0, end: 2 },
            LayoutPiece::Break { child: 1, byte_start: 2, is_line_break_child: true },
            LayoutPiece::Segment { child: 2, start: 3, end: 5 },
        ]
    );
}
