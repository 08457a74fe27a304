use gpui_primitives::navigation::compute_line_offsets;
use gpui_primitives::rendering::{
    build_visual_lines, build_visual_lines_from_wrap_boundaries, ensure_cursor_visible_in_scroll,
    scroll_target, slice_runs_for_range, visual_line_for_offset, VisualLineInfo, WrappedLineLayout,
};
use gpui_primitives::selection::{apply_selection_change, should_show_trailing_whitespace};

fn make_visual_lines(ranges: &[(usize, usize)]) -> Vec<VisualLineInfo> {
    ranges
        .iter()
        .enumerate()
        .map(|(i, &(start, end))| VisualLineInfo {
            start_offset: start,
            end_offset: end,
            wrapped_line_index: 0,
            visual_index_in_wrapped: i,
        })
        .collect()
}

#[test]
fn test_visual_line_info_struct() {
    let info = VisualLineInfo {
        start_offset: 0,
        end_offset: 10,
        wrapped_line_index: 0,
        visual_index_in_wrapped: 0,
    };
    assert_eq!(info.start_offset, 0);
    assert_eq!(info.end_offset, 10);
    assert_eq!(info.wrapped_line_index, 0);
    assert_eq!(info.visual_index_in_wrapped, 0);
}

#[test]
fn test_line_offsets_single_line() {
    let offsets = compute_line_offsets("hello");
    assert_eq!(offsets, vec![(0, 5)]);
}

#[test]
fn test_line_offsets_multiple_lines() {
    let offsets = compute_line_offsets("abc\ndef\nghi");
    assert_eq!(offsets, vec![(0, 3), (4, 7), (8, 11)]);
}

#[test]
fn test_line_offsets_empty_string() {
    let offsets = compute_line_offsets("");
    assert_eq!(offsets, vec![(0, 0)]);
}

#[test]
fn test_line_offsets_trailing_newline() {
    let offsets = compute_line_offsets("abc\n");
    assert_eq!(offsets, vec![(0, 3), (4, 4)]);
}

#[test]
fn test_line_offsets_empty_lines() {
    let offsets = compute_line_offsets("a\n\nb");
    assert_eq!(offsets, vec![(0, 1), (2, 2), (3, 4)]);
}

#[test]
fn test_line_offsets_unicode() {
    let text = "h\u{e9}llo\nw\u{f6}rld";
    let offsets = compute_line_offsets(text);
    let first_line = &text[offsets[0].0..offsets[0].1];
    let second_line = &text[offsets[1].0..offsets[1].1];
    assert_eq!(first_line, "h\u{e9}llo");
    assert_eq!(second_line, "w\u{f6}rld");
}

#[test]
fn test_trailing_ws_selection_past_line_end() {
    assert!(should_show_trailing_whitespace(&(0..10), 5));
}

#[test]
fn test_trailing_ws_selection_at_line_end() {
    assert!(!should_show_trailing_whitespace(&(0..5), 5));
}

#[test]
fn test_trailing_ws_selection_before_line_end() {
    assert!(!should_show_trailing_whitespace(&(0..3), 5));
}

#[test]
fn test_trailing_ws_selection_exactly_at_end() {
    assert!(!should_show_trailing_whitespace(&(2..7), 7));
}

#[test]
fn test_trailing_ws_selection_one_past_end() {
    assert!(should_show_trailing_whitespace(&(2..8), 7));
}

#[test]
fn test_ensure_cursor_visible_no_scroll_when_no_max_lines() {
    let target = ensure_cursor_visible_in_scroll(5, false, &[], None, |_| 2, || 10);
    assert_eq!(target, None);
}

#[test]
fn test_ensure_cursor_visible_no_scroll_when_lines_fit() {
    let target = ensure_cursor_visible_in_scroll(5, false, &[], Some(5), |_| 1, || 3);
    assert_eq!(target, None);
}

#[test]
fn test_ensure_cursor_visible_scrolls_when_lines_exceed_max() {
    let target = ensure_cursor_visible_in_scroll(5, false, &[], Some(3), |_| 5, || 10);
    assert_eq!(target, Some(5));
}

#[test]
fn test_ensure_cursor_visible_wrapped_finds_correct_visual_line() {
    let visual_lines = make_visual_lines(&[(0, 10), (11, 25), (26, 40)]);
    let target = ensure_cursor_visible_in_scroll(15, true, &visual_lines, Some(2), |_| 0, || 0);
    assert_eq!(target, Some(1));
}

#[test]
fn test_ensure_cursor_visible_wrapped_cursor_beyond_end() {
    let visual_lines = make_visual_lines(&[(0, 10), (11, 25)]);
    let target = ensure_cursor_visible_in_scroll(100, true, &visual_lines, Some(1), |_| 0, || 0);
    assert_eq!(target, Some(0));
}

#[test]
fn test_ensure_cursor_visible_wrapped_empty_visual_lines() {
    let target = ensure_cursor_visible_in_scroll(0, true, &[], Some(3), |_| 0, || 0);
    assert_eq!(target, None);
}

#[test]
fn test_ensure_cursor_visible_unwrapped_uses_offset_to_line() {
    let mut called_with = None;
    let target = ensure_cursor_visible_in_scroll(
        42,
        false,
        &[],
        Some(3),
        |offset| {
            called_with = Some(offset);
            7
        },
        || 20,
    );
    assert_eq!(called_with, Some(42));
    assert_eq!(target, Some(7));
}

#[test]
fn test_apply_selection_change_forward() {
    let mut range = 5..10;
    let mut reversed = false;
    apply_selection_change(&mut range, &mut reversed, 15);
    assert_eq!(range, 5..15);
    assert!(!reversed);
}

#[test]
fn test_apply_selection_change_reversed() {
    let mut range = 5..10;
    let mut reversed = true;
    apply_selection_change(&mut range, &mut reversed, 3);
    assert_eq!(range, 3..10);
    assert!(reversed);
}

#[test]
fn test_apply_selection_change_flips_direction() {
    let mut range = 5..10;
    let mut reversed = false;
    apply_selection_change(&mut range, &mut reversed, 2);
    assert_eq!(range, 2..5);
    assert!(reversed);
}

#[test]
fn selection_change_flips_back_when_crossing_the_anchor_again() {
    let mut range = 5..10;
    let mut reversed = true;
    apply_selection_change(&mut range, &mut reversed, 12);
    assert_eq!(range, 10..12);
    assert!(!reversed);
}

#[test]
fn visual_lines_from_wrap_boundaries_split_a_line() {
    let mut lines = Vec::new();
    build_visual_lines_from_wrap_boundaries(&mut lines, &[4, 9], 2, 100, 12);
    assert_eq!(
        lines,
        vec![
            VisualLineInfo { start_offset: 100, end_offset: 104, wrapped_line_index: 2, visual_index_in_wrapped: 0 },
            VisualLineInfo { start_offset: 104, end_offset: 109, wrapped_line_index: 2, visual_index_in_wrapped: 1 },
            VisualLineInfo { start_offset: 109, end_offset: 112, wrapped_line_index: 2, visual_index_in_wrapped: 2 },
        ]
    );
}

#[test]
fn visual_lines_of_several_logical_lines() {
    // "hello world\nab": the first line wraps after "hello ".
    let layouts = vec![
        WrappedLineLayout { len: 11, wrap_offsets: vec![6] },
        WrappedLineLayout { len: 2, wrap_offsets: vec![] },
    ];
    let lines = build_visual_lines(14, &layouts);
    assert_eq!(
        lines,
        vec![
            VisualLineInfo { start_offset: 0, end_offset: 6, wrapped_line_index: 0, visual_index_in_wrapped: 0 },
            VisualLineInfo { start_offset: 6, end_offset: 11, wrapped_line_index: 0, visual_index_in_wrapped: 1 },
            VisualLineInfo { start_offset: 12, end_offset: 14, wrapped_line_index: 1, visual_index_in_wrapped: 0 },
        ]
    );
    assert_eq!(visual_line_for_offset(&lines, 7), 1);
    assert_eq!(visual_line_for_offset(&lines, 13), 2);
    assert_eq!(visual_line_for_offset(&lines, 6), 0);
}

#[test]
fn scroll_target_only_when_overflowing() {
    assert_eq!(scroll_target(4, 10, Some(3)), Some(4));
    assert_eq!(scroll_target(4, 3, Some(3)), None);
    assert_eq!(scroll_target(4, 10, None), None);
}

#[test]
fn slicing_runs_keeps_the_overlapping_parts() {
    // Runs of 3, 4 and 5 bytes cover 0..3, 3..7 and 7..12.
    let runs = [3, 4, 5];
    assert_eq!(
        slice_runs_for_range(&runs, 2, 8),
        vec![(Some(0), 1), (Some(1), 4), (Some(2), 1)]
    );
    assert_eq!(slice_runs_for_range(&runs, 3, 7), vec![(Some(1), 4)]);
    assert_eq!(
        slice_runs_for_range(&runs, 0, 12),
        vec![(Some(0), 3), (Some(1), 4), (Some(2), 5)]
    );
    let total: usize = slice_runs_for_range(&runs, 1, 10).iter().map(|r| r.1).sum();
    assert_eq!(total, 9);
}

#[test]
fn slicing_an_empty_or_unreached_range_gives_one_empty_default_run() {
    let runs = [3, 4, 5];
    assert_eq!(slice_runs_for_range(&runs, 5, 5), vec![(None, 0)]);
    assert_eq!(slice_runs_for_range(&runs, 8, 2), vec![(None, 0)]);
    assert_eq!(slice_runs_for_range(&runs, 12, 20), vec![(None, 0)]);
    assert_eq!(slice_runs_for_range(&[], 0, 4), vec![(None, 0)]);
}
