//! Selections: a byte range with a direction that tells which end holds the cursor.
use core::ops::Range;
use vstd::prelude::*;

verus! {

/// The end of a selection where the cursor is: the start when reversed, else the end.
pub open spec fn cursor_of(start: int, end: int, reversed: bool) -> int {
    if reversed {
        start
    } else {
        end
    }
}

/// The end of a selection that stays put while the selection is extended.
pub open spec fn anchor_of(start: int, end: int, reversed: bool) -> int {
    if reversed {
        end
    } else {
        start
    }
}

/// The selection `(start, end, reversed)` after its cursor end moves to `offset`:
/// the cursor end is replaced, and the range is flipped when it became inverted.
pub open spec fn selection_change(start: int, end: int, reversed: bool, offset: int) -> (
    int,
    int,
    bool,
) {
    let (s, e) = if reversed {
        (offset, end)
    } else {
        (start, offset)
    };
    if e < s {
        (e, s, !reversed)
    } else {
        (s, e, reversed)
    }
}

/// Sets the active end of the selection to `offset` and normalizes its direction.
pub fn apply_selection_change(
    selected_range: &mut Range<usize>,
    selection_reversed: &mut bool,
    offset: usize,
)
    ensures
        ({
            let r = selection_change(
                old(selected_range).start as int,
                old(selected_range).end as int,
                *old(selection_reversed),
                offset as int,
            );
            &&& final(selected_range).start == r.0
            &&& final(selected_range).end == r.1
            &&& *final(selection_reversed) == r.2
        }),
{
    if *selection_reversed {
        selected_range.start = offset;
    } else {
        selected_range.end = offset;
    }
    if selected_range.end < selected_range.start {
        *selection_reversed = !*selection_reversed;
        let s = selected_range.start;
        let e = selected_range.end;
        *selected_range = e..s;
    }
}

/// Whether the selection runs past the end of a line, so that the line's trailing
/// whitespace is highlighted too.
pub fn should_show_trailing_whitespace(selected_range: &Range<usize>, line_end_offset: usize) -> (r:
    bool)
    ensures
        r == (selected_range.end > line_end_offset),
{
    selected_range.end > line_end_offset
}

/// Moving the cursor end of a selection puts the cursor at the new offset, keeps the
/// anchor where it was, and leaves an ordered range.
pub proof fn law_selection_change(start: int, end: int, reversed: bool, offset: int)
    ensures
        ({
            let r = selection_change(start, end, reversed, offset);
            &&& cursor_of(r.0, r.1, r.2) == offset
            &&& anchor_of(r.0, r.1, r.2) == anchor_of(start, end, reversed)
            &&& r.0 <= r.1
        }),
{
}

} // verus!
