//! Editing state of a text input: text, selection, IME composition range, and undo/redo history.
use core::ops::Range;
use vstd::prelude::*;
use vstd::string::{StrSliceExecFns, StringExecFns};

use crate::navigation::{
    column_of_offset, count_newlines, line_count, line_count_of, line_end_index, line_end_offset,
    line_of_offset, line_range_at, line_start_index, line_start_offset, min_usize, next_newline,
    offset_of_line_col, offset_to_line_col,
};
use crate::rendering::{overflows, scroll_target};
use crate::selection::{anchor_of, apply_selection_change, cursor_of, selection_change};
use crate::text::{
    byte_len, byte_offset, byte_offsets, char_boundary_at, char_index_for_byte, chars_before_byte,
    is_char_boundary_of, lemma_byte_len_concat, lemma_from_utf16_boundary, offset_from_utf16,
    offset_from_utf16_of, offset_to_utf16, offset_to_utf16_of, str_byte_len, utf16_offset,
};
use crate::words::{
    next_boundary, next_boundary_of, previous_boundary, previous_boundary_of, word_end,
    word_end_of, word_start, word_start_of,
};

verus! {

/// A snapshot of the text and selection kept in the undo and redo history.
pub struct HistoryEntry {
    pub text: Seq<char>,
    pub start: int,
    pub end: int,
    pub reversed: bool,
}

/// The abstract state of an input.
pub struct InputModel {
    /// The text (empty while no value is set).
    pub text: Seq<char>,
    /// Whether a value is set.
    pub has_value: bool,
    /// Selected byte range and whether the cursor sits at its start.
    pub start: int,
    pub end: int,
    pub reversed: bool,
    /// Byte range of the IME composition text, if any.
    pub marked: Option<(int, int)>,
    pub selecting: bool,
    pub select_all: bool,
    pub multiline: bool,
    /// Undo history, most recent last.
    pub undo: Seq<HistoryEntry>,
    /// Redo history, most recent last.
    pub redo: Seq<HistoryEntry>,
    pub max_history: nat,
    /// Whether the input had focus when focus was last looked at.
    pub focused: bool,
}

/// A byte range `start..end` of a text, with both ends on char boundaries.
pub open spec fn range_on_boundaries(text: Seq<char>, start: int, end: int) -> bool {
    is_char_boundary_of(text, start) && is_char_boundary_of(text, end)
}

/// The text with the bytes `a..b` replaced by `new` (the part before `a`, then `new`,
/// then the part from `b` on).
pub open spec fn spliced(text: Seq<char>, a: int, b: int, new: Seq<char>) -> Seq<char> {
    text.take(chars_before_byte(text, a)) + new + text.skip(chars_before_byte(text, b))
}

/// The range of an optional `Range<usize>`, as a pair.
pub open spec fn range_pair(r: Option<Range<usize>>) -> Option<(int, int)> {
    match r {
        Some(r) => Some((r.start as int, r.end as int)),
        None => None,
    }
}

impl InputModel {
    /// The snapshot of this state that the history records.
    pub open spec fn entry(self) -> HistoryEntry {
        HistoryEntry { text: self.text, start: self.start, end: self.end, reversed: self.reversed }
    }

    /// Where the cursor is.
    pub open spec fn cursor(self) -> int {
        cursor_of(self.start, self.end, self.reversed)
    }

    /// Whether the selection is empty (`Range::is_empty`: the start is not below the end).
    pub open spec fn sel_empty(self) -> bool {
        self.start >= self.end
    }

    pub open spec fn len(self) -> int {
        byte_len(self.text) as int
    }

    /// The cursor placed at `o`, with nothing selected.
    pub open spec fn moved_to(self, o: int) -> InputModel {
        InputModel { start: o, end: o, ..self }
    }

    /// The cursor end of the selection moved to `o`.
    pub open spec fn selected_to(self, o: int) -> InputModel {
        let r = selection_change(self.start, self.end, self.reversed, o);
        InputModel { start: r.0, end: r.1, reversed: r.2, ..self }
    }

    /// The state after focus is found to be `f`: on a change it is recorded, and losing
    /// focus collapses the selection to the cursor.
    pub open spec fn with_focus(self, f: bool) -> InputModel {
        if f == self.focused {
            self
        } else if f {
            InputModel { focused: f, ..self }
        } else {
            InputModel { focused: f, ..self.moved_to(self.cursor()) }
        }
    }

    /// `move_to`: the cursor moves to `o` and a select-all ends.
    pub open spec fn move_to(self, o: int) -> InputModel {
        InputModel { select_all: false, ..self.moved_to(o) }
    }

    /// `select_to`: the selection extends to `o` and a select-all ends.
    pub open spec fn select_to(self, o: int) -> InputModel {
        InputModel { select_all: false, ..self.selected_to(o) }
    }

    /// The history after recording this state before an edit: with a history limit of 0
    /// nothing is kept; otherwise the oldest entry is dropped when the history is full and
    /// this state is added. The redo history is cleared either way.
    pub open spec fn pushed_undo(self) -> InputModel {
        if self.max_history == 0 {
            InputModel { undo: Seq::empty(), redo: Seq::empty(), ..self }
        } else {
            let undo = if self.undo.len() >= self.max_history {
                self.undo.drop_first()
            } else {
                self.undo
            };
            InputModel { undo: undo.push(self.entry()), redo: Seq::empty(), ..self }
        }
    }

    /// This state with text and selection taken from a history entry.
    pub open spec fn restored(self, e: HistoryEntry) -> InputModel {
        InputModel {
            text: e.text,
            has_value: true,
            start: e.start,
            end: e.end,
            reversed: e.reversed,
            ..self
        }
    }

    /// `undo`: the latest undo entry is restored and the current state goes to the redo history.
    pub open spec fn undone(self) -> InputModel {
        if self.undo.len() == 0 {
            self
        } else {
            InputModel {
                undo: self.undo.drop_last(),
                redo: self.redo.push(self.entry()),
                ..self
            }.restored(self.undo.last())
        }
    }

    /// `redo`: the latest redo entry is restored and the current state goes to the undo history.
    pub open spec fn redone(self) -> InputModel {
        if self.redo.len() == 0 {
            self
        } else {
            InputModel {
                redo: self.redo.drop_last(),
                undo: self.undo.push(self.entry()),
                ..self
            }.restored(self.redo.last())
        }
    }

    /// The byte range that an edit replaces: the given UTF-16 range converted to bytes,
    /// else the composition range, else the selection.
    pub open spec fn edit_range(self, range_utf16: Option<(int, int)>) -> (int, int) {
        match range_utf16 {
            Some(r) => (
                offset_from_utf16_of(self.text, r.0) as int,
                offset_from_utf16_of(self.text, r.1) as int,
            ),
            None => match self.marked {
                Some(m) => m,
                None => (self.start, self.end),
            },
        }
    }

    /// Whether the range that an edit replaces can be cut out of the text.
    pub open spec fn edit_range_ok(self, range_utf16: Option<(int, int)>) -> bool {
        let r = self.edit_range(range_utf16);
        range_on_boundaries(self.text, r.0, r.1)
    }

    /// What an edit needs: a range on char boundaries.
    pub open spec fn can_edit(self, range_utf16: Option<(int, int)>) -> bool {
        self.edit_range_ok(range_utf16)
    }

    /// The text that an edit produces before any mapping: the range replaced by `new`.
    pub open spec fn edited(self, range_utf16: Option<(int, int)>, new: Seq<char>) -> Seq<char> {
        let r = self.edit_range(range_utf16);
        spliced(self.text, r.0, r.1, new)
    }

    /// An edit whose resulting text is `out` (the edited text, or what a text map made of
    /// it): the state is recorded for undo, the cursor lands after the inserted text
    /// (at most at the end of `out`), and the composition ends.
    pub open spec fn replaced_into(
        self,
        range_utf16: Option<(int, int)>,
        new: Seq<char>,
        out: Seq<char>,
    ) -> InputModel {
        let r = self.edit_range(range_utf16);
        let c = if r.0 + byte_len(new) < byte_len(out) {
            r.0 + byte_len(new)
        } else {
            byte_len(out) as int
        };
        InputModel {
            text: out,
            has_value: true,
            start: c,
            end: c,
            marked: None,
            ..self.pushed_undo()
        }
    }

    /// `replace_text_in_range`: the range is replaced by `new`, with no text map.
    pub open spec fn replaced(self, range_utf16: Option<(int, int)>, new: Seq<char>) -> InputModel {
        self.replaced_into(range_utf16, new, self.edited(range_utf16, new))
    }

    /// A composition edit (IME) whose resulting text is `out`: as `replaced_into`, but the
    /// inserted text becomes the composition range and the selection is given in UTF-16
    /// offsets of `out`, shifted by the replaced range.
    pub open spec fn replaced_and_marked_into(
        self,
        range_utf16: Option<(int, int)>,
        new: Seq<char>,
        sel_utf16: Option<(int, int)>,
        out: Seq<char>,
    ) -> InputModel {
        let r = self.edit_range(range_utf16);
        let marked = if new.len() > 0 {
            Some((r.0, r.0 + byte_len(new)))
        } else {
            None
        };
        let sel = match sel_utf16 {
            Some(s) => (
                offset_from_utf16_of(out, s.0) + r.0,
                offset_from_utf16_of(out, s.1) + r.1,
            ),
            None => (r.0 + byte_len(new), r.0 + byte_len(new)),
        };
        InputModel {
            text: out,
            has_value: true,
            start: sel.0,
            end: sel.1,
            marked: marked,
            ..self.pushed_undo()
        }
    }

    /// `replace_and_mark_text_in_range`: a composition edit with no text map.
    pub open spec fn replaced_and_marked(
        self,
        range_utf16: Option<(int, int)>,
        new: Seq<char>,
        sel_utf16: Option<(int, int)>,
    ) -> InputModel {
        self.replaced_and_marked_into(range_utf16, new, sel_utf16, self.edited(range_utf16, new))
    }

    /// Whether the offsets that a composition edit computes fit in a `usize`.
    pub open spec fn marked_fits(
        self,
        range_utf16: Option<(int, int)>,
        new: Seq<char>,
        sel_utf16: Option<(int, int)>,
        out: Seq<char>,
    ) -> bool {
        let r = self.edit_range(range_utf16);
        &&& r.0 + byte_len(new) <= usize::MAX
        &&& sel_utf16 matches Some(s) ==> {
            &&& offset_from_utf16_of(out, s.0) + r.0 <= usize::MAX
            &&& offset_from_utf16_of(out, s.1) + r.1 <= usize::MAX
        }
    }
}

/// An entry of the undo or redo history.
struct UndoEntry {
    text: String,
    selected_range: Range<usize>,
    selection_reversed: bool,
}

impl UndoEntry {
    spec fn model(self) -> HistoryEntry {
        HistoryEntry {
            text: self.text@,
            start: self.selected_range.start as int,
            end: self.selected_range.end as int,
            reversed: self.selection_reversed,
        }
    }
}

/// The selection in UTF-16 offsets, as platform text-input APIs take it.
pub struct Utf16Selection {
    pub range: Range<usize>,
    pub reversed: bool,
}

/// Core state of a text input: text, selection, IME composition range and history.
pub struct InputState {
    value: Option<String>,
    selected_range: Range<usize>,
    selection_reversed: bool,
    marked_range: Option<Range<usize>>,
    is_selecting: bool,
    is_select_all: bool,
    is_multiline: bool,
    undo_stack: Vec<UndoEntry>,
    redo_stack: Vec<UndoEntry>,
    max_history: usize,
    was_focused: bool,
}

impl View for InputState {
    type V = InputModel;

    closed spec fn view(&self) -> InputModel {
        InputModel {
            text: match self.value {
                Some(s) => s@,
                None => Seq::empty(),
            },
            has_value: self.value is Some,
            start: self.selected_range.start as int,
            end: self.selected_range.end as int,
            reversed: self.selection_reversed,
            marked: range_pair(self.marked_range),
            selecting: self.is_selecting,
            select_all: self.is_select_all,
            multiline: self.is_multiline,
            undo: self.undo_stack@.map_values(|e: UndoEntry| e.model()),
            redo: self.redo_stack@.map_values(|e: UndoEntry| e.model()),
            max_history: self.max_history as nat,
            focused: self.was_focused,
        }
    }
}

/// The text with bytes `a..b` replaced by `new_text`.
fn splice(text: &str, a: usize, b: usize, new_text: &str) -> (r: String)
    ensures
        r@ == spliced(text@, a as int, b as int, new_text@),
{
    let offsets = byte_offsets(text);
    let ia = char_index_for_byte(&offsets, a, Ghost(text@));
    let ib = char_index_for_byte(&offsets, b, Ghost(text@));
    let n = offsets.len() - 1;
    let before = text.substring_char(0, ia);
    let after = text.substring_char(ib, n);
    let mut r = String::from_str(before);
    r.append(new_text);
    r.append(after);
    proof {
        assert(before@ =~= text@.take(ia as int));
        assert(after@ =~= text@.skip(ib as int));
    }
    r
}

/// An edit of the composition range or the selection that could be made can still be
/// made after the selection is extended to a boundary `o`.
proof fn lemma_select_keeps_boundaries(m: InputModel, o: int)
    requires
        m.can_edit(None),
        is_char_boundary_of(m.text, o),
    ensures
        m.select_to(o).can_edit(None),
{
}

/// Byte length of the splice, when its ends are boundaries.
proof fn lemma_spliced_len(text: Seq<char>, a: int, b: int, new: Seq<char>)
    requires
        range_on_boundaries(text, a, b),
    ensures
        byte_len(spliced(text, a, b, new)) == a + byte_len(new) + (byte_len(text) - b),
{
    let ia = chars_before_byte(text, a);
    let ib = chars_before_byte(text, b);
    crate::words::lemma_boundary_index(text, a);
    crate::words::lemma_boundary_index(text, b);
    lemma_byte_len_concat(text.take(ia) + new, text.skip(ib));
    lemma_byte_len_concat(text.take(ia), new);
    lemma_byte_len_concat(text.take(ib), text.skip(ib));
    assert(text.take(ib) + text.skip(ib) =~= text);
}

impl InputState {
    /// A new, empty input with a history of 200 entries.
    pub fn new() -> (s: Self)
        ensures
            s@ == (InputModel {
                text: Seq::empty(),
                has_value: false,
                start: 0,
                end: 0,
                reversed: false,
                marked: None,
                selecting: false,
                select_all: false,
                multiline: false,
                undo: Seq::empty(),
                redo: Seq::empty(),
                max_history: 200,
                focused: false,
            }),
    {
        let s = InputState {
            value: None,
            selected_range: 0..0,
            selection_reversed: false,
            marked_range: None,
            is_selecting: false,
            is_select_all: false,
            is_multiline: false,
            undo_stack: Vec::new(),
            redo_stack: Vec::new(),
            max_history: 200,
            was_focused: false,
        };
        proof {
            assert(s@.undo =~= Seq::<HistoryEntry>::empty());
            assert(s@.redo =~= Seq::<HistoryEntry>::empty());
        }
        s
    }

    /// The text as a string slice (empty while no value is set).
    fn text(&self) -> (r: &str)
        ensures
            r@ == self@.text,
    {
        match &self.value {
            Some(s) => s.as_str(),
            None => {
                proof {
                    reveal_strlit("");
                }
                ""
            },
        }
    }

    /// The current text (empty while no value is set).
    pub fn value(&self) -> (r: String)
        ensures
            r@ == self@.text,
    {
        match &self.value {
            Some(s) => s.clone(),
            None => String::new(),
        }
    }

    /// The selected byte range.
    pub fn selected_range(&self) -> (r: Range<usize>)
        ensures
            r.start == self@.start,
            r.end == self@.end,
    {
        self.selected_range.start..self.selected_range.end
    }

    /// Whether the cursor sits at the start of the selection.
    pub fn selection_reversed(&self) -> (r: bool)
        ensures
            r == self@.reversed,
    {
        self.selection_reversed
    }

    /// Whether a drag selection is in progress.
    pub fn is_selecting(&self) -> (r: bool)
        ensures
            r == self@.selecting,
    {
        self.is_selecting
    }

    /// Whether the current selection came from select-all.
    pub fn is_select_all(&self) -> (r: bool)
        ensures
            r == self@.select_all,
    {
        self.is_select_all
    }

    /// Whether the input takes several lines.
    pub fn is_multiline(&self) -> (r: bool)
        ensures
            r == self@.multiline,
    {
        self.is_multiline
    }

    /// Sets whether the input takes several lines (pasted newlines are kept only then).
    pub fn set_multiline(&mut self, multiline: bool)
        ensures
            final(self)@ == (InputModel { multiline: multiline, ..old(self)@ }),
    {
        self.is_multiline = multiline;
    }

    /// Number of entries in the undo history.
    pub fn undo_len(&self) -> (r: usize)
        ensures
            r == self@.undo.len(),
    {
        self.undo_stack.len()
    }

    /// Number of entries in the redo history.
    pub fn redo_len(&self) -> (r: usize)
        ensures
            r == self@.redo.len(),
    {
        self.redo_stack.len()
    }

    /// Where the cursor is: the start of the selection when reversed, else its end.
    pub fn cursor_offset(&self) -> (r: usize)
        ensures
            r == self@.cursor(),
    {
        if self.selection_reversed {
            self.selected_range.start
        } else {
            self.selected_range.end
        }
    }

    /// In unwrapped mode, the line that the list of lines should scroll to (centred) so
    /// that the cursor shows: the cursor's line when the text has more lines than the
    /// `multiline_clamp` lines that fit, else `None`.
    pub fn ensure_cursor_visible(&self, multiline_clamp: Option<usize>) -> (r: Option<usize>)
        requires
            self@.text.len() < usize::MAX,
        ensures
            ({
                let t = self@.text;
                &&& overflows(multiline_clamp, line_count_of(t) as int) ==> r == Some(
                    line_of_offset(t, self@.cursor()) as usize,
                )
                &&& !overflows(multiline_clamp, line_count_of(t) as int) ==> r is None
            }),
    {
        let text = self.text();
        let (line, _) = offset_to_line_col(text, self.cursor_offset());
        scroll_target(line, line_count(text), multiline_clamp)
    }

    /// Sets the history limit; both histories keep only their newest `max` entries.
    pub fn set_max_history(&mut self, max: usize)
        ensures
            final(self)@ == (InputModel {
                max_history: max as nat,
                undo: if old(self)@.undo.len() > max {
                    old(self)@.undo.skip(old(self)@.undo.len() - max)
                } else {
                    old(self)@.undo
                },
                redo: if old(self)@.redo.len() > max {
                    old(self)@.redo.skip(old(self)@.redo.len() - max)
                } else {
                    old(self)@.redo
                },
                ..old(self)@
            }),
    {
        self.max_history = max;
        if self.undo_stack.len() > max {
            let at = self.undo_stack.len() - max;
            let kept = self.undo_stack.split_off(at);
            self.undo_stack = kept;
        }
        if self.redo_stack.len() > max {
            let at = self.redo_stack.len() - max;
            let kept = self.redo_stack.split_off(at);
            self.redo_stack = kept;
        }
        proof {
            let ou = old(self)@.undo;
            let or = old(self)@.redo;
            if ou.len() > max {
                assert(self@.undo =~= ou.skip(ou.len() - max));
            }
            if or.len() > max {
                assert(self@.redo =~= or.skip(or.len() - max));
            }
        }
    }

    /// Clears the text and the selection; returns the previous value.
    pub fn clear(&mut self) -> (r: Option<String>)
        ensures
            final(self)@ == (InputModel {
                text: Seq::empty(),
                has_value: false,
                start: 0,
                end: 0,
                ..old(self)@
            }),
            old(self)@.has_value == (r is Some),
            r matches Some(v) ==> v@ == old(self)@.text,
    {
        self.selected_range = 0..0;
        self.value.take()
    }

    /// Sets the initial text, only when no value is set yet.
    pub fn initial_value(self, text: &str) -> (s: Self)
        ensures
            self@.has_value ==> s@ == self@,
            !self@.has_value ==> s@ == (InputModel { text: text@, has_value: true, ..self@ }),
    {
        let mut s = self;
        if s.value.is_some() {
            return s;
        }
        s.value = Some(String::from_str(text));
        s
    }

    /// Records whether the input has focus now. Returns `Some(true)` when it gained focus
    /// (the cursor starts blinking), `Some(false)` when it lost focus (the blinking stops
    /// and the selection collapses to the cursor), and `None` when nothing changed.
    pub fn update_focus_state(&mut self, is_focused: bool) -> (r: Option<bool>)
        ensures
            final(self)@ == old(self)@.with_focus(is_focused),
            r == if is_focused == old(self)@.focused {
                None
            } else {
                Some(is_focused)
            },
    {
        if is_focused == self.was_focused {
            return None;
        }
        self.was_focused = is_focused;
        if !is_focused {
            let cursor = self.cursor_offset();
            self.selected_range = cursor..cursor;
        }
        Some(is_focused)
    }

    /// Places the cursor at `offset`, clearing the selection, without ending a select-all.
    pub fn move_to_without_scroll(&mut self, offset: usize)
        ensures
            final(self)@ == old(self)@.moved_to(offset as int),
    {
        self.selected_range = offset..offset;
    }

    /// Places the cursor at `offset`, clearing the selection.
    pub fn move_to(&mut self, offset: usize)
        ensures
            final(self)@ == old(self)@.move_to(offset as int),
    {
        self.is_select_all = false;
        self.selected_range = offset..offset;
    }

    /// Moves the cursor end of the selection to `offset`, without ending a select-all.
    pub fn select_to_without_scroll(&mut self, offset: usize)
        ensures
            final(self)@ == old(self)@.selected_to(offset as int),
    {
        apply_selection_change(&mut self.selected_range, &mut self.selection_reversed, offset);
    }

    /// Moves the cursor end of the selection to `offset`.
    pub fn select_to(&mut self, offset: usize)
        ensures
            final(self)@ == old(self)@.select_to(offset as int),
    {
        self.is_select_all = false;
        apply_selection_change(&mut self.selected_range, &mut self.selection_reversed, offset);
    }

    /// Selects the word at `offset` (double-click).
    pub fn select_word_at(&mut self, offset: usize)
        ensures
            ({
                let s = word_start_of(old(self)@.text, offset as int);
                final(self)@ == (InputModel {
                    start: s,
                    end: word_end_of(old(self)@.text, s),
                    reversed: false,
                    ..old(self)@
                })
            }),
    {
        let text = self.text();
        let start = word_start(text, offset);
        proof {
            crate::words::lemma_word_start_boundary(text@, offset as int);
        }
        let end = word_end(text, start);
        self.selected_range = start..end;
        self.selection_reversed = false;
    }

    /// Left arrow: a selection collapses to its start, else the cursor moves one grapheme left.
    pub fn left(&mut self)
        ensures
            final(self)@ == if old(self)@.sel_empty() {
                old(self)@.move_to(previous_boundary_of(old(self)@.text, old(self)@.cursor()))
            } else {
                old(self)@.move_to(old(self)@.start)
            },
    {
        if self.selected_range.start >= self.selected_range.end {
            let target = previous_boundary(self.text(), self.cursor_offset());
            self.move_to(target);
        } else {
            let s = self.selected_range.start;
            self.move_to(s);
        }
    }

    /// Right arrow: a selection collapses to its end, else the cursor moves one grapheme right.
    pub fn right(&mut self)
        ensures
            final(self)@ == if old(self)@.sel_empty() {
                old(self)@.move_to(next_boundary_of(old(self)@.text, old(self)@.end))
            } else {
                old(self)@.move_to(old(self)@.end)
            },
    {
        if self.selected_range.start >= self.selected_range.end {
            let target = next_boundary(self.text(), self.selected_range.end);
            self.move_to(target);
        } else {
            let e = self.selected_range.end;
            self.move_to(e);
        }
    }

    /// Shift-left: extends the selection one grapheme left.
    pub fn select_left(&mut self)
        ensures
            final(self)@ == old(self)@.select_to(
                previous_boundary_of(old(self)@.text, old(self)@.cursor()),
            ),
    {
        let target = previous_boundary(self.text(), self.cursor_offset());
        self.select_to(target);
    }

    /// Shift-right: extends the selection one grapheme right.
    pub fn select_right(&mut self)
        ensures
            final(self)@ == old(self)@.select_to(
                next_boundary_of(old(self)@.text, old(self)@.cursor()),
            ),
    {
        let target = next_boundary(self.text(), self.cursor_offset());
        self.select_to(target);
    }

    /// Up arrow: a selection collapses to its start, else the cursor moves one line up.
    pub fn up(&mut self)
        ensures
            ({
                let m = old(self)@;
                let t = m.text;
                let line = line_of_offset(t, m.cursor());
                final(self)@ == if !m.sel_empty() {
                    m.move_to(m.start)
                } else if line > 0 {
                    m.move_to(
                        offset_of_line_col(t, (line - 1) as nat, column_of_offset(t, m.cursor())),
                    )
                } else {
                    m
                }
            }),
    {
        if self.selected_range.start >= self.selected_range.end {
            if let Some(target) = crate::navigation::offset_above(self.text(), self.cursor_offset()) {
                self.move_to(target);
            }
        } else {
            let s = self.selected_range.start;
            self.move_to(s);
        }
    }

    /// Down arrow: a selection collapses to its end, else the cursor moves one line down.
    pub fn down(&mut self)
        ensures
            ({
                let m = old(self)@;
                let t = m.text;
                let line = line_of_offset(t, m.cursor());
                final(self)@ == if !m.sel_empty() {
                    m.move_to(m.end)
                } else if line < count_newlines(t) {
                    m.move_to(
                        offset_of_line_col(t, (line + 1) as nat, column_of_offset(t, m.cursor())),
                    )
                } else {
                    m
                }
            }),
    {
        if self.selected_range.start >= self.selected_range.end {
            if let Some(target) = crate::navigation::offset_below(self.text(), self.cursor_offset()) {
                self.move_to(target);
            }
        } else {
            let e = self.selected_range.end;
            self.move_to(e);
        }
    }

    /// Shift-up: extends the selection one line up.
    pub fn select_up(&mut self)
        ensures
            ({
                let m = old(self)@;
                let t = m.text;
                let line = line_of_offset(t, m.cursor());
                final(self)@ == if line > 0 {
                    m.select_to(
                        offset_of_line_col(t, (line - 1) as nat, column_of_offset(t, m.cursor())),
                    )
                } else {
                    m
                }
            }),
    {
        if let Some(target) = crate::navigation::offset_above(self.text(), self.cursor_offset()) {
            self.select_to(target);
        }
    }

    /// Shift-down: extends the selection one line down.
    pub fn select_down(&mut self)
        ensures
            ({
                let m = old(self)@;
                let t = m.text;
                let line = line_of_offset(t, m.cursor());
                final(self)@ == if line < count_newlines(t) {
                    m.select_to(
                        offset_of_line_col(t, (line + 1) as nat, column_of_offset(t, m.cursor())),
                    )
                } else {
                    m
                }
            }),
    {
        if let Some(target) = crate::navigation::offset_below(self.text(), self.cursor_offset()) {
            self.select_to(target);
        }
    }

    /// Selects the whole text.
    pub fn select_all(&mut self)
        ensures
            final(self)@ == (InputModel { select_all: true, ..old(self)@ }).moved_to(0).selected_to(
                old(self)@.len(),
            ),
    {
        self.is_select_all = true;
        self.move_to_without_scroll(0);
        let len = str_byte_len(self.text());
        self.select_to_without_scroll(len);
    }

    /// Moves the cursor to the start of the text.
    pub fn home(&mut self)
        ensures
            final(self)@ == old(self)@.move_to(0),
    {
        self.move_to(0);
    }

    /// Moves the cursor to the end of the text.
    pub fn end(&mut self)
        ensures
            final(self)@ == old(self)@.move_to(old(self)@.len()),
    {
        let len = str_byte_len(self.text());
        self.move_to(len);
    }

    /// Moves the cursor to the start of the previous word (or collapses a selection to its start).
    pub fn move_to_previous_word(&mut self)
        ensures
            ({
                let m = old(self)@;
                final(self)@ == if m.sel_empty() {
                    m.move_to(word_start_of(m.text, previous_boundary_of(m.text, m.cursor())))
                } else {
                    m.move_to(m.start)
                }
            }),
    {
        if self.selected_range.start >= self.selected_range.end {
            let text = self.text();
            let prev = previous_boundary(text, self.cursor_offset());
            let target = word_start(text, prev);
            self.move_to(target);
        } else {
            let s = self.selected_range.start;
            self.move_to(s);
        }
    }

    /// Moves the cursor to the end of the next word (or collapses a selection to its end).
    pub fn move_to_next_word(&mut self)
        requires
            old(self)@.sel_empty() && old(self)@.cursor() < old(self)@.len() ==> is_char_boundary_of(
                old(self)@.text,
                old(self)@.cursor(),
            ),
        ensures
            ({
                let m = old(self)@;
                final(self)@ == if m.sel_empty() {
                    m.move_to(word_end_of(m.text, m.cursor()))
                } else {
                    m.move_to(m.end)
                }
            }),
            old(self)@.sel_empty() && old(self)@.cursor() < old(self)@.len() ==> old(self)@.cursor()
                < word_end_of(old(self)@.text, old(self)@.cursor()) <= old(self)@.len(),
    {
        if self.selected_range.start >= self.selected_range.end {
            let target = word_end(self.text(), self.cursor_offset());
            self.move_to(target);
        } else {
            let e = self.selected_range.end;
            self.move_to(e);
        }
    }

    /// Extends the selection to the start of the previous word.
    pub fn select_to_previous_word_start(&mut self)
        ensures
            ({
                let m = old(self)@;
                final(self)@ == m.select_to(
                    word_start_of(m.text, previous_boundary_of(m.text, m.cursor())),
                )
            }),
    {
        let text = self.text();
        let prev = previous_boundary(text, self.cursor_offset());
        let target = word_start(text, prev);
        self.select_to(target);
    }

    /// Extends the selection to the end of the next word.
    pub fn select_to_next_word_end(&mut self)
        requires
            old(self)@.cursor() < old(self)@.len() ==> is_char_boundary_of(
                old(self)@.text,
                old(self)@.cursor(),
            ),
        ensures
            final(self)@ == old(self)@.select_to(word_end_of(old(self)@.text, old(self)@.cursor())),
            old(self)@.cursor() < old(self)@.len() ==> old(self)@.cursor() < word_end_of(
                old(self)@.text,
                old(self)@.cursor(),
            ) <= old(self)@.len(),
    {
        let target = word_end(self.text(), self.cursor_offset());
        self.select_to(target);
    }

    /// Start of the cursor's line.
    fn cursor_line_start(&self) -> (r: usize)
        ensures
            r == byte_offset(
                self@.text,
                line_start_index(self@.text, line_of_offset(self@.text, self@.cursor())),
            ),
    {
        let text = self.text();
        let (line, _) = offset_to_line_col(text, self.cursor_offset());
        line_start_offset(text, line)
    }

    /// End of the cursor's line.
    fn cursor_line_end(&self) -> (r: usize)
        ensures
            r == byte_offset(
                self@.text,
                line_end_index(self@.text, line_of_offset(self@.text, self@.cursor())),
            ),
    {
        let text = self.text();
        let (line, _) = offset_to_line_col(text, self.cursor_offset());
        line_end_offset(text, line)
    }

    /// Moves the cursor to the start of its line.
    pub fn move_to_start_of_line(&mut self)
        ensures
            final(self)@ == old(self)@.move_to(line_start_of_cursor(old(self)@)),
    {
        let target = self.cursor_line_start();
        self.move_to(target);
    }

    /// Moves the cursor to the end of its line.
    pub fn move_to_end_of_line(&mut self)
        ensures
            final(self)@ == old(self)@.move_to(line_end_of_cursor(old(self)@)),
    {
        let target = self.cursor_line_end();
        self.move_to(target);
    }

    /// Extends the selection to the start of the cursor's line.
    pub fn select_to_start_of_line(&mut self)
        ensures
            final(self)@ == old(self)@.select_to(line_start_of_cursor(old(self)@)),
    {
        let target = self.cursor_line_start();
        self.select_to(target);
    }

    /// Extends the selection to the end of the cursor's line.
    pub fn select_to_end_of_line(&mut self)
        ensures
            final(self)@ == old(self)@.select_to(line_end_of_cursor(old(self)@)),
    {
        let target = self.cursor_line_end();
        self.select_to(target);
    }

    /// Moves the cursor to the start of the text.
    pub fn move_to_start(&mut self)
        ensures
            final(self)@ == old(self)@.move_to(0),
    {
        self.move_to(0);
    }

    /// Moves the cursor to the end of the text.
    pub fn move_to_end(&mut self)
        ensures
            final(self)@ == old(self)@.move_to(old(self)@.len()),
    {
        let len = str_byte_len(self.text());
        self.move_to(len);
    }

    /// Extends the selection to the start of the text.
    pub fn select_to_start(&mut self)
        ensures
            final(self)@ == old(self)@.select_to(0),
    {
        self.select_to(0);
    }

    /// Extends the selection to the end of the text.
    pub fn select_to_end(&mut self)
        ensures
            final(self)@ == old(self)@.select_to(old(self)@.len()),
    {
        let len = str_byte_len(self.text());
        self.select_to(len);
    }

    /// Records the current text and selection for undo (nothing is kept with a history
    /// limit of 0); clears the redo history.
    fn push_undo(&mut self)
        ensures
            final(self)@ == old(self)@.pushed_undo(),
    {
        if self.max_history == 0 {
            self.undo_stack.clear();
            self.redo_stack.clear();
            proof {
                assert(self@.undo =~= Seq::<HistoryEntry>::empty());
                assert(self@.redo =~= Seq::<HistoryEntry>::empty());
            }
            return;
        }
        let ghost old_undo = self@.undo;
        if self.undo_stack.len() >= self.max_history {
            self.undo_stack.remove(0);
            proof {
                assert(self.undo_stack@.map_values(|e: UndoEntry| e.model()) =~= old_undo.drop_first());
            }
        }
        let entry = UndoEntry {
            text: self.value(),
            selected_range: self.selected_range.start..self.selected_range.end,
            selection_reversed: self.selection_reversed,
        };
        let ghost mid_undo = self@.undo;
        self.undo_stack.push(entry);
        self.redo_stack.clear();
        proof {
            assert(self@.undo =~= mid_undo.push(old(self)@.entry()));
            assert(self@.redo =~= Seq::<HistoryEntry>::empty());
        }
    }

    /// The byte range that an edit of `range_utf16` replaces: that range in bytes, else the
    /// composition range, else the selection.
    pub fn edit_byte_range(&self, range_utf16: &Option<Range<usize>>) -> (r: (usize, usize))
        ensures
            r.0 == self@.edit_range(range_pair(*range_utf16)).0,
            r.1 == self@.edit_range(range_pair(*range_utf16)).1,
    {
        match range_utf16 {
            Some(r) => {
                let text = self.text();
                (offset_from_utf16(text, r.start), offset_from_utf16(text, r.end))
            },
            None => match &self.marked_range {
                Some(m) => (m.start, m.end),
                None => (self.selected_range.start, self.selected_range.end),
            },
        }
    }

    /// Whether an edit of the range (given in UTF-16, else the composition range, else the
    /// selection) can be made: the range falls on char boundaries.
    pub fn can_edit(&self, range_utf16: &Option<Range<usize>>) -> (r: bool)
        ensures
            r == self@.can_edit(range_pair(*range_utf16)),
    {
        let (a, b) = self.edit_byte_range(range_utf16);
        let text = self.text();
        char_boundary_at(text, a) && char_boundary_at(text, b)
    }

    /// The text that replacing a range (given in UTF-16, else the composition range, else
    /// the selection) with `new_text` gives, before any text map is applied to it.
    pub fn edited_text(&self, range_utf16: &Option<Range<usize>>, new_text: &str) -> (r: String)
        requires
            self@.edit_range_ok(range_pair(*range_utf16)),
        ensures
            r@ == self@.edited(range_pair(*range_utf16), new_text@),
            ({
                let e = self@.edit_range(range_pair(*range_utf16));
                byte_len(r@) == e.0 + byte_len(new_text@) + (self@.len() - e.1)
            }),
    {
        let ghost m = self@;
        let (a, b) = self.edit_byte_range(range_utf16);
        proof {
            lemma_spliced_len(m.text, a as int, b as int, new_text@);
        }
        splice(self.text(), a, b, new_text)
    }

    /// Applies an edit whose resulting text is `mapped_text`: what a text map made of
    /// [`Self::edited_text`] for the same range and `new_text`. The previous state is
    /// recorded for undo and the cursor lands after the inserted text.
    pub fn replace_text_in_range_mapped(
        &mut self,
        range_utf16: Option<Range<usize>>,
        new_text: &str,
        mapped_text: String,
    )
        requires
            old(self)@.can_edit(range_pair(range_utf16)),
            old(self)@.edit_range(range_pair(range_utf16)).0 + byte_len(new_text@) <= usize::MAX,
        ensures
            final(self)@ == old(self)@.replaced_into(
                range_pair(range_utf16),
                new_text@,
                mapped_text@,
            ),
    {
        let (a, _b) = self.edit_byte_range(&range_utf16);
        self.push_undo();
        let new_len = str_byte_len(new_text);
        let final_len = str_byte_len(mapped_text.as_str());
        let sum = a + new_len;
        let new_cursor = if sum < final_len {
            sum
        } else {
            final_len
        };
        self.value = Some(mapped_text);
        self.selected_range = new_cursor..new_cursor;
        self.marked_range = None;
    }

    /// Replaces a range (given in UTF-16, else the composition range, else the selection)
    /// with `new_text`, recording the previous state for undo; the cursor lands after the
    /// inserted text.
    pub fn replace_text_in_range(&mut self, range_utf16: Option<Range<usize>>, new_text: &str)
        requires
            old(self)@.can_edit(range_pair(range_utf16)),
        ensures
            final(self)@ == old(self)@.replaced(range_pair(range_utf16), new_text@),
    {
        let ghost m = self@;
        proof {
            let e = m.edit_range(range_pair(range_utf16));
            lemma_boundary_le_len(m.text, e.1);
        }
        let edited = self.edited_text(&range_utf16, new_text);
        let _edited_len = str_byte_len(edited.as_str());
        self.replace_text_in_range_mapped(range_utf16, new_text, edited);
    }

    /// Applies a composition edit (IME) whose resulting text is `mapped_text`, what a text
    /// map made of [`Self::edited_text`]: like `replace_text_in_range_mapped`, and the
    /// inserted text becomes the composition range.
    pub fn replace_and_mark_text_in_range_mapped(
        &mut self,
        range_utf16: Option<Range<usize>>,
        new_text: &str,
        new_selected_range_utf16: Option<Range<usize>>,
        mapped_text: String,
    )
        requires
            old(self)@.can_edit(range_pair(range_utf16)),
            old(self)@.marked_fits(
                range_pair(range_utf16),
                new_text@,
                range_pair(new_selected_range_utf16),
                mapped_text@,
            ),
        ensures
            final(self)@ == old(self)@.replaced_and_marked_into(
                range_pair(range_utf16),
                new_text@,
                range_pair(new_selected_range_utf16),
                mapped_text@,
            ),
    {
        let (a, b) = self.edit_byte_range(&range_utf16);
        self.push_undo();
        let new_len = str_byte_len(new_text);
        self.value = Some(mapped_text);
        if new_len > 0 {
            self.marked_range = Some(a..a + new_len);
        } else {
            self.marked_range = None;
        }
        match new_selected_range_utf16 {
            Some(s) => {
                let text = self.text();
                let s0 = offset_from_utf16(text, s.start);
                let s1 = offset_from_utf16(text, s.end);
                self.selected_range = s0 + a..s1 + b;
            },
            None => {
                self.selected_range = a + new_len..a + new_len;
            },
        }
        proof {
            crate::text::lemma_byte_len_zero_iff(new_text@);
        }
    }

    /// Replaces a range with composition text (IME): like `replace_text_in_range`, and the
    /// inserted text becomes the composition range.
    pub fn replace_and_mark_text_in_range(
        &mut self,
        range_utf16: Option<Range<usize>>,
        new_text: &str,
        new_selected_range_utf16: Option<Range<usize>>,
    )
        requires
            old(self)@.can_edit(range_pair(range_utf16)),
            ({
                let m = old(self)@;
                let r = m.edit_range(range_pair(range_utf16));
                let t = spliced(m.text, r.0, r.1, new_text@);
                new_selected_range_utf16 matches Some(s) ==> {
                    &&& offset_from_utf16_of(t, s.start as int) + r.0 <= usize::MAX
                    &&& offset_from_utf16_of(t, s.end as int) + r.1 <= usize::MAX
                }
            }),
        ensures
            final(self)@ == old(self)@.replaced_and_marked(
                range_pair(range_utf16),
                new_text@,
                range_pair(new_selected_range_utf16),
            ),
    {
        let ghost m = self@;
        proof {
            let e = m.edit_range(range_pair(range_utf16));
            lemma_boundary_le_len(m.text, e.1);
        }
        let edited = self.edited_text(&range_utf16, new_text);
        let _edited_len = str_byte_len(edited.as_str());
        self.replace_and_mark_text_in_range_mapped(
            range_utf16,
            new_text,
            new_selected_range_utf16,
            edited,
        );
    }

    /// Inserts a newline at the cursor (the submit action in multiline mode).
    pub fn insert_newline(&mut self)
        requires
            old(self)@.can_edit(None),
        ensures
            final(self)@ == old(self)@.replaced(None, seq!['\n']),
    {
        proof {
            reveal_strlit("\n");
            assert("\n"@ =~= seq!['\n']);
        }
        self.replace_text_in_range(None, "\n");
    }

    /// Inserts a newline at the cursor (the secondary submit action).
    pub fn insert_newline_secondary(&mut self)
        requires
            old(self)@.can_edit(None),
        ensures
            final(self)@ == old(self)@.replaced(None, seq!['\n']),
    {
        proof {
            reveal_strlit("\n");
            assert("\n"@ =~= seq!['\n']);
        }
        self.replace_text_in_range(None, "\n");
    }

    /// Deletes the selection (the empty string replaces it).
    fn delete_selection(&mut self)
        requires
            old(self)@.can_edit(None),
        ensures
            final(self)@ == old(self)@.replaced(None, Seq::empty()),
    {
        proof {
            reveal_strlit("");
        }
        self.replace_text_in_range(None, "");
    }

    /// Deletes back to the start of the previous word (or the selection).
    pub fn delete_to_previous_word_start(&mut self)
        requires
            old(self)@.can_edit(None),
        ensures
            ({
                let m = old(self)@;
                let s = if m.sel_empty() {
                    m.select_to(word_start_of(m.text, previous_boundary_of(m.text, m.cursor())))
                } else {
                    m
                };
                final(self)@ == s.replaced(None, Seq::empty())
            }),
    {
        if self.selected_range.start >= self.selected_range.end {
            let text = self.text();
            let prev = previous_boundary(text, self.cursor_offset());
            let target = word_start(text, prev);
            proof {
                crate::words::lemma_word_start_boundary(text@, prev as int);
                lemma_select_keeps_boundaries(self@, target as int);
            }
            self.select_to(target);
        }
        self.delete_selection();
    }

    /// Deletes forward to the end of the next word (or the selection).
    pub fn delete_to_next_word_end(&mut self)
        requires
            old(self)@.can_edit(None),
            old(self)@.sel_empty() && old(self)@.cursor() < old(self)@.len() ==> is_char_boundary_of(
                old(self)@.text,
                old(self)@.cursor(),
            ),
        ensures
            ({
                let m = old(self)@;
                let s = if m.sel_empty() {
                    m.select_to(word_end_of(m.text, m.cursor()))
                } else {
                    m
                };
                final(self)@ == s.replaced(None, Seq::empty())
            }),
            old(self)@.sel_empty() && old(self)@.cursor() < old(self)@.len() ==> old(self)@.cursor()
                < word_end_of(old(self)@.text, old(self)@.cursor()) <= old(self)@.len(),
    {
        if self.selected_range.start >= self.selected_range.end {
            let target = word_end(self.text(), self.cursor_offset());
            proof {
                lemma_select_keeps_boundaries(self@, target as int);
            }
            self.select_to(target);
        }
        self.delete_selection();
    }

    /// Deletes back to the start of the cursor's line (or the selection).
    pub fn delete_to_beginning_of_line(&mut self)
        requires
            ({
                let m = old(self)@;
                (if m.sel_empty() {
                    m.select_to(line_start_of_cursor(m))
                } else {
                    m
                }).can_edit(None)
            }),
        ensures
            ({
                let m = old(self)@;
                let s = if m.sel_empty() {
                    m.select_to(line_start_of_cursor(m))
                } else {
                    m
                };
                final(self)@ == s.replaced(None, Seq::empty())
            }),
    {
        if self.selected_range.start >= self.selected_range.end {
            let target = self.cursor_line_start();
            self.select_to(target);
        }
        self.delete_selection();
    }

    /// Deletes forward to the end of the cursor's line (or the selection).
    pub fn delete_to_end_of_line(&mut self)
        requires
            ({
                let m = old(self)@;
                (if m.sel_empty() {
                    m.select_to(line_end_of_cursor(m))
                } else {
                    m
                }).can_edit(None)
            }),
        ensures
            ({
                let m = old(self)@;
                let s = if m.sel_empty() {
                    m.select_to(line_end_of_cursor(m))
                } else {
                    m
                };
                final(self)@ == s.replaced(None, Seq::empty())
            }),
    {
        if self.selected_range.start >= self.selected_range.end {
            let target = self.cursor_line_end();
            self.select_to(target);
        }
        self.delete_selection();
    }

    /// Backspace: deletes the grapheme before the cursor (or the selection).
    pub fn backspace(&mut self)
        requires
            old(self)@.can_edit(None),
        ensures
            ({
                let m = old(self)@;
                let s = if m.sel_empty() {
                    m.select_to(previous_boundary_of(m.text, m.cursor()))
                } else {
                    m
                };
                final(self)@ == s.replaced(None, Seq::empty())
            }),
    {
        if self.selected_range.start >= self.selected_range.end {
            let target = previous_boundary(self.text(), self.cursor_offset());
            proof {
                lemma_select_keeps_boundaries(self@, target as int);
            }
            self.select_to(target);
        }
        self.delete_selection();
    }

    /// Delete: deletes the grapheme after the cursor (or the selection).
    pub fn delete(&mut self)
        requires
            old(self)@.can_edit(None),
        ensures
            ({
                let m = old(self)@;
                let s = if m.sel_empty() {
                    m.select_to(next_boundary_of(m.text, m.cursor()))
                } else {
                    m
                };
                final(self)@ == s.replaced(None, Seq::empty())
            }),
    {
        if self.selected_range.start >= self.selected_range.end {
            let target = next_boundary(self.text(), self.cursor_offset());
            proof {
                lemma_select_keeps_boundaries(self@, target as int);
            }
            self.select_to(target);
        }
        self.delete_selection();
    }

    /// The selected text, when the selection is not empty.
    pub fn copy(&self) -> (r: Option<String>)
        requires
            !self@.sel_empty() ==> range_on_boundaries(self@.text, self@.start, self@.end),
        ensures
            ({
                let m = self@;
                &&& m.sel_empty() ==> r is None
                &&& !m.sel_empty() ==> (r matches Some(s) && s@ == m.text.subrange(
                    chars_before_byte(m.text, m.start),
                    chars_before_byte(m.text, m.end),
                ))
            }),
    {
        if self.selected_range.start >= self.selected_range.end {
            return None;
        }
        let text = self.text();
        let offsets = byte_offsets(text);
        let ia = char_index_for_byte(&offsets, self.selected_range.start, Ghost(text@));
        let ib = char_index_for_byte(&offsets, self.selected_range.end, Ghost(text@));
        proof {
            crate::words::lemma_boundary_index(text@, self@.start);
            crate::words::lemma_boundary_index(text@, self@.end);
            if ib < ia {
                crate::text::lemma_offset_mono(text@, ib as int, ia as int);
            }
        }
        Some(String::from_str(text.substring_char(ia, ib)))
    }

    /// Cuts the selection: returns the selected text and deletes it.
    pub fn cut(&mut self) -> (r: Option<String>)
        requires
            !old(self)@.sel_empty() ==> range_on_boundaries(old(self)@.text, old(self)@.start, old(self)@.end),
            !old(self)@.sel_empty() ==> old(self)@.can_edit(None),
        ensures
            ({
                let m = old(self)@;
                &&& m.sel_empty() ==> r is None && final(self)@ == m
                &&& !m.sel_empty() ==> (r matches Some(s) && s@ == m.text.subrange(
                    chars_before_byte(m.text, m.start),
                    chars_before_byte(m.text, m.end),
                ) && final(self)@ == m.replaced(None, Seq::empty()))
            }),
    {
        let copied = self.copy();
        if copied.is_some() {
            self.delete_selection();
        }
        copied
    }

    /// Pastes `text` at the selection; in single-line mode newlines become spaces.
    pub fn paste(&mut self, text: &str)
        requires
            old(self)@.can_edit(None),
        ensures
            final(self)@ == old(self)@.replaced(
                None,
                if old(self)@.multiline {
                    text@
                } else {
                    newlines_to_spaces(text@)
                },
            ),
    {
        if self.is_multiline {
            self.replace_text_in_range(None, text);
        } else {
            let flat = replace_newlines(text);
            self.replace_text_in_range(None, flat.as_str());
        }
    }

    /// Restores the latest undo entry; the current state goes to the redo history.
    pub fn undo(&mut self)
        ensures
            final(self)@ == old(self)@.undone(),
    {
        if self.undo_stack.len() == 0 {
            return;
        }
        let ghost m = self@;
        let entry = self.undo_stack.pop().unwrap();
        let current = UndoEntry {
            text: self.value(),
            selected_range: self.selected_range.start..self.selected_range.end,
            selection_reversed: self.selection_reversed,
        };
        let ghost mid_redo = self@.redo;
        self.redo_stack.push(current);
        self.value = Some(entry.text);
        self.selected_range = entry.selected_range;
        self.selection_reversed = entry.selection_reversed;
        proof {
            assert(self@.undo =~= m.undo.drop_last());
            assert(self@.redo =~= m.redo.push(m.entry()));
        }
    }

    /// Restores the latest redo entry; the current state goes to the undo history.
    pub fn redo(&mut self)
        ensures
            final(self)@ == old(self)@.redone(),
    {
        if self.redo_stack.len() == 0 {
            return;
        }
        let ghost m = self@;
        let entry = self.redo_stack.pop().unwrap();
        let current = UndoEntry {
            text: self.value(),
            selected_range: self.selected_range.start..self.selected_range.end,
            selection_reversed: self.selection_reversed,
        };
        self.undo_stack.push(current);
        self.value = Some(entry.text);
        self.selected_range = entry.selected_range;
        self.selection_reversed = entry.selection_reversed;
        proof {
            assert(self@.redo =~= m.redo.drop_last());
            assert(self@.undo =~= m.undo.push(m.entry()));
        }
    }

    /// Converts a UTF-16 offset into the text to a byte offset.
    pub fn offset_from_utf16(&self, offset: usize) -> (r: usize)
        ensures
            r == offset_from_utf16_of(self@.text, offset as int),
    {
        offset_from_utf16(self.text(), offset)
    }

    /// Converts a byte offset into the text to a UTF-16 offset.
    pub fn offset_to_utf16(&self, offset: usize) -> (r: usize)
        ensures
            r == offset_to_utf16_of(self@.text, offset as int),
    {
        offset_to_utf16(self.text(), offset)
    }

    /// Converts a byte range to UTF-16.
    pub fn range_to_utf16(&self, range: &Range<usize>) -> (r: Range<usize>)
        ensures
            r.start == offset_to_utf16_of(self@.text, range.start as int),
            r.end == offset_to_utf16_of(self@.text, range.end as int),
    {
        self.offset_to_utf16(range.start)..self.offset_to_utf16(range.end)
    }

    /// Converts a UTF-16 range to bytes.
    pub fn range_from_utf16(&self, range_utf16: &Range<usize>) -> (r: Range<usize>)
        ensures
            r.start == offset_from_utf16_of(self@.text, range_utf16.start as int),
            r.end == offset_from_utf16_of(self@.text, range_utf16.end as int),
    {
        self.offset_from_utf16(range_utf16.start)..self.offset_from_utf16(range_utf16.end)
    }

    /// The text of a UTF-16 range; `actual_range` receives the range actually used, in UTF-16.
    pub fn text_for_range(&self, range_utf16: Range<usize>, actual_range: &mut Option<Range<usize>>) -> (r: Option<String>)
        requires
            offset_from_utf16_of(self@.text, range_utf16.start as int) <= offset_from_utf16_of(
                self@.text,
                range_utf16.end as int,
            ),
        ensures
            ({
                let t = self@.text;
                let a = offset_from_utf16_of(t, range_utf16.start as int);
                let b = offset_from_utf16_of(t, range_utf16.end as int);
                &&& r matches Some(s) && s@ == t.subrange(chars_before_byte(t, a as int), chars_before_byte(t, b as int))
                &&& *final(actual_range) == Some(offset_to_utf16_of(t, a as int) as usize..offset_to_utf16_of(t, b as int) as usize)
            }),
    {
        let range = self.range_from_utf16(&range_utf16);
        *actual_range = Some(self.range_to_utf16(&range));
        let text = self.text();
        let offsets = byte_offsets(text);
        let ia = char_index_for_byte(&offsets, range.start, Ghost(text@));
        let ib = char_index_for_byte(&offsets, range.end, Ghost(text@));
        proof {
            lemma_from_utf16_boundary(text@, range_utf16.start as int);
            lemma_from_utf16_boundary(text@, range_utf16.end as int);
            crate::words::lemma_boundary_index(text@, range.start as int);
            crate::words::lemma_boundary_index(text@, range.end as int);
            if ib < ia {
                crate::text::lemma_offset_mono(text@, ib as int, ia as int);
            }
        }
        Some(String::from_str(text.substring_char(ia, ib)))
    }

    /// The selection in UTF-16.
    pub fn selected_text_range(&self) -> (r: Option<Utf16Selection>)
        ensures
            r matches Some(sel) && sel.range.start == offset_to_utf16_of(self@.text, self@.start)
                && sel.range.end == offset_to_utf16_of(self@.text, self@.end) && sel.reversed
                == self@.reversed,
    {
        Some(
            Utf16Selection {
                range: self.range_to_utf16(&self.selected_range),
                reversed: self.selection_reversed,
            },
        )
    }

    /// The composition range in UTF-16, if any.
    pub fn marked_text_range(&self) -> (r: Option<Range<usize>>)
        ensures
            match self@.marked {
                Some(m) => r matches Some(u) && u.start == offset_to_utf16_of(self@.text, m.0)
                    && u.end == offset_to_utf16_of(self@.text, m.1),
                None => r is None,
            },
    {
        match &self.marked_range {
            Some(m) => Some(self.range_to_utf16(m)),
            None => None,
        }
    }

    /// Ends the composition.
    pub fn unmark_text(&mut self)
        ensures
            final(self)@ == (InputModel { marked: None, ..old(self)@ }),
    {
        self.marked_range = None;
    }

    /// Mouse down at text offset `index`: a triple click selects the line, a double click
    /// the word, a shift click extends the selection, a plain click places the cursor.
    pub fn on_mouse_down(&mut self, index: usize, click_count: usize, shift: bool)
        requires
            click_count >= 3 ==> is_char_boundary_of(
                old(self)@.text,
                min_usize(index, byte_len(old(self)@.text)) as int,
            ),
        ensures
            ({
                let m = InputModel { selecting: true, ..old(self)@ };
                let t = m.text;
                final(self)@ == if click_count >= 3 {
                    let k = chars_before_byte(t, min_usize(index, byte_len(t)) as int);
                    m.moved_to(
                        byte_offset(t, line_start_index(t, count_newlines(t.take(k)))) as int,
                    ).selected_to(byte_offset(t, next_newline(t, k)) as int)
                } else if click_count == 2 {
                    let s = word_start_of(t, index as int);
                    InputModel { start: s, end: word_end_of(t, s), reversed: false, ..m }
                } else if shift {
                    m.select_to(index as int)
                } else {
                    m.move_to(index as int)
                }
            }),
    {
        self.is_selecting = true;
        if click_count >= 3 {
            let r = line_range_at(self.text(), index);
            self.move_to_without_scroll(r.start);
            self.select_to_without_scroll(r.end);
        } else if click_count == 2 {
            self.select_word_at(index);
        } else if shift {
            self.select_to(index);
        } else {
            self.move_to(index);
        }
    }

    /// Mouse up: the drag selection ends.
    pub fn on_mouse_up(&mut self)
        ensures
            final(self)@ == (InputModel { selecting: false, ..old(self)@ }),
    {
        self.is_selecting = false;
    }

    /// Mouse move to text offset `index`: extends the selection while dragging.
    pub fn on_mouse_move(&mut self, index: usize)
        ensures
            final(self)@ == if old(self)@.selecting {
                old(self)@.select_to(index as int)
            } else {
                old(self)@
            },
    {
        if self.is_selecting {
            self.select_to(index);
        }
    }
}

/// A boundary lies within the text.
proof fn lemma_boundary_le_len(s: Seq<char>, b: int)
    requires
        is_char_boundary_of(s, b),
    ensures
        0 <= b <= byte_len(s),
{
    crate::words::lemma_boundary_index(s, b);
    crate::text::lemma_offset_le_len(s, chars_before_byte(s, b));
}

/// Start of the cursor's line.
pub open spec fn line_start_of_cursor(m: InputModel) -> int {
    byte_offset(m.text, line_start_index(m.text, line_of_offset(m.text, m.cursor()))) as int
}

/// End of the cursor's line.
pub open spec fn line_end_of_cursor(m: InputModel) -> int {
    byte_offset(m.text, line_end_index(m.text, line_of_offset(m.text, m.cursor()))) as int
}

/// The text with every newline replaced by a space.
pub open spec fn newlines_to_spaces(s: Seq<char>) -> Seq<char> {
    s.map_values(|c: char| if c == '\n' { ' ' } else { c })
}


/// `text` with its newlines replaced by spaces (what a single-line input pastes).
pub fn replace_newlines(text: &str) -> (r: String)
    ensures
        r@ == newlines_to_spaces(text@),
{
    let chars = crate::text::chars_of(text);
    let n = chars.len();
    let mut r = String::new();
    let mut seg_start: usize = 0;
    let mut i: usize = 0;
    let ghost nts = newlines_to_spaces(text@);
    proof {
        reveal_strlit(" ");
        assert(r@ + text@.subrange(0, 0) =~= nts.take(0));
    }
    while i < n
        invariant
            n == chars@.len(),
            chars@ == text@,
            nts == newlines_to_spaces(text@),
            seg_start <= i <= n,
            r@ + text@.subrange(seg_start as int, i as int) =~= newlines_to_spaces(text@).take(i as int),
            forall|j: int| seg_start <= j < i ==> text@[j] != '\n',
        decreases n - i,
    {
        proof {
            assert(nts.take(i + 1) =~= nts.take(i as int).push(nts[i as int]));
            assert(text@.subrange(seg_start as int, i + 1) =~= text@.subrange(
                seg_start as int,
                i as int,
            ).push(text@[i as int]));
        }
        if chars[i] == '\n' {
            let seg = text.substring_char(seg_start, i);
            r.append(seg);
            proof {
                reveal_strlit(" ");
                assert(" "@ =~= seq![' ']);
            }
            r.append(" ");
            seg_start = i + 1;
            proof {
                assert(text@.subrange(seg_start as int, i + 1) =~= Seq::<char>::empty());
            }
        }
        i = i + 1;
    }
    let seg = text.substring_char(seg_start, n);
    r.append(seg);
    proof {
        assert(nts.take(n as int) =~= nts);
    }
    r
}

/// Placing the cursor at `o` leaves an empty selection with the cursor at `o`.
pub proof fn law_move_to_places_cursor(m: InputModel, o: int)
    ensures
        m.move_to(o).cursor() == o,
        m.move_to(o).sel_empty(),
        m.move_to(o).text == m.text,
{
}

/// Extending the selection to `o` puts the cursor at `o`, keeps the anchor, and leaves
/// the text alone.
pub proof fn law_select_to_places_cursor(m: InputModel, o: int)
    ensures
        m.select_to(o).cursor() == o,
        anchor_of(m.select_to(o).start, m.select_to(o).end, m.select_to(o).reversed) == anchor_of(
            m.start,
            m.end,
            m.reversed,
        ),
        m.select_to(o).start <= m.select_to(o).end,
        m.select_to(o).text == m.text,
{
    crate::selection::law_selection_change(m.start, m.end, m.reversed, o);
}

/// Select-all selects the whole text, with the cursor at its end.
pub proof fn law_select_all_selects_everything(m: InputModel)
    requires
        m.len() > 0,
    ensures
        ({
            let a = (InputModel { select_all: true, ..m }).moved_to(0).selected_to(m.len());
            &&& a.start == 0
            &&& a.end == m.len()
            &&& !a.reversed
            &&& a.select_all
            &&& a.text == m.text
        }),
{
}

/// After an edit the text is the old text with the range replaced, and the cursor sits
/// right after the inserted text.
pub proof fn law_edit_places_cursor_after_insert(m: InputModel, r: Option<(int, int)>, new: Seq<char>)
    requires
        m.can_edit(r),
    ensures
        ({
            let e = m.edit_range(r);
            let after = m.replaced(r, new);
            &&& after.text == spliced(m.text, e.0, e.1, new)
            &&& after.cursor() == e.0 + byte_len(new)
            &&& after.sel_empty()
            &&& after.marked is None
        }),
{
    let e = m.edit_range(r);
    lemma_spliced_len(m.text, e.0, e.1, new);
    lemma_boundary_le_len(m.text, e.1);
}

/// With a history to keep, undo right after an edit gives back the text and selection
/// from before the edit.
pub proof fn law_undo_reverts_edit(m: InputModel, r: Option<(int, int)>, new: Seq<char>)
    requires
        m.max_history > 0,
    ensures
        ({
            let u = m.replaced(r, new).undone();
            &&& u.text == m.text
            &&& u.start == m.start
            &&& u.end == m.end
            &&& u.reversed == m.reversed
            &&& u.redo.len() == 1
        }),
{
}

/// With a history to keep, redo right after undoing an edit gives back the edited text
/// and selection.
pub proof fn law_redo_reapplies_edit(m: InputModel, r: Option<(int, int)>, new: Seq<char>)
    requires
        m.max_history > 0,
    ensures
        ({
            let e = m.replaced(r, new);
            let again = e.undone().redone();
            &&& again.text == e.text
            &&& again.start == e.start
            &&& again.end == e.end
            &&& again.reversed == e.reversed
        }),
{
}

/// Undo followed by redo is no change at all, once a value is set.
pub proof fn law_undo_then_redo(m: InputModel)
    requires
        m.has_value,
        m.undo.len() > 0,
    ensures
        m.undone().redone() == m,
{
    assert(m.undone().redone().undo =~= m.undo);
    assert(m.undone().redone().redo =~= m.redo);
}

/// Redo followed by undo is no change at all, once a value is set.
pub proof fn law_redo_then_undo(m: InputModel)
    requires
        m.has_value,
        m.redo.len() > 0,
    ensures
        m.redone().undone() == m,
{
    assert(m.redone().undone().undo =~= m.undo);
    assert(m.redone().undone().redo =~= m.redo);
}

/// An edit empties the redo history and keeps the undo history within its limit.
pub proof fn law_edit_bounds_history(m: InputModel, r: Option<(int, int)>, new: Seq<char>)
    requires
        m.max_history > 0,
        m.undo.len() <= m.max_history,
    ensures
        m.replaced(r, new).redo.len() == 0,
        m.replaced(r, new).undo.len() <= m.max_history,
        m.replaced(r, new).undo.last() == m.entry(),
{
}

/// Losing focus collapses the selection to the cursor and keeps the text.
pub proof fn law_blur_collapses_to_cursor(m: InputModel)
    requires
        m.focused,
    ensures
        ({
            let a = m.with_focus(false);
            &&& a.sel_empty()
            &&& a.start == m.cursor() && a.end == m.cursor()
            &&& a.text == m.text
            &&& !a.focused
        }),
{
}

/// Copying after select-all gives the whole text.
pub proof fn law_copy_after_select_all(m: InputModel)
    requires
        m.len() > 0,
    ensures
        ({
            let a = (InputModel { select_all: true, ..m }).moved_to(0).selected_to(m.len());
            &&& !a.sel_empty()
            &&& range_on_boundaries(a.text, a.start, a.end)
            &&& a.text.subrange(chars_before_byte(a.text, a.start), chars_before_byte(a.text, a.end))
                == m.text
        }),
{
    crate::text::lemma_whole_text_range(m.text);
}


/// With a history limit of 0 an edit still applies, and keeps no history: a following
/// undo or redo changes nothing.
pub proof fn law_zero_history_keeps_nothing(m: InputModel, r: Option<(int, int)>, new: Seq<char>)
    requires
        m.max_history == 0,
        m.can_edit(r),
    ensures
        ({
            let e = m.edit_range(r);
            let after = m.replaced(r, new);
            &&& after.text == spliced(m.text, e.0, e.1, new)
            &&& after.cursor() == e.0 + byte_len(new)
            &&& after.undo.len() == 0
            &&& after.redo.len() == 0
            &&& after.undone() == after
            &&& after.redone() == after
        }),
{
    law_edit_places_cursor_after_insert(m, r, new);
}

/// A composition edit that names its new selection in UTF-16 selects the chars the IME
/// named: with the selection given as the UTF-16 offsets of chars `i` and `j` of the new
/// text, the selection runs from the byte offset of char `i` shifted by the start of the
/// replaced range to the byte offset of char `j` shifted by its end. Without a selection
/// the caret sits right after the inserted text. Either way the new text is the one given,
/// and the inserted text (when there is any) becomes the composition range.
pub proof fn law_composition_selection(
    m: InputModel,
    r: Option<(int, int)>,
    new: Seq<char>,
    sel: Option<(int, int)>,
    out: Seq<char>,
    i: int,
    j: int,
)
    requires
        0 <= i <= out.len(),
        0 <= j <= out.len(),
        sel matches Some(s) ==> s.0 == utf16_offset(out, i) && s.1 == utf16_offset(out, j),
    ensures
        ({
            let e = m.edit_range(r);
            let a = m.replaced_and_marked_into(r, new, sel, out);
            &&& a.text == out
            &&& sel is Some ==> a.start == byte_offset(out, i) + e.0 && a.end == byte_offset(
                out,
                j,
            ) + e.1
            &&& sel is None ==> a.start == e.0 + byte_len(new) && a.end == e.0 + byte_len(new)
            &&& new.len() > 0 ==> a.marked == Some((e.0, e.0 + byte_len(new)))
            &&& new.len() == 0 ==> a.marked is None
        }),
{
    crate::text::lemma_chars_before_boundary(out, i);
    crate::text::lemma_chars_before_boundary(out, j);
}

} // verus!
