//! State of a read-only selectable text: its text, the selection, and focus.
use core::ops::Range;
use vstd::prelude::*;
use vstd::string::{StrSliceExecFns, StringExecFns};

use crate::navigation::{
    count_newlines, line_count, line_count_of, line_end_containing, line_end_for_offset,
    line_of_offset, line_range_at, line_start_containing, line_start_for_offset,
    line_start_index, min_usize, next_newline, offset_above, offset_above_of, offset_below,
    offset_below_of, offset_to_line_col,
};
use crate::rendering::{overflows, scroll_target};
use crate::selection::{apply_selection_change, cursor_of, selection_change};
use crate::text::{
    byte_len, byte_offset, byte_offsets, char_index_for_byte, chars_before_byte,
    is_char_boundary_of, str_byte_len,
};
use crate::words::{
    next_boundary, next_boundary_of, previous_boundary, previous_boundary_of, word_end,
    word_end_of, word_start, word_start_of,
};

verus! {

/// The abstract state of a selectable text.
pub struct SelectableModel {
    pub text: Seq<char>,
    /// Selected byte range and whether the cursor sits at its start.
    pub start: int,
    pub end: int,
    pub reversed: bool,
    /// Whether a mouse drag is selecting.
    pub selecting: bool,
    /// Whether the selection came from select-all or a triple click.
    pub select_all: bool,
    /// Whether the text had focus when focus was last looked at.
    pub focused: bool,
}

impl SelectableModel {
    pub open spec fn cursor(self) -> int {
        cursor_of(self.start, self.end, self.reversed)
    }

    /// Whether the selection is empty (`Range::is_empty`).
    pub open spec fn sel_empty(self) -> bool {
        self.start >= self.end
    }

    pub open spec fn len(self) -> int {
        byte_len(self.text) as int
    }

    /// The cursor placed at `o`, with nothing selected.
    pub open spec fn moved_to(self, o: int) -> SelectableModel {
        SelectableModel { start: o, end: o, ..self }
    }

    /// The cursor end of the selection moved to `o`.
    pub open spec fn selected_to(self, o: int) -> SelectableModel {
        let r = selection_change(self.start, self.end, self.reversed, o);
        SelectableModel { start: r.0, end: r.1, reversed: r.2, ..self }
    }

    /// `move_to`: the cursor moves to `o` and a select-all ends.
    pub open spec fn move_to(self, o: int) -> SelectableModel {
        SelectableModel { select_all: false, ..self.moved_to(o) }
    }

    /// `select_to`: the selection extends to `o` and a select-all ends.
    pub open spec fn select_to(self, o: int) -> SelectableModel {
        SelectableModel { select_all: false, ..self.selected_to(o) }
    }

    /// The state after the text is replaced by `t`: both ends of the selection are clamped
    /// to the new length, and a selection left inverted collapses to `0..0`.
    pub open spec fn with_text(self, t: Seq<char>) -> SelectableModel {
        let n = byte_len(t) as int;
        let s = if self.start < n { self.start } else { n };
        let e = if self.end < n { self.end } else { n };
        if s > e {
            SelectableModel { text: t, start: 0, end: 0, reversed: false, ..self }
        } else {
            SelectableModel { text: t, start: s, end: e, ..self }
        }
    }

    /// The state after focus is found to be `f`: on a change it is recorded, and losing
    /// focus drops a non-empty selection (to `0..0`) and ends a select-all.
    pub open spec fn with_focus(self, f: bool) -> SelectableModel {
        if f == self.focused {
            self
        } else if !f && !self.sel_empty() {
            SelectableModel { focused: f, start: 0, end: 0, select_all: false, ..self }
        } else {
            SelectableModel { focused: f, ..self }
        }
    }

    /// The whole text selected, as select-all leaves it.
    pub open spec fn all_selected(self) -> SelectableModel {
        (SelectableModel { select_all: true, ..self }).moved_to(0).selected_to(self.len())
    }

    /// The line around offset `i` selected, as a triple click leaves it.
    pub open spec fn line_selected(self, i: usize) -> SelectableModel {
        let t = self.text;
        let k = chars_before_byte(t, min_usize(i, byte_len(t)) as int);
        (SelectableModel { select_all: true, ..self }).moved_to(
            byte_offset(t, line_start_index(t, count_newlines(t.take(k)))) as int,
        ).selected_to(byte_offset(t, next_newline(t, k)) as int)
    }

    /// The word at `o` selected, as a double click leaves it.
    pub open spec fn word_selected(self, o: int) -> SelectableModel {
        let s = word_start_of(self.text, o);
        SelectableModel { start: s, end: word_end_of(self.text, s), reversed: false, ..self }
    }
}

/// Text that can be selected and copied but not edited.
pub struct SelectableTextState {
    text: String,
    selected_range: Range<usize>,
    selection_reversed: bool,
    is_selecting: bool,
    is_select_all: bool,
    was_focused: bool,
}

impl View for SelectableTextState {
    type V = SelectableModel;

    closed spec fn view(&self) -> SelectableModel {
        SelectableModel {
            text: self.text@,
            start: self.selected_range.start as int,
            end: self.selected_range.end as int,
            reversed: self.selection_reversed,
            selecting: self.is_selecting,
            select_all: self.is_select_all,
            focused: self.was_focused,
        }
    }
}

impl SelectableTextState {
    /// An empty text with the cursor at 0, unfocused.
    pub fn new() -> (s: Self)
        ensures
            s@ == (SelectableModel {
                text: Seq::empty(),
                start: 0,
                end: 0,
                reversed: false,
                selecting: false,
                select_all: false,
                focused: false,
            }),
    {
        let t = String::new();
        SelectableTextState {
            text: t,
            selected_range: 0..0,
            selection_reversed: false,
            is_selecting: false,
            is_select_all: false,
            was_focused: false,
        }
    }

    /// Records whether the text has focus now; losing focus drops a non-empty selection.
    pub fn update_focus_state(&mut self, is_focused: bool)
        ensures
            final(self)@ == old(self)@.with_focus(is_focused),
    {
        if is_focused != self.was_focused {
            self.was_focused = is_focused;
            if !is_focused && self.selected_range.start < self.selected_range.end {
                self.selected_range = 0..0;
                self.is_select_all = false;
            }
        }
    }

    /// Sets the text, clamping the selection to its length.
    pub fn text(&mut self, text: &str)
        ensures
            final(self)@ == old(self)@.with_text(text@),
    {
        self.text = String::from_str(text);
        let len = str_byte_len(text);
        let start = if self.selected_range.start < len {
            self.selected_range.start
        } else {
            len
        };
        let end = if self.selected_range.end < len {
            self.selected_range.end
        } else {
            len
        };
        self.selected_range = start..end;
        if start > end {
            self.selected_range = 0..0;
            self.selection_reversed = false;
        }
    }

    /// The text.
    pub fn get_text(&self) -> (r: String)
        ensures
            r@ == self@.text,
    {
        self.text.clone()
    }

    /// The selected byte range.
    pub fn selected_range(&self) -> (r: Range<usize>)
        ensures
            r.start == self@.start,
            r.end == self@.end,
    {
        self.selected_range.start..self.selected_range.end
    }

    /// Whether the cursor sits at the start of the selection.
    pub fn selection_reversed(&self) -> (r: bool)
        ensures
            r == self@.reversed,
    {
        self.selection_reversed
    }

    /// Whether a drag selection is in progress.
    pub fn is_selecting(&self) -> (r: bool)
        ensures
            r == self@.selecting,
    {
        self.is_selecting
    }

    /// Whether the selection came from select-all or a triple click.
    pub fn is_select_all(&self) -> (r: bool)
        ensures
            r == self@.select_all,
    {
        self.is_select_all
    }

    /// Where the cursor is: the start of the selection when reversed, else its end.
    pub fn cursor_offset(&self) -> (r: usize)
        ensures
            r == self@.cursor(),
    {
        if self.selection_reversed {
            self.selected_range.start
        } else {
            self.selected_range.end
        }
    }

    /// In unwrapped mode, the line that the list of lines should scroll to (centred) so
    /// that the cursor shows: the cursor's line when the text has more lines than the
    /// `multiline_clamp` lines that fit, else `None`.
    pub fn ensure_cursor_visible(&self, multiline_clamp: Option<usize>) -> (r: Option<usize>)
        requires
            self@.text.len() < usize::MAX,
        ensures
            ({
                let t = self@.text;
                &&& overflows(multiline_clamp, line_count_of(t) as int) ==> r == Some(
                    line_of_offset(t, self@.cursor()) as usize,
                )
                &&& !overflows(multiline_clamp, line_count_of(t) as int) ==> r is None
            }),
    {
        let text = self.text.as_str();
        let (line, _) = offset_to_line_col(text, self.cursor_offset());
        scroll_target(line, line_count(text), multiline_clamp)
    }

    /// Moves the cursor end of the selection to `offset`, ending a select-all.
    pub fn select_to(&mut self, offset: usize)
        ensures
            final(self)@ == old(self)@.select_to(offset as int),
    {
        self.is_select_all = false;
        apply_selection_change(&mut self.selected_range, &mut self.selection_reversed, offset);
    }

    /// Moves the cursor end of the selection to `offset`, without ending a select-all.
    pub fn select_to_without_scroll(&mut self, offset: usize)
        ensures
            final(self)@ == old(self)@.selected_to(offset as int),
    {
        apply_selection_change(&mut self.selected_range, &mut self.selection_reversed, offset);
    }

    /// Selects the word at `offset` (double-click).
    pub fn select_word_at(&mut self, offset: usize)
        ensures
            final(self)@ == old(self)@.word_selected(offset as int),
    {
        let start = word_start(self.text.as_str(), offset);
        proof {
            crate::words::lemma_word_start_boundary(self.text@, offset as int);
        }
        let end = word_end(self.text.as_str(), start);
        self.selected_range = start..end;
        self.selection_reversed = false;
    }

    /// Places the cursor at `offset`, ending a select-all.
    pub fn move_to(&mut self, offset: usize)
        ensures
            final(self)@ == old(self)@.move_to(offset as int),
    {
        self.is_select_all = false;
        self.selected_range = offset..offset;
    }

    /// Places the cursor at `offset`, without ending a select-all.
    pub fn move_to_without_scroll(&mut self, offset: usize)
        ensures
            final(self)@ == old(self)@.moved_to(offset as int),
    {
        self.selected_range = offset..offset;
    }

    /// The selected text, when the selection is not empty.
    pub fn copy(&self) -> (r: Option<String>)
        requires
            !self@.sel_empty() ==> is_char_boundary_of(self@.text, self@.start)
                && is_char_boundary_of(self@.text, self@.end),
        ensures
            ({
                let m = self@;
                &&& m.sel_empty() ==> r is None
                &&& !m.sel_empty() ==> (r matches Some(s) && s@ == m.text.subrange(
                    chars_before_byte(m.text, m.start),
                    chars_before_byte(m.text, m.end),
                ))
            }),
    {
        if self.selected_range.start >= self.selected_range.end {
            return None;
        }
        let text = self.text.as_str();
        let offsets = byte_offsets(text);
        let ia = char_index_for_byte(&offsets, self.selected_range.start, Ghost(text@));
        let ib = char_index_for_byte(&offsets, self.selected_range.end, Ghost(text@));
        proof {
            crate::words::lemma_boundary_index(text@, self@.start);
            crate::words::lemma_boundary_index(text@, self@.end);
            if ib < ia {
                crate::text::lemma_offset_mono(text@, ib as int, ia as int);
            }
        }
        Some(String::from_str(text.substring_char(ia, ib)))
    }

    /// Selects the whole text.
    pub fn select_all(&mut self)
        ensures
            final(self)@ == old(self)@.all_selected(),
    {
        self.is_select_all = true;
        self.move_to_without_scroll(0);
        let len = str_byte_len(self.text.as_str());
        self.select_to_without_scroll(len);
    }

    /// Left arrow: a selection collapses to its start, else the cursor moves one grapheme left.
    pub fn left(&mut self)
        ensures
            final(self)@ == if old(self)@.sel_empty() {
                old(self)@.move_to(previous_boundary_of(old(self)@.text, old(self)@.cursor()))
            } else {
                old(self)@.move_to(old(self)@.start)
            },
    {
        if self.selected_range.start >= self.selected_range.end {
            let target = previous_boundary(self.text.as_str(), self.cursor_offset());
            self.move_to(target);
        } else {
            let s = self.selected_range.start;
            self.move_to(s);
        }
    }

    /// Right arrow: a selection collapses to its end, else the cursor moves one grapheme right.
    pub fn right(&mut self)
        ensures
            final(self)@ == if old(self)@.sel_empty() {
                old(self)@.move_to(next_boundary_of(old(self)@.text, old(self)@.end))
            } else {
                old(self)@.move_to(old(self)@.end)
            },
    {
        if self.selected_range.start >= self.selected_range.end {
            let target = next_boundary(self.text.as_str(), self.selected_range.end);
            self.move_to(target);
        } else {
            let e = self.selected_range.end;
            self.move_to(e);
        }
    }

    /// Shift-left: extends the selection one grapheme left.
    pub fn select_left(&mut self)
        ensures
            final(self)@ == old(self)@.select_to(
                previous_boundary_of(old(self)@.text, old(self)@.cursor()),
            ),
    {
        let target = previous_boundary(self.text.as_str(), self.cursor_offset());
        self.select_to(target);
    }

    /// Shift-right: extends the selection one grapheme right.
    pub fn select_right(&mut self)
        ensures
            final(self)@ == old(self)@.select_to(
                next_boundary_of(old(self)@.text, old(self)@.cursor()),
            ),
    {
        let target = next_boundary(self.text.as_str(), self.cursor_offset());
        self.select_to(target);
    }

    /// Up arrow: a selection collapses to its start, else the cursor moves one line up.
    pub fn up(&mut self)
        ensures
            ({
                let m = old(self)@;
                final(self)@ == if !m.sel_empty() {
                    m.move_to(m.start)
                } else {
                    match offset_above_of(m.text, m.cursor()) {
                        Some(o) => m.move_to(o),
                        None => m,
                    }
                }
            }),
    {
        if self.selected_range.start >= self.selected_range.end {
            if let Some(target) = offset_above(self.text.as_str(), self.cursor_offset()) {
                self.move_to(target);
            }
        } else {
            let s = self.selected_range.start;
            self.move_to(s);
        }
    }

    /// Down arrow: a selection collapses to its end, else the cursor moves one line down.
    pub fn down(&mut self)
        ensures
            ({
                let m = old(self)@;
                final(self)@ == if !m.sel_empty() {
                    m.move_to(m.end)
                } else {
                    match offset_below_of(m.text, m.cursor()) {
                        Some(o) => m.move_to(o),
                        None => m,
                    }
                }
            }),
    {
        if self.selected_range.start >= self.selected_range.end {
            if let Some(target) = offset_below(self.text.as_str(), self.cursor_offset()) {
                self.move_to(target);
            }
        } else {
            let e = self.selected_range.end;
            self.move_to(e);
        }
    }

    /// Shift-up: extends the selection one line up.
    pub fn select_up(&mut self)
        ensures
            final(self)@ == match offset_above_of(old(self)@.text, old(self)@.cursor()) {
                Some(o) => old(self)@.select_to(o),
                None => old(self)@,
            },
    {
        if let Some(target) = offset_above(self.text.as_str(), self.cursor_offset()) {
            self.select_to(target);
        }
    }

    /// Shift-down: extends the selection one line down.
    pub fn select_down(&mut self)
        ensures
            final(self)@ == match offset_below_of(old(self)@.text, old(self)@.cursor()) {
                Some(o) => old(self)@.select_to(o),
                None => old(self)@,
            },
    {
        if let Some(target) = offset_below(self.text.as_str(), self.cursor_offset()) {
            self.select_to(target);
        }
    }

    /// Moves the cursor to the start of the text.
    pub fn home(&mut self)
        ensures
            final(self)@ == old(self)@.move_to(0),
    {
        self.move_to(0);
    }

    /// Moves the cursor to the end of the text.
    pub fn end(&mut self)
        ensures
            final(self)@ == old(self)@.move_to(old(self)@.len()),
    {
        let len = str_byte_len(self.text.as_str());
        self.move_to(len);
    }

    /// Moves the cursor to the start of its line.
    pub fn move_to_start_of_line(&mut self)
        ensures
            final(self)@ == old(self)@.move_to(
                line_start_containing(old(self)@.text, old(self)@.cursor()),
            ),
    {
        let target = line_start_for_offset(self.text.as_str(), self.cursor_offset());
        self.move_to(target);
    }

    /// Moves the cursor to the end of its line.
    pub fn move_to_end_of_line(&mut self)
        ensures
            final(self)@ == old(self)@.move_to(
                line_end_containing(old(self)@.text, old(self)@.cursor()),
            ),
    {
        let target = line_end_for_offset(self.text.as_str(), self.cursor_offset());
        self.move_to(target);
    }

    /// Extends the selection to the start of the cursor's line.
    pub fn select_to_start_of_line(&mut self)
        ensures
            final(self)@ == old(self)@.select_to(
                line_start_containing(old(self)@.text, old(self)@.cursor()),
            ),
    {
        let target = line_start_for_offset(self.text.as_str(), self.cursor_offset());
        self.select_to(target);
    }

    /// Extends the selection to the end of the cursor's line.
    pub fn select_to_end_of_line(&mut self)
        ensures
            final(self)@ == old(self)@.select_to(
                line_end_containing(old(self)@.text, old(self)@.cursor()),
            ),
    {
        let target = line_end_for_offset(self.text.as_str(), self.cursor_offset());
        self.select_to(target);
    }

    /// Moves the cursor to the start of the text.
    pub fn move_to_start(&mut self)
        ensures
            final(self)@ == old(self)@.move_to(0),
    {
        self.move_to(0);
    }

    /// Moves the cursor to the end of the text.
    pub fn move_to_end(&mut self)
        ensures
            final(self)@ == old(self)@.move_to(old(self)@.len()),
    {
        let len = str_byte_len(self.text.as_str());
        self.move_to(len);
    }

    /// Extends the selection to the start of the text.
    pub fn select_to_start(&mut self)
        ensures
            final(self)@ == old(self)@.select_to(0),
    {
        self.select_to(0);
    }

    /// Extends the selection to the end of the text.
    pub fn select_to_end(&mut self)
        ensures
            final(self)@ == old(self)@.select_to(old(self)@.len()),
    {
        let len = str_byte_len(self.text.as_str());
        self.select_to(len);
    }

    /// Moves to the start of the previous word; a selection collapses to its start.
    pub fn move_to_previous_word(&mut self)
        ensures
            ({
                let m = old(self)@;
                final(self)@ == if m.sel_empty() {
                    m.move_to(word_start_of(m.text, previous_boundary_of(m.text, m.cursor())))
                } else {
                    m.move_to(m.start)
                }
            }),
    {
        if self.selected_range.start >= self.selected_range.end {
            let text = self.text.as_str();
            let prev = previous_boundary(text, self.cursor_offset());
            let target = word_start(text, prev);
            self.move_to(target);
        } else {
            let s = self.selected_range.start;
            self.move_to(s);
        }
    }

    /// Moves to the end of the next word; a selection collapses to its end.
    pub fn move_to_next_word(&mut self)
        requires
            old(self)@.sel_empty() && old(self)@.cursor() < old(self)@.len() ==> is_char_boundary_of(
                old(self)@.text,
                old(self)@.cursor(),
            ),
        ensures
            ({
                let m = old(self)@;
                final(self)@ == if m.sel_empty() {
                    m.move_to(word_end_of(m.text, m.cursor()))
                } else {
                    m.move_to(m.end)
                }
            }),
            old(self)@.sel_empty() && old(self)@.cursor() < old(self)@.len() ==> old(self)@.cursor()
                < word_end_of(old(self)@.text, old(self)@.cursor()) <= old(self)@.len(),
    {
        if self.selected_range.start >= self.selected_range.end {
            let target = word_end(self.text.as_str(), self.cursor_offset());
            self.move_to(target);
        } else {
            let e = self.selected_range.end;
            self.move_to(e);
        }
    }

    /// Extends the selection to the start of the previous word.
    pub fn select_to_previous_word_start(&mut self)
        ensures
            ({
                let m = old(self)@;
                final(self)@ == m.select_to(
                    word_start_of(m.text, previous_boundary_of(m.text, m.cursor())),
                )
            }),
    {
        let text = self.text.as_str();
        let prev = previous_boundary(text, self.cursor_offset());
        let target = word_start(text, prev);
        self.select_to(target);
    }

    /// Extends the selection to the end of the next word.
    pub fn select_to_next_word_end(&mut self)
        requires
            old(self)@.cursor() < old(self)@.len() ==> is_char_boundary_of(
                old(self)@.text,
                old(self)@.cursor(),
            ),
        ensures
            final(self)@ == old(self)@.select_to(word_end_of(old(self)@.text, old(self)@.cursor())),
            old(self)@.cursor() < old(self)@.len() ==> old(self)@.cursor() < word_end_of(
                old(self)@.text,
                old(self)@.cursor(),
            ) <= old(self)@.len(),
    {
        let target = word_end(self.text.as_str(), self.cursor_offset());
        self.select_to(target);
    }

    /// Mouse down at text offset `index`: a triple click selects the line (as a select-all),
    /// a double click the word, a shift click extends the selection, a plain click places
    /// the cursor.
    pub fn on_mouse_down(&mut self, index: usize, click_count: usize, shift: bool)
        requires
            click_count >= 3 ==> is_char_boundary_of(
                old(self)@.text,
                min_usize(index, byte_len(old(self)@.text)) as int,
            ),
        ensures
            ({
                let m = SelectableModel { selecting: true, select_all: false, ..old(self)@ };
                final(self)@ == if click_count >= 3 {
                    m.line_selected(index)
                } else if click_count == 2 {
                    m.word_selected(index as int)
                } else if shift {
                    m.select_to(index as int)
                } else {
                    m.move_to(index as int)
                }
            }),
    {
        self.is_selecting = true;
        self.is_select_all = false;
        if click_count >= 3 {
            self.is_select_all = true;
            let r = line_range_at(self.text.as_str(), index);
            self.move_to_without_scroll(r.start);
            self.select_to_without_scroll(r.end);
        } else if click_count == 2 {
            self.select_word_at(index);
        } else if shift {
            self.select_to(index);
        } else {
            self.move_to(index);
        }
    }

    /// Mouse up: the drag selection ends.
    pub fn on_mouse_up(&mut self)
        ensures
            final(self)@ == (SelectableModel { selecting: false, ..old(self)@ }),
    {
        self.is_selecting = false;
    }
}

/// Setting the text leaves an ordered selection that lies within the new text.
pub proof fn law_text_clamps_selection(m: SelectableModel, t: Seq<char>)
    requires
        m.start >= 0,
        m.end >= 0,
    ensures
        ({
            let a = m.with_text(t);
            &&& 0 <= a.start <= a.end <= byte_len(t)
            &&& a.text == t
        }),
{
}

/// Losing focus leaves nothing selected and ends a select-all.
pub proof fn law_blur_clears_selection(m: SelectableModel)
    requires
        m.focused,
    ensures
        m.with_focus(false).sel_empty(),
        !m.with_focus(false).focused,
        m.with_focus(false).text == m.text,
        !m.sel_empty() ==> !m.with_focus(false).select_all,
{
}

/// Placing the cursor at `o` leaves an empty selection with the cursor at `o`; extending
/// the selection to `o` puts the cursor at `o` and keeps the anchor.
pub proof fn law_cursor_follows_moves(m: SelectableModel, o: int)
    ensures
        m.move_to(o).cursor() == o,
        m.move_to(o).sel_empty(),
        m.select_to(o).cursor() == o,
        crate::selection::anchor_of(m.select_to(o).start, m.select_to(o).end, m.select_to(o).reversed)
            == crate::selection::anchor_of(m.start, m.end, m.reversed),
        m.select_to(o).start <= m.select_to(o).end,
{
    crate::selection::law_selection_change(m.start, m.end, m.reversed, o);
}

/// Copying after select-all gives the whole text.
pub proof fn law_copy_after_select_all(m: SelectableModel)
    requires
        byte_len(m.text) > 0,
    ensures
        ({
            let a = m.all_selected();
            &&& a.start == 0 && a.end == byte_len(m.text) && !a.reversed && a.select_all
            &&& !a.sel_empty()
            &&& is_char_boundary_of(a.text, a.start) && is_char_boundary_of(a.text, a.end)
            &&& a.text.subrange(chars_before_byte(a.text, a.start), chars_before_byte(a.text, a.end))
                == m.text
        }),
{
    crate::text::lemma_whole_text_range(m.text);
}

} // verus!
