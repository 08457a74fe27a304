//! Selection over a layout of several text children, addressed by byte offsets into
//! their concatenated text.
use core::ops::Range;
use vstd::prelude::*;
use vstd::string::{StrSliceExecFns, StringExecFns};

use crate::navigation::{
    count_newlines, is_word_char, is_word_char_spec, line_range_at, line_start_index,
    min_usize, next_newline, whitespace, char_is_whitespace,
};
use crate::text::{
    byte_len, byte_offset, byte_offsets, char_index_for_byte, chars_before_byte, chars_of,
    is_char_boundary_of, lemma_offset_full, lemma_offset_step, str_byte_len, utf8_width,
};

verus! {

/// The texts of the children, one after the other.
pub open spec fn concat(texts: Seq<Seq<char>>) -> Seq<char>
    decreases texts.len(),
{
    if texts.len() == 0 {
        Seq::empty()
    } else {
        concat(texts.drop_last()) + texts.last()
    }
}

/// The class of chars that a double click extends over: word chars, or whitespace.
pub open spec fn in_class(c: char, word: bool) -> bool {
    if word {
        is_word_char_spec(c)
    } else {
        char_is_whitespace(c)
    }
}

/// Index of the first char of the run of class chars that ends at char index `k`.
pub open spec fn run_start(t: Seq<char>, k: int, word: bool) -> int
    decreases k,
{
    if k <= 0 {
        0
    } else if in_class(t[k - 1], word) {
        run_start(t, k - 1, word)
    } else {
        k
    }
}

/// Index just past the run of class chars that starts at char index `k`.
pub open spec fn run_end(t: Seq<char>, k: int, word: bool) -> int
    decreases t.len() - k,
{
    if k >= t.len() {
        t.len() as int
    } else if in_class(t[k], word) {
        run_end(t, k + 1, word)
    } else {
        k
    }
}

/// The byte range that a double click at `offset` selects. The offset is clamped to the
/// text; the char there (the last char at the end of the text) decides: a word char
/// selects the run of word chars around the offset, whitespace the run of whitespace,
/// anything else that one char.
pub open spec fn word_range_of(t: Seq<char>, offset: int) -> (int, int) {
    let len = byte_len(t) as int;
    if len == 0 {
        (0, 0)
    } else {
        let o = if offset < len { offset } else { len };
        let k = chars_before_byte(t, o);
        let ch = if o < len { t[k] } else { t[k - 1] };
        if is_word_char_spec(ch) || char_is_whitespace(ch) {
            let w = is_word_char_spec(ch);
            (byte_offset(t, run_start(t, k, w)) as int, byte_offset(t, run_end(t, k, w)) as int)
        } else if o < len {
            (o, o + utf8_width(ch))
        } else {
            (o - utf8_width(ch), o)
        }
    }
}

/// The byte range that a triple click at `offset` selects: the line around it.
pub open spec fn line_range_of(t: Seq<char>, offset: usize) -> (int, int) {
    let k = chars_before_byte(t, min_usize(offset, byte_len(t)) as int);
    (
        byte_offset(t, line_start_index(t, count_newlines(t.take(k)))) as int,
        byte_offset(t, next_newline(t, k)) as int,
    )
}

/// `a..b` with the ends in order.
pub open spec fn ordered(a: int, b: int) -> (int, int) {
    if a < b {
        (a, b)
    } else {
        (b, a)
    }
}

/// Whether a click or drag at `offset` can be looked up in text `t`: the offset, clamped
/// to the text, falls on a char boundary.
pub open spec fn offset_ok(t: Seq<char>, offset: usize) -> bool {
    is_char_boundary_of(t, min_usize(offset, byte_len(t)) as int)
}

/// The abstract state of a selectable layout.
pub struct LayoutModel {
    /// The children's texts, concatenated.
    pub text: Seq<char>,
    /// Byte offset at which each child's text starts.
    pub child_offsets: Seq<usize>,
    pub start: int,
    pub end: int,
    /// Where a drag selection is anchored.
    pub anchor: int,
    pub selecting: bool,
    /// The word that a double click selected, while the drag goes on in whole words.
    pub selecting_word: Option<(int, int)>,
    pub focused: bool,
}

impl LayoutModel {
    pub open spec fn sel_empty(self) -> bool {
        self.start >= self.end
    }

    /// The state after a mouse down at `offset` with `click_count` clicks.
    pub open spec fn mouse_down(self, offset: usize, click_count: usize, shift: bool) -> LayoutModel {
        let o = offset as int;
        if click_count == 1 {
            if shift {
                let r = ordered(o, self.anchor);
                LayoutModel {
                    start: r.0,
                    end: r.1,
                    selecting: true,
                    selecting_word: None,
                    ..self
                }
            } else {
                LayoutModel {
                    start: o,
                    end: o,
                    anchor: o,
                    selecting: true,
                    selecting_word: None,
                    ..self
                }
            }
        } else if click_count == 2 {
            let w = word_range_of(self.text, o);
            LayoutModel {
                start: w.0,
                end: w.1,
                anchor: w.0,
                selecting: true,
                selecting_word: Some(w),
                ..self
            }
        } else if click_count == 3 {
            let l = line_range_of(self.text, offset);
            LayoutModel {
                start: l.0,
                end: l.1,
                anchor: l.0,
                selecting: true,
                selecting_word: None,
                ..self
            }
        } else {
            self
        }
    }

    /// The state after the pointer moves to `offset` during a drag: in whole words after a
    /// double click, else from the anchor to the offset.
    pub open spec fn mouse_moved(self, offset: usize) -> LayoutModel {
        let o = offset as int;
        match self.selecting_word {
            Some(w) => {
                let c = word_range_of(self.text, o);
                if o >= w.0 {
                    LayoutModel { start: w.0, end: c.1, ..self }
                } else {
                    LayoutModel { start: c.0, end: w.1, ..self }
                }
            },
            None => {
                let r = ordered(o, self.anchor);
                LayoutModel { start: r.0, end: r.1, ..self }
            },
        }
    }

    /// The state after focus is found to be `f`: on a change it is recorded, and losing
    /// focus drops a non-empty selection (to `0..0`).
    pub open spec fn with_focus(self, f: bool) -> LayoutModel {
        if f == self.focused {
            self
        } else if !f && !self.sel_empty() {
            LayoutModel { focused: f, start: 0, end: 0, ..self }
        } else {
            LayoutModel { focused: f, ..self }
        }
    }
}

/// Selection state of a layout of text children.
pub struct SelectableLayoutState {
    selected_range: Range<usize>,
    selection_anchor: usize,
    is_selecting: bool,
    selecting_word: Option<Range<usize>>,
    combined_text: String,
    child_byte_offsets: Vec<usize>,
    was_focused: bool,
}

/// The pair of an optional range.
pub open spec fn opt_range(r: Option<Range<usize>>) -> Option<(int, int)> {
    match r {
        Some(r) => Some((r.start as int, r.end as int)),
        None => None,
    }
}

impl View for SelectableLayoutState {
    type V = LayoutModel;

    closed spec fn view(&self) -> LayoutModel {
        LayoutModel {
            text: self.combined_text@,
            child_offsets: self.child_byte_offsets@,
            start: self.selected_range.start as int,
            end: self.selected_range.end as int,
            anchor: self.selection_anchor as int,
            selecting: self.is_selecting,
            selecting_word: opt_range(self.selecting_word),
            focused: self.was_focused,
        }
    }
}

/// Whether `c` is a word char (`word`) or whitespace (`!word`).
fn char_in_class(c: char, word: bool) -> (r: bool)
    ensures
        r == in_class(c, word),
{
    if word {
        is_word_char(c)
    } else {
        whitespace(c)
    }
}

/// The byte range of the run of class chars around char index `k` of `chars`.
fn class_run(
    chars: &Vec<char>,
    offsets: &Vec<usize>,
    k: usize,
    word: bool,
    Ghost(t): Ghost<Seq<char>>,
) -> (r: (usize, usize))
    requires
        chars@ == t,
        offsets@.len() == t.len() + 1,
        forall|i: int| 0 <= i <= t.len() ==> offsets@[i] == byte_offset(t, i),
        k <= t.len(),
    ensures
        r.0 == byte_offset(t, run_start(t, k as int, word)),
        r.1 == byte_offset(t, run_end(t, k as int, word)),
{
    let n = chars.len();
    let mut j: usize = k;
    while j > 0 && char_in_class(chars[j - 1], word)
        invariant
            chars@ == t,
            n == t.len(),
            j <= k <= n,
            run_start(t, j as int, word) == run_start(t, k as int, word),
        decreases j,
    {
        j = j - 1;
    }
    let mut e: usize = k;
    while e < n && char_in_class(chars[e], word)
        invariant
            chars@ == t,
            n == t.len(),
            k <= e <= n,
            run_end(t, e as int, word) == run_end(t, k as int, word),
        decreases n - e,
    {
        e = e + 1;
    }
    (offsets[j], offsets[e])
}

/// The byte range that a double click at `offset` selects in `text`.
pub fn word_range_at(text: &str, offset: usize) -> (r: Range<usize>)
    requires
        offset_ok(text@, offset),
    ensures
        r.start == word_range_of(text@, offset as int).0,
        r.end == word_range_of(text@, offset as int).1,
{
    let ghost t = text@;
    let len = str_byte_len(text);
    if len == 0 {
        return 0..0;
    }
    let o = if offset < len {
        offset
    } else {
        len
    };
    let chars = chars_of(text);
    let offsets = byte_offsets(text);
    let k = char_index_for_byte(&offsets, o, Ghost(t));
    proof {
        crate::words::lemma_boundary_index(t, o as int);
        lemma_offset_full(t);
        if t.len() == 0 {
            assert(byte_len(t) == 0);
        }
    }
    let ch = if o < len {
        chars[k]
    } else {
        chars[k - 1]
    };
    let is_word = is_word_char(ch);
    if is_word || whitespace(ch) {
        let (s, e) = class_run(&chars, &offsets, k, is_word, Ghost(t));
        s..e
    } else if o < len {
        proof {
            lemma_offset_step(t, k as int);
        }
        o..offsets[k + 1]
    } else {
        proof {
            lemma_offset_step(t, k - 1);
        }
        offsets[k - 1]..o
    }
}

impl SelectableLayoutState {
    /// Nothing selected, no children, unfocused.
    pub fn new() -> (s: Self)
        ensures
            s@ == (LayoutModel {
                text: Seq::empty(),
                child_offsets: Seq::empty(),
                start: 0,
                end: 0,
                anchor: 0,
                selecting: false,
                selecting_word: None,
                focused: false,
            }),
    {
        let s = SelectableLayoutState {
            selected_range: 0..0,
            selection_anchor: 0,
            is_selecting: false,
            selecting_word: None,
            combined_text: String::new(),
            child_byte_offsets: Vec::new(),
            was_focused: false,
        };
        proof {
            assert(s@.child_offsets =~= Seq::<usize>::empty());
        }
        s
    }

    /// The concatenated text of the children.
    pub fn combined_text(&self) -> (r: String)
        ensures
            r@ == self@.text,
    {
        self.combined_text.clone()
    }

    /// Byte offset at which each child's text starts.
    pub fn child_byte_offsets(&self) -> (r: Vec<usize>)
        ensures
            r@ == self@.child_offsets,
    {
        self.child_byte_offsets.clone()
    }

    /// Total byte length of the concatenated text.
    pub fn total_text_len(&self) -> (r: usize)
        ensures
            r == byte_len(self@.text),
    {
        str_byte_len(self.combined_text.as_str())
    }

    /// The selected byte range.
    pub fn selected_range(&self) -> (r: Range<usize>)
        ensures
            r.start == self@.start,
            r.end == self@.end,
    {
        self.selected_range.start..self.selected_range.end
    }

    /// Whether a drag selection is in progress.
    pub fn is_selecting(&self) -> (r: bool)
        ensures
            r == self@.selecting,
    {
        self.is_selecting
    }

    /// Takes the children's texts: they are concatenated, and the offset at which each
    /// starts is kept.
    pub fn set_children(&mut self, texts: &Vec<String>)
        ensures
            ({
                let v = texts@.map_values(|s: String| s@);
                &&& final(self)@.text == concat(v)
                &&& final(self)@.child_offsets.len() == v.len()
                &&& forall|i: int|
                    0 <= i < v.len() ==> #[trigger] final(self)@.child_offsets[i] == byte_len(
                        concat(v.take(i)),
                    )
                &&& final(self)@ == (LayoutModel {
                    text: final(self)@.text,
                    child_offsets: final(self)@.child_offsets,
                    ..old(self)@
                })
            }),
    {
        let ghost v = texts@.map_values(|s: String| s@);
        let mut combined = String::new();
        let mut offsets: Vec<usize> = Vec::new();
        let mut i: usize = 0;
        proof {
            assert(v.take(0) =~= Seq::<Seq<char>>::empty());
        }
        while i < texts.len()
            invariant
                v == texts@.map_values(|s: String| s@),
                i <= texts@.len(),
                combined@ == concat(v.take(i as int)),
                offsets@.len() == i,
                forall|j: int| 0 <= j < i ==> #[trigger] offsets@[j] == byte_len(concat(v.take(j))),
            decreases texts@.len() - i,
        {
            offsets.push(str_byte_len(combined.as_str()));
            combined.append(texts[i].as_str());
            proof {
                assert(v.take(i + 1).drop_last() =~= v.take(i as int));
                assert(v[i as int] == texts@[i as int]@);
            }
            i = i + 1;
        }
        proof {
            assert(v.take(v.len() as int) =~= v);
        }
        self.combined_text = combined;
        self.child_byte_offsets = offsets;
    }

    /// Records whether the layout has focus now; losing focus drops a non-empty selection.
    pub fn update_focus_state(&mut self, is_focused: bool)
        ensures
            final(self)@ == old(self)@.with_focus(is_focused),
    {
        if is_focused != self.was_focused {
            self.was_focused = is_focused;
            if !is_focused && self.selected_range.start < self.selected_range.end {
                self.selected_range = 0..0;
            }
        }
    }

    /// Mouse down at byte `offset`: one click places the cursor (a shift click extends from
    /// the anchor), two select the word, three the line; more clicks change nothing.
    pub fn on_mouse_down(&mut self, offset: usize, click_count: usize, shift: bool)
        requires
            click_count == 2 || click_count == 3 ==> offset_ok(old(self)@.text, offset),
        ensures
            final(self)@ == old(self)@.mouse_down(offset, click_count, shift),
    {
        if click_count == 1 {
            if shift {
                if offset < self.selection_anchor {
                    self.selected_range = offset..self.selection_anchor;
                } else {
                    self.selected_range = self.selection_anchor..offset;
                }
            } else {
                self.selection_anchor = offset;
                self.selected_range = offset..offset;
            }
            self.is_selecting = true;
            self.selecting_word = None;
        } else if click_count == 2 {
            let w = word_range_at(self.combined_text.as_str(), offset);
            self.selected_range = w.start..w.end;
            self.selection_anchor = w.start;
            self.is_selecting = true;
            self.selecting_word = Some(w);
        } else if click_count == 3 {
            let l = line_range_at(self.combined_text.as_str(), offset);
            self.selected_range = l.start..l.end;
            self.selection_anchor = l.start;
            self.is_selecting = true;
            self.selecting_word = None;
        }
    }

    /// Mouse up: the drag ends.
    pub fn on_mouse_up(&mut self)
        ensures
            final(self)@ == (LayoutModel { selecting: false, selecting_word: None, ..old(self)@ }),
    {
        self.is_selecting = false;
        self.selecting_word = None;
    }

    /// The pointer moved to byte `offset` during a drag.
    pub fn on_mouse_move_global(&mut self, offset: usize)
        requires
            old(self)@.selecting_word is Some ==> offset_ok(old(self)@.text, offset),
        ensures
            final(self)@ == old(self)@.mouse_moved(offset),
    {
        match &self.selecting_word {
            Some(w) => {
                let ws = w.start;
                let we = w.end;
                let c = word_range_at(self.combined_text.as_str(), offset);
                if offset >= ws {
                    self.selected_range = ws..c.end;
                } else {
                    self.selected_range = c.start..we;
                }
            },
            None => {
                if offset < self.selection_anchor {
                    self.selected_range = offset..self.selection_anchor;
                } else {
                    self.selected_range = self.selection_anchor..offset;
                }
            },
        }
    }

    /// Selects all of the text.
    pub fn select_all(&mut self)
        ensures
            final(self)@ == (LayoutModel { start: 0, end: byte_len(old(self)@.text) as int, ..old(self)@ }),
    {
        let len = str_byte_len(self.combined_text.as_str());
        self.selected_range = 0..len;
    }

    /// The selected text, when the selection is not empty and lies within the text.
    pub fn copy(&self) -> (r: Option<String>)
        requires
            !self@.sel_empty() && self@.end <= byte_len(self@.text) ==> is_char_boundary_of(
                self@.text,
                self@.start,
            ) && is_char_boundary_of(self@.text, self@.end),
        ensures
            ({
                let m = self@;
                &&& (m.sel_empty() || m.end > byte_len(m.text)) ==> r is None
                &&& !(m.sel_empty() || m.end > byte_len(m.text)) ==> (r matches Some(s) && s@
                    == m.text.subrange(
                    chars_before_byte(m.text, m.start),
                    chars_before_byte(m.text, m.end),
                ))
            }),
    {
        let text = self.combined_text.as_str();
        let len = str_byte_len(text);
        if self.selected_range.start >= self.selected_range.end || self.selected_range.end > len {
            return None;
        }
        let offsets = byte_offsets(text);
        let ia = char_index_for_byte(&offsets, self.selected_range.start, Ghost(text@));
        let ib = char_index_for_byte(&offsets, self.selected_range.end, Ghost(text@));
        proof {
            crate::words::lemma_boundary_index(text@, self@.start);
            crate::words::lemma_boundary_index(text@, self@.end);
            if ib < ia {
                crate::text::lemma_offset_mono(text@, ib as int, ia as int);
            }
        }
        Some(String::from_str(text.substring_char(ia, ib)))
    }
}

proof fn lemma_run_start_bounds(t: Seq<char>, k: int, word: bool)
    requires
        0 <= k,
    ensures
        0 <= run_start(t, k, word) <= k,
    decreases k,
{
    if k > 0 && in_class(t[k - 1], word) {
        lemma_run_start_bounds(t, k - 1, word);
    }
}

proof fn lemma_run_end_bounds(t: Seq<char>, k: int, word: bool)
    requires
        0 <= k <= t.len(),
    ensures
        k <= run_end(t, k, word) <= t.len(),
    decreases t.len() - k,
{
    if k < t.len() && in_class(t[k], word) {
        lemma_run_end_bounds(t, k + 1, word);
    }
}

/// On a non-empty text, the range that a double click selects is not empty, lies within
/// the text, and holds the clicked offset (clamped to the text).
pub proof fn law_word_range_contains_offset(t: Seq<char>, offset: usize)
    requires
        offset_ok(t, offset),
        byte_len(t) > 0,
    ensures
        ({
            let r = word_range_of(t, offset as int);
            let o = min_usize(offset, byte_len(t)) as int;
            &&& 0 <= r.0 <= o <= r.1 <= byte_len(t)
            &&& r.0 < r.1
        }),
{
    let len = byte_len(t) as int;
    let o = min_usize(offset, byte_len(t)) as int;
    let k = chars_before_byte(t, o);
    crate::words::lemma_boundary_index(t, o);
    lemma_offset_full(t);
    crate::text::lemma_byte_len_zero_iff(t);
    if o == len && k < t.len() {
        crate::text::lemma_offset_strict(t, k, t.len() as int);
    }
    let ch = if o < len { t[k] } else { t[k - 1] };
    if is_word_char_spec(ch) || char_is_whitespace(ch) {
        let w = is_word_char_spec(ch);
        lemma_run_start_bounds(t, k, w);
        lemma_run_end_bounds(t, k, w);
        let a = run_start(t, k, w);
        let b = run_end(t, k, w);
        if o < len {
            assert(in_class(t[k], w));
            lemma_run_end_bounds(t, k + 1, w);
            assert(b >= k + 1);
        } else {
            assert(in_class(t[k - 1], w));
            lemma_run_start_bounds(t, k - 1, w);
            assert(a <= k - 1);
        }
        crate::text::lemma_offset_mono(t, a, k);
        crate::text::lemma_offset_mono(t, k, b);
        crate::text::lemma_offset_strict(t, a, b);
        crate::text::lemma_offset_le_len(t, b);
    } else if o < len {
        lemma_offset_step(t, k);
        crate::text::lemma_offset_le_len(t, k + 1);
        crate::text::lemma_utf8_width_bounds(ch);
    } else {
        lemma_offset_step(t, k - 1);
        crate::text::lemma_utf8_width_bounds(ch);
    }
}

/// A plain drag selects from the anchor to the pointer, in order; the anchor stays.
pub proof fn law_drag_spans_anchor_and_pointer(m: LayoutModel, offset: usize)
    requires
        m.selecting_word is None,
    ensures
        ({
            let a = m.mouse_moved(offset);
            &&& a.start <= a.end
            &&& (a.start == m.anchor && a.end == offset) || (a.start == offset && a.end == m.anchor)
            &&& a.anchor == m.anchor
            &&& a.text == m.text
        }),
{
}

/// A drag after a double click keeps an ordered selection that holds the pointer's offset
/// (clamped to the text) and keeps one end of the word first selected.
pub proof fn law_word_drag_keeps_order(m: LayoutModel, offset: usize)
    requires
        m.selecting_word matches Some(w) && 0 <= w.0 <= w.1 <= byte_len(m.text),
        byte_len(m.text) > 0,
        offset_ok(m.text, offset),
    ensures
        ({
            let a = m.mouse_moved(offset);
            let w = m.selecting_word->0;
            let o = min_usize(offset, byte_len(m.text)) as int;
            &&& a.start <= o <= a.end
            &&& a.start <= a.end
            &&& a.start == w.0 || a.end == w.1
        }),
{
    law_word_range_contains_offset(m.text, offset);
}

/// Losing focus leaves nothing selected.
pub proof fn law_blur_clears_selection(m: LayoutModel)
    requires
        m.focused,
    ensures
        m.with_focus(false).sel_empty(),
        m.with_focus(false).text == m.text,
{
}

/// Copying after select-all gives the whole text.
pub proof fn law_copy_after_select_all(m: LayoutModel)
    requires
        byte_len(m.text) > 0,
    ensures
        ({
            let a = LayoutModel { start: 0, end: byte_len(m.text) as int, ..m };
            &&& !a.sel_empty()
            &&& a.end <= byte_len(a.text)
            &&& is_char_boundary_of(a.text, a.start) && is_char_boundary_of(a.text, a.end)
            &&& a.text.subrange(chars_before_byte(a.text, a.start), chars_before_byte(a.text, a.end))
                == m.text
        }),
{
    crate::text::lemma_whole_text_range(m.text);
}

/// A single click sets the selection from the anchor: a plain click puts the anchor and an
/// empty selection at the offset; a shift click keeps the anchor and selects from it to the
/// offset, whichever comes first, whatever the selection was before. Either way a drag
/// begins and any word-wise drag ends.
pub proof fn law_click_selects_from_anchor(m: LayoutModel, offset: usize, shift: bool)
    ensures
        ({
            let a = m.mouse_down(offset, 1, shift);
            let o = offset as int;
            &&& a.selecting && a.selecting_word is None
            &&& a.text == m.text
            &&& !shift ==> a.anchor == o && a.start == o && a.end == o
            &&& shift ==> a.anchor == m.anchor && a.start <= a.end && ((a.start == m.anchor
                && a.end == o) || (a.start == o && a.end == m.anchor))
        }),
{
}

/// A double or triple click anchors the selection at its start, and a double click drags
/// in whole words from the word it selected.
pub proof fn law_multi_click_anchors_at_start(m: LayoutModel, offset: usize, click_count: usize)
    requires
        click_count == 2 || click_count == 3,
    ensures
        ({
            let a = m.mouse_down(offset, click_count, false);
            &&& a.anchor == a.start
            &&& a.selecting
            &&& click_count == 2 ==> a.selecting_word == Some((a.start, a.end))
            &&& click_count == 3 ==> a.selecting_word is None
        }),
{
}

proof fn lemma_run_start_class(t: Seq<char>, k: int, word: bool)
    requires
        0 <= k <= t.len(),
    ensures
        forall|m: int| run_start(t, k, word) <= m < k ==> in_class(#[trigger] t[m], word),
        run_start(t, k, word) == 0 || !in_class(t[run_start(t, k, word) - 1], word),
    decreases k,
{
    if k > 0 && in_class(t[k - 1], word) {
        lemma_run_start_class(t, k - 1, word);
    }
}

proof fn lemma_run_end_class(t: Seq<char>, k: int, word: bool)
    requires
        0 <= k <= t.len(),
    ensures
        forall|m: int| k <= m < run_end(t, k, word) ==> in_class(#[trigger] t[m], word),
        run_end(t, k, word) == t.len() || !in_class(t[run_end(t, k, word)], word),
    decreases t.len() - k,
{
    if k < t.len() && in_class(t[k], word) {
        lemma_run_end_class(t, k + 1, word);
    }
}

/// A double click on a word char selects a whole word: every char of the selected range
/// is a word char, and the chars just before and just after it (where there are any) are
/// not. A double click on whitespace (that is no word char) selects the whole run of
/// whitespace in the same way. The clicked char is the one at the offset (clamped to the
/// text), or the last char at the end of the text.
pub proof fn law_double_click_selects_whole_run(t: Seq<char>, offset: usize)
    requires
        offset_ok(t, offset),
        byte_len(t) > 0,
    ensures
        ({
            let len = byte_len(t) as int;
            let o = min_usize(offset, byte_len(t)) as int;
            let k = chars_before_byte(t, o);
            let ch = if o < len { t[k] } else { t[k - 1] };
            let r = word_range_of(t, offset as int);
            let a = chars_before_byte(t, r.0);
            let b = chars_before_byte(t, r.1);
            &&& is_word_char_spec(ch) ==> {
                &&& 0 <= a <= b <= t.len()
                &&& r.0 == byte_offset(t, a) && r.1 == byte_offset(t, b)
                &&& forall|m: int| a <= m < b ==> is_word_char_spec(#[trigger] t[m])
                &&& a == 0 || !is_word_char_spec(t[a - 1])
                &&& b == t.len() || !is_word_char_spec(t[b])
            }
            &&& !is_word_char_spec(ch) && char_is_whitespace(ch) ==> {
                &&& 0 <= a <= b <= t.len()
                &&& r.0 == byte_offset(t, a) && r.1 == byte_offset(t, b)
                &&& forall|m: int| a <= m < b ==> char_is_whitespace(#[trigger] t[m])
                &&& a == 0 || !char_is_whitespace(t[a - 1])
                &&& b == t.len() || !char_is_whitespace(t[b])
            }
        }),
{
    let len = byte_len(t) as int;
    let o = min_usize(offset, byte_len(t)) as int;
    let k = chars_before_byte(t, o);
    crate::words::lemma_boundary_index(t, o);
    lemma_offset_full(t);
    crate::text::lemma_byte_len_zero_iff(t);
    if o == len && k < t.len() {
        crate::text::lemma_offset_strict(t, k, t.len() as int);
    }
    let ch = if o < len { t[k] } else { t[k - 1] };
    if is_word_char_spec(ch) || char_is_whitespace(ch) {
        let w = is_word_char_spec(ch);
        lemma_run_start_bounds(t, k, w);
        lemma_run_end_bounds(t, k, w);
        lemma_run_start_class(t, k, w);
        lemma_run_end_class(t, k, w);
        let a = run_start(t, k, w);
        let b = run_end(t, k, w);
        crate::text::lemma_chars_before_boundary(t, a);
        crate::text::lemma_chars_before_boundary(t, b);
        assert forall|m: int| a <= m < b implies in_class(#[trigger] t[m], w) by {
            if m >= k {
                assert(in_class(t[m], w));
            }
        }
    }
}

} // verus!
