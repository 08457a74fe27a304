//! Mapping between visual (wrapped) lines and byte ranges of the text.
use vstd::prelude::*;

use crate::text::{first_where, lemma_first_where_unique};

verus! {

/// Maps a visual line to a byte range of the source text; used by wrapped mode to
/// map screen positions to text offsets and back.
#[derive(Clone, Copy, Debug, PartialEq, Eq)]
pub struct VisualLineInfo {
    /// Byte offset in the full text where this visual line starts.
    pub start_offset: usize,
    /// Byte offset in the full text where this visual line ends (exclusive).
    pub end_offset: usize,
    /// Index of the logical (wrapped) line this segment belongs to.
    pub wrapped_line_index: usize,
    /// Which visual segment within the wrapped line (0 for the first).
    pub visual_index_in_wrapped: usize,
}

/// The layout of one logical line after wrapping: its length in bytes, and the byte
/// offsets (within the line) at which each wrap happens.
pub struct WrappedLineLayout {
    pub len: usize,
    pub wrap_offsets: Vec<usize>,
}

/// The visual lines of one logical line: segment `j` runs from the previous wrap
/// (or the line start) to wrap `j` (or the line end).
pub open spec fn wrap_segments(ends: Seq<usize>, idx: usize, off: int, len: int) -> Seq<VisualLineInfo> {
    Seq::new(
        (ends.len() + 1) as nat,
        |j: int|
            VisualLineInfo {
                start_offset: (off + if j == 0 {
                    0
                } else {
                    ends[j - 1] as int
                }) as usize,
                end_offset: (off + if j < ends.len() {
                    ends[j] as int
                } else {
                    len
                }) as usize,
                wrapped_line_index: idx,
                visual_index_in_wrapped: j as usize,
            },
    )
}

/// Whether the offsets of one line's segments fit in a `usize`.
pub open spec fn segments_fit(ends: Seq<usize>, off: int, len: int) -> bool {
    &&& off + len <= usize::MAX
    &&& forall|j: int| 0 <= j < ends.len() ==> off + #[trigger] ends[j] <= usize::MAX
}

/// Appends the visual lines of one wrapped logical line, given the byte offsets (within
/// the line) of its wrap points.
pub fn build_visual_lines_from_wrap_boundaries(
    visual_lines: &mut Vec<VisualLineInfo>,
    wrap_offsets: &[usize],
    wrapped_idx: usize,
    text_offset: usize,
    line_len: usize,
)
    requires
        segments_fit(wrap_offsets@, text_offset as int, line_len as int),
    ensures
        final(visual_lines)@ == old(visual_lines)@ + wrap_segments(
            wrap_offsets@,
            wrapped_idx,
            text_offset as int,
            line_len as int,
        ),
{
    let ghost segs = wrap_segments(wrap_offsets@, wrapped_idx, text_offset as int, line_len as int);
    let ghost base = visual_lines@;
    if wrap_offsets.len() == 0 {
        visual_lines.push(
            VisualLineInfo {
                start_offset: text_offset,
                end_offset: text_offset + line_len,
                wrapped_line_index: wrapped_idx,
                visual_index_in_wrapped: 0,
            },
        );
        proof {
            assert(visual_lines@ =~= base + segs);
        }
        return ;
    }
    let mut segment_start: usize = 0;
    let mut visual_idx: usize = 0;
    while visual_idx < wrap_offsets.len()
        invariant
            segments_fit(wrap_offsets@, text_offset as int, line_len as int),
            segs == wrap_segments(wrap_offsets@, wrapped_idx, text_offset as int, line_len as int),
            visual_idx <= wrap_offsets@.len(),
            wrap_offsets@.len() > 0,
            segment_start == if visual_idx == 0 {
                0
            } else {
                wrap_offsets@[visual_idx - 1]
            },
            visual_lines@ =~= base + segs.take(visual_idx as int),
        decreases wrap_offsets@.len() - visual_idx,
    {
        let segment_end = wrap_offsets[visual_idx];
        visual_lines.push(
            VisualLineInfo {
                start_offset: text_offset + segment_start,
                end_offset: text_offset + segment_end,
                wrapped_line_index: wrapped_idx,
                visual_index_in_wrapped: visual_idx,
            },
        );
        proof {
            assert(segs.take(visual_idx + 1) =~= segs.take(visual_idx as int).push(
                segs[visual_idx as int],
            ));
        }
        segment_start = segment_end;
        visual_idx = visual_idx + 1;
    }
    visual_lines.push(
        VisualLineInfo {
            start_offset: text_offset + segment_start,
            end_offset: text_offset + line_len,
            wrapped_line_index: wrapped_idx,
            visual_index_in_wrapped: wrap_offsets.len(),
        },
    );
    proof {
        assert(segs =~= segs.take(wrap_offsets@.len() as int).push(
            segs[wrap_offsets@.len() as int],
        ));
    }
}

/// Byte offset in the text where logical line `i` starts: each earlier line takes its
/// length plus one byte for its newline.
pub open spec fn line_text_offset(lines: Seq<(int, Seq<usize>)>, i: int) -> int
    decreases i,
{
    if i <= 0 {
        0
    } else {
        line_text_offset(lines, i - 1) + lines[i - 1].0 + 1
    }
}

/// The visual lines of the first `i` logical lines, in order.
pub open spec fn visual_lines_of(lines: Seq<(int, Seq<usize>)>, i: int) -> Seq<VisualLineInfo>
    decreases i,
{
    if i <= 0 {
        Seq::empty()
    } else {
        visual_lines_of(lines, i - 1) + wrap_segments(
            lines[i - 1].1,
            (i - 1) as usize,
            line_text_offset(lines, i - 1),
            lines[i - 1].0,
        )
    }
}

/// Length and wrap offsets of each wrapped line.
pub open spec fn layouts_view(lines: Seq<WrappedLineLayout>) -> Seq<(int, Seq<usize>)> {
    lines.map_values(|l: WrappedLineLayout| (l.len as int, l.wrap_offsets@))
}

/// Whether all offsets that building the visual lines computes fit in a `usize`.
pub open spec fn layouts_fit(lines: Seq<(int, Seq<usize>)>) -> bool {
    &&& line_text_offset(lines, lines.len() as int) <= usize::MAX
    &&& forall|i: int|
        0 <= i < lines.len() ==> #[trigger] segments_fit(
            lines[i].1,
            line_text_offset(lines, i),
            lines[i].0,
        )
}

proof fn lemma_line_text_offset_mono(lines: Seq<(int, Seq<usize>)>, i: int, j: int)
    requires
        0 <= i <= j <= lines.len(),
        forall|k: int| 0 <= k < lines.len() ==> lines[k].0 >= 0,
    ensures
        line_text_offset(lines, i) <= line_text_offset(lines, j),
    decreases j - i,
{
    if i < j {
        lemma_line_text_offset_mono(lines, i, j - 1);
    }
}

/// The visual lines of a whole text, given the layout of each of its wrapped lines;
/// an empty text has one empty visual line.
pub fn build_visual_lines(text_len: usize, lines: &Vec<WrappedLineLayout>) -> (r: Vec<
    VisualLineInfo,
>)
    requires
        layouts_fit(layouts_view(lines@)),
    ensures
        text_len == 0 ==> r@ == seq![
            VisualLineInfo {
                start_offset: 0,
                end_offset: 0,
                wrapped_line_index: 0,
                visual_index_in_wrapped: 0,
            },
        ],
        text_len > 0 ==> r@ == visual_lines_of(layouts_view(lines@), lines@.len() as int),
{
    let mut visual_lines: Vec<VisualLineInfo> = Vec::new();
    if text_len == 0 {
        visual_lines.push(
            VisualLineInfo {
                start_offset: 0,
                end_offset: 0,
                wrapped_line_index: 0,
                visual_index_in_wrapped: 0,
            },
        );
        proof {
            assert(visual_lines@ =~= seq![
                VisualLineInfo {
                    start_offset: 0,
                    end_offset: 0,
                    wrapped_line_index: 0,
                    visual_index_in_wrapped: 0,
                },
            ]);
        }
        return visual_lines;
    }
    let ghost lv = layouts_view(lines@);
    let mut text_offset: usize = 0;
    let mut i: usize = 0;
    while i < lines.len()
        invariant
            lv == layouts_view(lines@),
            layouts_fit(lv),
            i <= lines@.len(),
            text_offset == line_text_offset(lv, i as int),
            visual_lines@ == visual_lines_of(lv, i as int),
        decreases lines@.len() - i,
    {
        let line = &lines[i];
        assert(lv[i as int] == (line.len as int, line.wrap_offsets@));
        assert(segments_fit(lv[i as int].1, line_text_offset(lv, i as int), lv[i as int].0));
        build_visual_lines_from_wrap_boundaries(
            &mut visual_lines,
            line.wrap_offsets.as_slice(),
            i,
            text_offset,
            line.len,
        );
        proof {
            assert forall|k: int| 0 <= k < lv.len() implies lv[k].0 >= 0 by {}
            lemma_line_text_offset_mono(lv, i + 1, lv.len() as int);
        }
        text_offset = text_offset + line.len + 1;
        i = i + 1;
    }
    visual_lines
}

/// Index of the first visual line whose range holds `offset` (ends included), or 0.
pub open spec fn visual_line_for_offset_of(lines: Seq<VisualLineInfo>, offset: int) -> int {
    let k = first_where(
        lines.len() as int,
        0,
        |i: int| lines[i].start_offset <= offset && offset <= lines[i].end_offset,
    );
    if k < lines.len() {
        k
    } else {
        0
    }
}

/// Index of the first visual line whose range holds `offset` (ends included), or 0.
pub fn visual_line_for_offset(lines: &[VisualLineInfo], offset: usize) -> (r: usize)
    ensures
        r == visual_line_for_offset_of(lines@, offset as int),
{
    let ghost p = |i: int| lines@[i].start_offset <= offset && offset <= lines@[i].end_offset;
    let mut k: usize = 0;
    while k < lines.len() && !(lines[k].start_offset <= offset && offset <= lines[k].end_offset)
        invariant
            k <= lines@.len(),
            p == (|i: int| lines@[i].start_offset <= offset && offset <= lines@[i].end_offset),
            forall|j: int| 0 <= j < k ==> !#[trigger] p(j),
        decreases lines@.len() - k,
    {
        assert(!p(k as int));
        k = k + 1;
    }
    proof {
        lemma_first_where_unique(lines@.len() as int, 0, p, k as int);
    }
    if k < lines.len() {
        k
    } else {
        0
    }
}

/// Whether content of `total` lines overflows a view that shows at most `max_lines`.
pub open spec fn overflows(max_lines: Option<usize>, total: int) -> bool {
    max_lines matches Some(c) && total > c
}

/// `target_line` when content of `total_lines` lines overflows a view of at most
/// `multiline_max_lines` lines, else `None`.
pub fn scroll_target(target_line: usize, total_lines: usize, multiline_max_lines: Option<usize>) -> (r:
    Option<usize>)
    ensures
        overflows(multiline_max_lines, total_lines as int) ==> r == Some(target_line),
        !overflows(multiline_max_lines, total_lines as int) ==> r is None,
{
    match multiline_max_lines {
        Some(clamp) => if total_lines > clamp {
            Some(target_line)
        } else {
            None
        },
        None => None,
    }
}

/// The line to scroll to (centred) so that the cursor shows, when the content has more
/// lines than fit: in wrapped mode the cursor's visual line among
/// `precomputed_visual_lines`; otherwise the line that `offset_to_line` gives for the cursor,
/// out of the `line_count()` lines (both are asked only in that mode). `None` when
/// everything fits and no scroll is needed.
pub fn ensure_cursor_visible_in_scroll<F: FnOnce(usize) -> usize, G: FnOnce() -> usize>(
    cursor_offset: usize,
    is_wrapped: bool,
    precomputed_visual_lines: &[VisualLineInfo],
    multiline_max_lines: Option<usize>,
    offset_to_line: F,
    line_count: G,
) -> (r: Option<usize>)
    requires
        !is_wrapped ==> offset_to_line.requires((cursor_offset,)) && line_count.requires(()),
    ensures
        is_wrapped ==> {
            let lines = precomputed_visual_lines@;
            &&& overflows(multiline_max_lines, lines.len() as int) ==> r == Some(
                visual_line_for_offset_of(lines, cursor_offset as int) as usize,
            )
            &&& !overflows(multiline_max_lines, lines.len() as int) ==> r is None
        },
        !is_wrapped ==> exists|line: usize, total: usize|
            #![trigger offset_to_line.ensures((cursor_offset,), line), line_count.ensures((), total)]
            {
                &&& offset_to_line.ensures((cursor_offset,), line)
                &&& line_count.ensures((), total)
                &&& overflows(multiline_max_lines, total as int) ==> r == Some(line)
                &&& !overflows(multiline_max_lines, total as int) ==> r is None
            },
{
    let (target_line, total_lines) = if is_wrapped {
        (
            visual_line_for_offset(precomputed_visual_lines, cursor_offset),
            precomputed_visual_lines.len(),
        )
    } else {
        let cursor_line = offset_to_line(cursor_offset);
        let total = line_count();
        (cursor_line, total)
    };
    let r = scroll_target(target_line, total_lines, multiline_max_lines);
    proof {
        if !is_wrapped {
            assert(offset_to_line.ensures((cursor_offset,), target_line));
            assert(line_count.ensures((), total_lines));
        }
    }
    r
}

/// Sum of the run lengths.
pub open spec fn sum_lens(lens: Seq<usize>) -> int
    decreases lens.len(),
{
    if lens.len() == 0 {
        0
    } else {
        sum_lens(lens.drop_last()) + lens.last()
    }
}

/// How many bytes of run `i` (which starts where the runs before it end) fall in
/// `start..end`; zero or less when none do.
pub open spec fn run_overlap(lens: Seq<usize>, i: int, start: int, end: int) -> int {
    let off = sum_lens(lens.take(i));
    let run_end = off + lens[i];
    let a = if start > off { start } else { off };
    let b = if end < run_end { end } else { run_end };
    b - a
}

/// The runs among the first `n` that overlap `start..end`: each as its index and the
/// length of the overlap, in order.
pub open spec fn sliced_runs(lens: Seq<usize>, n: int, start: int, end: int) -> Seq<(usize, usize)>
    decreases n,
{
    if n <= 0 {
        Seq::empty()
    } else {
        let p = sliced_runs(lens, n - 1, start, end);
        let o = run_overlap(lens, n - 1, start, end);
        if o > 0 {
            p.push(((n - 1) as usize, o as usize))
        } else {
            p
        }
    }
}

proof fn lemma_sum_lens_prefix(lens: Seq<usize>, i: int)
    requires
        0 <= i <= lens.len(),
    ensures
        0 <= sum_lens(lens.take(i)) <= sum_lens(lens),
    decreases lens.len(),
{
    if lens.len() > 0 {
        if i == lens.len() {
            assert(lens.take(i) =~= lens);
            lemma_sum_lens_prefix(lens.drop_last(), i - 1);
            assert(lens.drop_last().take(i - 1) =~= lens.drop_last());
        } else {
            lemma_sum_lens_prefix(lens.drop_last(), i);
            assert(lens.drop_last().take(i) =~= lens.take(i));
        }
    } else {
        assert(lens.take(i) =~= lens);
    }
}

/// The runs among `run_lens` (byte lengths, laid end to end) that overlap `start..end`,
/// each as its index and the length of the overlap, in order.
fn overlapping_runs(run_lens: &[usize], start: usize, end: usize) -> (r: Vec<(usize, usize)>)
    requires
        sum_lens(run_lens@) <= usize::MAX,
    ensures
        r@ == sliced_runs(run_lens@, run_lens@.len() as int, start as int, end as int),
{
    let ghost lens = run_lens@;
    let mut r: Vec<(usize, usize)> = Vec::new();
    let mut run_offset: usize = 0;
    let mut i: usize = 0;
    proof {
        assert(lens.take(0) =~= Seq::<usize>::empty());
    }
    while i < run_lens.len()
        invariant
            lens == run_lens@,
            i <= lens.len(),
            sum_lens(lens) <= usize::MAX,
            run_offset == sum_lens(lens.take(i as int)),
            r@ == sliced_runs(lens, i as int, start as int, end as int),
        decreases lens.len() - i,
    {
        proof {
            assert(lens.take(i + 1).drop_last() =~= lens.take(i as int));
            lemma_sum_lens_prefix(lens, i + 1);
        }
        let run_end = run_offset + run_lens[i];
        if run_end > start && run_offset < end {
            let overlap_start = if start > run_offset {
                start
            } else {
                run_offset
            };
            let overlap_end = if end < run_end {
                end
            } else {
                run_end
            };
            if overlap_end > overlap_start {
                r.push((i, overlap_end - overlap_start));
            }
        }
        run_offset = run_end;
        i = i + 1;
    }
    r
}

/// The text runs for bytes `start..end`: each run that overlaps the range, cut to the
/// overlap (`Some(index)` and the overlap's length), or, when none does (an empty range
/// included), one empty run of the layout's default style (`None`, length 0).
pub open spec fn runs_for_range(lens: Seq<usize>, start: int, end: int) -> Seq<(Option<usize>, usize)> {
    let s = sliced_runs(lens, lens.len() as int, start, end);
    if s.len() == 0 {
        seq![(None, 0usize)]
    } else {
        s.map_values(|p: (usize, usize)| (Some(p.0), p.1))
    }
}

/// The text runs (given by their byte lengths, laid end to end) for the byte range
/// `start..end`: each run that overlaps it, cut to the part inside the range, as its index
/// and that part's length; when no run overlaps (an empty range included), a single empty
/// run of the default style, given as `(None, 0)`.
pub fn slice_runs_for_range(run_lens: &[usize], start: usize, end: usize) -> (r: Vec<
    (Option<usize>, usize),
>)
    requires
        sum_lens(run_lens@) <= usize::MAX,
    ensures
        r@ == runs_for_range(run_lens@, start as int, end as int),
{
    let runs = overlapping_runs(run_lens, start, end);
    if runs.len() == 0 {
        return vec![(None, 0)];
    }
    let mut r: Vec<(Option<usize>, usize)> = Vec::new();
    let mut j: usize = 0;
    while j < runs.len()
        invariant
            j <= runs@.len(),
            r@ == runs@.take(j as int).map_values(|p: (usize, usize)| (Some(p.0), p.1)),
        decreases runs@.len() - j,
    {
        let (index, len) = runs[j];
        r.push((Some(index), len));
        proof {
            assert(runs@.take(j + 1) =~= runs@.take(j as int).push(runs@[j as int]));
            assert(r@ =~= runs@.take(j + 1).map_values(|p: (usize, usize)| (Some(p.0), p.1)));
        }
        j = j + 1;
    }
    proof {
        assert(runs@.take(runs@.len() as int) =~= runs@);
    }
    r
}

/// Total length of the sliced runs.
pub open spec fn sliced_total(r: Seq<(usize, usize)>) -> int
    decreases r.len(),
{
    if r.len() == 0 {
        0
    } else {
        sliced_total(r.drop_last()) + r.last().1
    }
}

/// Length of the part of `start..end` that lies in `lo..hi`.
pub open spec fn overlap_len(start: int, end: int, lo: int, hi: int) -> int {
    let a = if start > lo { start } else { lo };
    let b = if end < hi { end } else { hi };
    if b > a {
        b - a
    } else {
        0
    }
}

proof fn lemma_sum_lens_step(lens: Seq<usize>, i: int)
    requires
        0 <= i < lens.len(),
    ensures
        sum_lens(lens.take(i + 1)) == sum_lens(lens.take(i)) + lens[i],
{
    assert(lens.take(i + 1).drop_last() =~= lens.take(i));
}

proof fn lemma_sliced_total(lens: Seq<usize>, n: int, start: int, end: int)
    requires
        0 <= n <= lens.len(),
        0 <= start,
    ensures
        sliced_total(sliced_runs(lens, n, start, end)) == overlap_len(
            start,
            end,
            0,
            sum_lens(lens.take(n)),
        ),
    decreases n,
{
    if n == 0 {
        assert(lens.take(0) =~= Seq::<usize>::empty());
    } else {
        lemma_sliced_total(lens, n - 1, start, end);
        lemma_sum_lens_step(lens, n - 1);
        lemma_sum_lens_prefix(lens, n - 1);
        let p = sliced_runs(lens, n - 1, start, end);
        let o = run_overlap(lens, n - 1, start, end);
        if o > 0 {
            assert(p.push(((n - 1) as usize, o as usize)).drop_last() =~= p);
        }
    }
}

/// The sliced runs cover exactly the part of `start..end` that the runs span: their
/// lengths add up to the length of that part.
pub proof fn law_slices_cover_range(lens: Seq<usize>, start: usize, end: usize)
    ensures
        sliced_total(sliced_runs(lens, lens.len() as int, start as int, end as int)) == overlap_len(
            start as int,
            end as int,
            0,
            sum_lens(lens),
        ),
{
    lemma_sliced_total(lens, lens.len() as int, start as int, end as int);
    assert(lens.take(lens.len() as int) =~= lens);
}

/// The visual lines of one wrapped line tile it: the first starts at the line's offset,
/// the last ends at the line's end, each ends where the next starts, and they are numbered
/// in order within the line.
pub proof fn law_wrap_segments_tile(ends: Seq<usize>, idx: usize, off: int, len: int)
    requires
        0 <= off,
        0 <= len,
        segments_fit(ends, off, len),
    ensures
        ({
            let v = wrap_segments(ends, idx, off, len);
            &&& v.len() == ends.len() + 1
            &&& v[0].start_offset == off
            &&& v[v.len() - 1].end_offset == off + len
            &&& forall|j: int| 0 <= j < ends.len() ==> #[trigger] v[j].end_offset == v[j + 1].start_offset
            &&& forall|j: int|
                0 <= j < v.len() ==> #[trigger] v[j].visual_index_in_wrapped == j as usize
                    && v[j].wrapped_line_index == idx
        }),
{
    let v = wrap_segments(ends, idx, off, len);
    assert forall|j: int| 0 <= j < ends.len() implies #[trigger] v[j].end_offset == v[j
        + 1].start_offset by {
        assert(off + ends[j] <= usize::MAX);
    }
}

} // verus!
