//! Which children of a selectable layout are shaped together: runs of consecutive children
//! between line breaks, each as one piece of text with one text run per child.
use vstd::prelude::*;

use crate::rendering::VisualLineInfo;

verus! {

/// A group of consecutive children shaped as one text: children `first_child..end_child`,
/// covering bytes `byte_start..byte_end` of the combined text.
#[derive(Clone, Copy, Debug, PartialEq, Eq)]
pub struct ChildGroup {
    pub first_child: usize,
    pub end_child: usize,
    pub byte_start: usize,
    pub byte_end: usize,
}

/// Where child `i`'s text ends: where the next child starts, or the end of the text.
pub open spec fn child_end_of(offs: Seq<usize>, total: int, i: int) -> int {
    if i + 1 < offs.len() {
        offs[i + 1] as int
    } else {
        total
    }
}

/// Where a group that ends before child `e` ends: where child `e` starts, or the end of
/// the text.
pub open spec fn group_end_of(offs: Seq<usize>, total: int, e: int) -> int {
    if e < offs.len() {
        offs[e] as int
    } else {
        total
    }
}

/// The group that a pending start closes at child `e`, if it covers any bytes.
pub open spec fn flushed(offs: Seq<usize>, total: int, pending: Option<int>, e: int) -> Seq<
    ChildGroup,
> {
    match pending {
        None => Seq::empty(),
        Some(s) => {
            let bs = offs[s] as int;
            let be = group_end_of(offs, total, e);
            if bs >= be {
                Seq::empty()
            } else {
                seq![
                    ChildGroup {
                        first_child: s as usize,
                        end_child: e as usize,
                        byte_start: bs as usize,
                        byte_end: be as usize,
                    },
                ]
            }
        },
    }
}

/// The groups of the children from `i` on, with a group pending from child `pending`: a
/// line break closes the pending group; a child with text opens a group when none is
/// pending; the last group closes at the end.
pub open spec fn groups_from(
    offs: Seq<usize>,
    brk: Seq<bool>,
    total: int,
    i: int,
    pending: Option<int>,
) -> Seq<ChildGroup>
    decreases offs.len() - i,
{
    if i >= offs.len() {
        flushed(offs, total, pending, offs.len() as int)
    } else if brk[i] {
        flushed(offs, total, pending, i) + groups_from(offs, brk, total, i + 1, None)
    } else if child_end_of(offs, total, i) <= offs[i] {
        groups_from(offs, brk, total, i + 1, pending)
    } else {
        groups_from(
            offs,
            brk,
            total,
            i + 1,
            if pending is None {
                Some(i)
            } else {
                pending
            },
        )
    }
}

/// Whether the child offsets and the text length are usable: offsets never decrease and
/// none lies past the end of the text.
pub open spec fn offsets_ok(offs: Seq<usize>, total: int) -> bool {
    &&& forall|i: int, j: int| 0 <= i <= j < offs.len() ==> offs[i] <= offs[j]
    &&& forall|i: int| 0 <= i < offs.len() ==> offs[i] <= total
}

/// Groups the children of a layout for shaping. `child_byte_offsets[i]` is where child
/// `i`'s text starts in the combined text of `total_text_len` bytes, and
/// `is_line_break[i]` tells whether child `i` is a line break.
pub fn child_groups(
    child_byte_offsets: &[usize],
    is_line_break: &[bool],
    total_text_len: usize,
) -> (r: Vec<ChildGroup>)
    requires
        is_line_break@.len() == child_byte_offsets@.len(),
    ensures
        r@ == groups_from(child_byte_offsets@, is_line_break@, total_text_len as int, 0, None),
        offsets_ok(child_byte_offsets@, total_text_len as int) ==> breaks_separate(
            r@,
            is_line_break@,
        ),
        offsets_ok(child_byte_offsets@, total_text_len as int) ==> text_children_covered(
            r@,
            child_byte_offsets@,
            is_line_break@,
            total_text_len as int,
            0,
        ),
{
    let ghost offs = child_byte_offsets@;
    let ghost brk = is_line_break@;
    let ghost total = total_text_len as int;
    let n = child_byte_offsets.len();
    let mut r: Vec<ChildGroup> = Vec::new();
    let mut pending: Option<usize> = None;
    let mut i: usize = 0;
    while i < n
        invariant
            n == offs.len(),
            offs == child_byte_offsets@,
            brk == is_line_break@,
            brk.len() == n,
            total == total_text_len,
            i <= n,
            pending matches Some(s) ==> s < i,
            r@ + groups_from(
                offs,
                brk,
                total,
                i as int,
                match pending {
                    Some(s) => Some(s as int),
                    None => None,
                },
            ) == groups_from(offs, brk, total, 0, None),
        decreases n - i,
    {
        let ghost p = match pending {
            Some(s) => Some(s as int),
            None => None::<int>,
        };
        if is_line_break[i] {
            let ghost before = r@;
            flush_group(&mut r, pending, i, child_byte_offsets, total_text_len);
            proof {
                assert(before + (flushed(offs, total, p, i as int)
                    + groups_from(offs, brk, total, i + 1, None)) =~= r@ + groups_from(
                    offs,
                    brk,
                    total,
                    i + 1,
                    None,
                ));
            }
            pending = None;
        } else {
            let child_start = child_byte_offsets[i];
            let child_end = if i + 1 < n {
                child_byte_offsets[i + 1]
            } else {
                total_text_len
            };
            if child_end > child_start && pending.is_none() {
                pending = Some(i);
            }
        }
        i = i + 1;
    }
    flush_group(&mut r, pending, n, child_byte_offsets, total_text_len);
    proof {
        assert(r@ =~= groups_from(offs, brk, total, 0, None));
        if offsets_ok(offs, total) {
            law_groups_are_maximal(offs, brk, total);
        }
    }
    r
}

/// Appends the group that `pending` opened, closed before child `end_child`, when it
/// covers any bytes.
fn flush_group(
    groups: &mut Vec<ChildGroup>,
    pending: Option<usize>,
    end_child: usize,
    child_byte_offsets: &[usize],
    total_text_len: usize,
)
    requires
        end_child <= child_byte_offsets@.len(),
        pending matches Some(s) ==> s < child_byte_offsets@.len(),
    ensures
        final(groups)@ == old(groups)@ + flushed(
            child_byte_offsets@,
            total_text_len as int,
            match pending {
                Some(s) => Some(s as int),
                None => None,
            },
            end_child as int,
        ),
{
    let start = match pending {
        Some(s) => s,
        None => {
            proof {
                assert(old(groups)@ + Seq::<ChildGroup>::empty() =~= old(groups)@);
            }
            return;
        },
    };
    let byte_start = child_byte_offsets[start];
    let byte_end = if end_child < child_byte_offsets.len() {
        child_byte_offsets[end_child]
    } else {
        total_text_len
    };
    if byte_start >= byte_end {
        proof {
            assert(old(groups)@ + Seq::<ChildGroup>::empty() =~= old(groups)@);
        }
        return;
    }
    groups.push(ChildGroup { first_child: start, end_child, byte_start, byte_end });
}

/// The text runs of the children `s..e`: each child that is not a line break and has text
/// gives its index and its length in bytes, in order.
pub open spec fn runs_of(offs: Seq<usize>, brk: Seq<bool>, total: int, s: int, e: int) -> Seq<
    (usize, usize),
>
    decreases e - s,
{
    if e <= s {
        Seq::empty()
    } else {
        let p = runs_of(offs, brk, total, s, e - 1);
        let len = child_end_of(offs, total, e - 1) - offs[e - 1];
        if !brk[e - 1] && len > 0 {
            p.push(((e - 1) as usize, len as usize))
        } else {
            p
        }
    }
}

/// The text runs that shaping `group` takes: one per child of the group that is not a
/// line break and has text, with its index and its length in bytes.
pub fn group_runs(
    child_byte_offsets: &[usize],
    is_line_break: &[bool],
    total_text_len: usize,
    group: &ChildGroup,
) -> (r: Vec<(usize, usize)>)
    requires
        is_line_break@.len() == child_byte_offsets@.len(),
        group.first_child <= group.end_child <= child_byte_offsets@.len(),
        offsets_ok(child_byte_offsets@, total_text_len as int),
    ensures
        r@ == runs_of(
            child_byte_offsets@,
            is_line_break@,
            total_text_len as int,
            group.first_child as int,
            group.end_child as int,
        ),
{
    let ghost offs = child_byte_offsets@;
    let ghost brk = is_line_break@;
    let n = child_byte_offsets.len();
    let mut r: Vec<(usize, usize)> = Vec::new();
    let mut ci: usize = group.first_child;
    while ci < group.end_child
        invariant
            offs == child_byte_offsets@,
            brk == is_line_break@,
            n == offs.len(),
            brk.len() == n,
            group.first_child <= ci <= group.end_child <= n,
            offsets_ok(offs, total_text_len as int),
            r@ == runs_of(offs, brk, total_text_len as int, group.first_child as int, ci as int),
        decreases group.end_child - ci,
    {
        if !is_line_break[ci] {
            let ci_start = child_byte_offsets[ci];
            let ci_end = if ci + 1 < n {
                child_byte_offsets[ci + 1]
            } else {
                total_text_len
            };
            let ci_len = ci_end - ci_start;
            if ci_len != 0 {
                r.push((ci, ci_len));
            }
        }
        ci = ci + 1;
    }
    r
}

/// What holds of every group that the children from `i` on give, when the pending group
/// (if any) starts at a child with text and holds no line break up to `i`.
proof fn lemma_groups_from(offs: Seq<usize>, brk: Seq<bool>, total: int, i: int, pending: Option<int>)
    requires
        0 <= i <= offs.len() <= usize::MAX,
        0 <= total <= usize::MAX,
        brk.len() == offs.len(),
        pending matches Some(s) ==> 0 <= s < i && forall|j: int| s <= j < i ==> !#[trigger] brk[j],
    ensures
        forall|k: int|
            0 <= k < groups_from(offs, brk, total, i, pending).len() ==> {
                let g = #[trigger] groups_from(offs, brk, total, i, pending)[k];
                &&& g.first_child < g.end_child <= offs.len()
                &&& forall|j: int| g.first_child <= j < g.end_child ==> !#[trigger] brk[j]
                &&& g.byte_start == offs[g.first_child as int]
                &&& g.byte_end == group_end_of(offs, total, g.end_child as int)
            },
    decreases offs.len() - i,
{
    if i >= offs.len() {
    } else if brk[i] {
        lemma_groups_from(offs, brk, total, i + 1, None);
        let f = flushed(offs, total, pending, i);
        let rest = groups_from(offs, brk, total, i + 1, None);
        assert(groups_from(offs, brk, total, i, pending) == f + rest);
        assert forall|k: int| 0 <= k < (f + rest).len() implies {
            let g = #[trigger] (f + rest)[k];
            &&& g.first_child < g.end_child <= offs.len()
            &&& forall|j: int| g.first_child <= j < g.end_child ==> !#[trigger] brk[j]
            &&& g.byte_start == offs[g.first_child as int]
            &&& g.byte_end == group_end_of(offs, total, g.end_child as int)
        } by {
            if k >= f.len() {
                assert((f + rest)[k] == rest[k - f.len()]);
            }
        }
    } else if child_end_of(offs, total, i) <= offs[i] {
        lemma_groups_from(offs, brk, total, i + 1, pending);
        assert(groups_from(offs, brk, total, i, pending) == groups_from(
            offs,
            brk,
            total,
            i + 1,
            pending,
        ));
    } else {
        let np = if pending is None {
            Some(i)
        } else {
            pending
        };
        lemma_groups_from(offs, brk, total, i + 1, np);
        assert(groups_from(offs, brk, total, i, pending) == groups_from(
            offs,
            brk,
            total,
            i + 1,
            np,
        ));
    }
}

/// Total length of a list of runs.
proof fn lemma_runs_total(offs: Seq<usize>, brk: Seq<bool>, total: int, s: int, e: int)
    requires
        0 <= s < e <= offs.len() <= usize::MAX,
        0 <= total <= usize::MAX,
        brk.len() == offs.len(),
        offsets_ok(offs, total),
        forall|j: int| s <= j < e ==> !#[trigger] brk[j],
    ensures
        crate::rendering::sliced_total(runs_of(offs, brk, total, s, e)) == group_end_of(
            offs,
            total,
            e,
        ) - offs[s],
    decreases e - s,
{
    let p = runs_of(offs, brk, total, s, e - 1);
    let len = child_end_of(offs, total, e - 1) - offs[e - 1];
    if e - 1 > s {
        lemma_runs_total(offs, brk, total, s, e - 1);
    } else {
        assert(p =~= Seq::<(usize, usize)>::empty());
    }
    assert(!brk[e - 1]);
    assert(offs[e - 1] <= child_end_of(offs, total, e - 1));
    assert(child_end_of(offs, total, e - 1) == group_end_of(offs, total, e));
    if len > 0 {
        let q = p.push(((e - 1) as usize, len as usize));
        assert(q.drop_last() =~= p);
        assert(runs_of(offs, brk, total, s, e) == q);
        assert(crate::rendering::sliced_total(q) == crate::rendering::sliced_total(p) + len);
    } else {
        assert(runs_of(offs, brk, total, s, e) == p);
    }
}

/// Each group of children holds no line break, starts where its first child starts, ends
/// where the next child (or the text) starts, and its text runs add up to exactly its
/// bytes, as shaping the group's text with them needs.
pub proof fn law_group_runs_cover_group(offs: Seq<usize>, brk: Seq<bool>, total: int)
    requires
        0 <= total <= usize::MAX,
        offs.len() <= usize::MAX,
        brk.len() == offs.len(),
        offsets_ok(offs, total),
    ensures
        forall|k: int|
            0 <= k < groups_from(offs, brk, total, 0, None).len() ==> {
                let g = #[trigger] groups_from(offs, brk, total, 0, None)[k];
                &&& g.first_child < g.end_child <= offs.len()
                &&& forall|j: int| g.first_child <= j < g.end_child ==> !#[trigger] brk[j]
                &&& g.byte_start == offs[g.first_child as int]
                &&& g.byte_end == group_end_of(offs, total, g.end_child as int)
                &&& crate::rendering::sliced_total(
                    runs_of(offs, brk, total, g.first_child as int, g.end_child as int),
                ) == g.byte_end - g.byte_start
            },
{
    lemma_groups_from(offs, brk, total, 0, None);
    assert forall|k: int| 0 <= k < groups_from(offs, brk, total, 0, None).len() implies {
        let g = #[trigger] groups_from(offs, brk, total, 0, None)[k];
        crate::rendering::sliced_total(
            runs_of(offs, brk, total, g.first_child as int, g.end_child as int),
        ) == g.byte_end - g.byte_start
    } by {
        let g = groups_from(offs, brk, total, 0, None)[k];
        lemma_runs_total(offs, brk, total, g.first_child as int, g.end_child as int);
    }
}

/// One item of a laid-out layout, in order: a piece of a child's text that falls on one
/// visual line, or a break that starts a new line.
#[derive(Clone, Copy, Debug, PartialEq, Eq)]
pub enum LayoutPiece {
    /// Bytes `start..end` of child `child`, all on one visual line.
    Segment { child: usize, start: usize, end: usize },
    /// A break: a line-break child (starting at `byte_start`), or the move to the next
    /// visual line inside child `child`'s text (with `byte_start` 0).
    Break { child: usize, byte_start: usize, is_line_break_child: bool },
}

/// The pieces of a child's text `cs..ce` over the visual lines from `j` on: one segment per
/// visual line that the text overlaps, each after the first preceded by a break.
pub open spec fn child_segments(
    child: int,
    cs: int,
    ce: int,
    vlines: Seq<VisualLineInfo>,
    j: int,
    started: bool,
) -> Seq<LayoutPiece>
    decreases vlines.len() - j,
{
    if j >= vlines.len() {
        Seq::empty()
    } else {
        let a = if cs > vlines[j].start_offset { cs } else { vlines[j].start_offset as int };
        let b = if ce < vlines[j].end_offset { ce } else { vlines[j].end_offset as int };
        if a >= b {
            child_segments(child, cs, ce, vlines, j + 1, started)
        } else {
            let brk = if started {
                seq![
                    LayoutPiece::Break {
                        child: child as usize,
                        byte_start: 0,
                        is_line_break_child: false,
                    },
                ]
            } else {
                Seq::empty()
            };
            brk + seq![
                LayoutPiece::Segment { child: child as usize, start: a as usize, end: b as usize },
            ] + child_segments(child, cs, ce, vlines, j + 1, true)
        }
    }
}

/// The pieces of the children from `i` on: a line-break child is one break; any other
/// child gives its segments.
pub open spec fn pieces_from(
    offs: Seq<usize>,
    brk: Seq<bool>,
    total: int,
    vlines: Seq<VisualLineInfo>,
    i: int,
) -> Seq<LayoutPiece>
    decreases offs.len() - i,
{
    if i >= offs.len() {
        Seq::empty()
    } else if brk[i] {
        seq![
            LayoutPiece::Break {
                child: i as usize,
                byte_start: offs[i],
                is_line_break_child: true,
            },
        ] + pieces_from(offs, brk, total, vlines, i + 1)
    } else {
        child_segments(i, offs[i] as int, child_end_of(offs, total, i), vlines, 0, false)
            + pieces_from(offs, brk, total, vlines, i + 1)
    }
}

/// Appends the segments of child `child` (bytes `cs..ce`) over the visual lines.
fn push_child_segments(
    pieces: &mut Vec<LayoutPiece>,
    child: usize,
    cs: usize,
    ce: usize,
    visual_lines: &[VisualLineInfo],
)
    ensures
        final(pieces)@ == old(pieces)@ + child_segments(
            child as int,
            cs as int,
            ce as int,
            visual_lines@,
            0,
            false,
        ),
{
    let ghost vl = visual_lines@;
    let mut count: usize = 0;
    let mut j: usize = 0;
    while j < visual_lines.len()
        invariant
            vl == visual_lines@,
            j <= vl.len(),
            count == 0 || count == 1,
            pieces@ + child_segments(child as int, cs as int, ce as int, vl, j as int, count == 1)
                == old(pieces)@ + child_segments(child as int, cs as int, ce as int, vl, 0, false),
        decreases vl.len() - j,
    {
        let v = visual_lines[j];
        let a = if cs > v.start_offset {
            cs
        } else {
            v.start_offset
        };
        let b = if ce < v.end_offset {
            ce
        } else {
            v.end_offset
        };
        if a < b {
            let ghost before = pieces@;
            let ghost started = count == 1;
            if count > 0 {
                pieces.push(LayoutPiece::Break { child, byte_start: 0, is_line_break_child: false });
            }
            pieces.push(LayoutPiece::Segment { child, start: a, end: b });
            count = 1;
            proof {
                let brk = if started {
                    seq![
                        LayoutPiece::Break {
                            child: child as usize,
                            byte_start: 0,
                            is_line_break_child: false,
                        },
                    ]
                } else {
                    Seq::empty()
                };
                assert(pieces@ =~= before + brk + seq![
                    LayoutPiece::Segment { child: child as usize, start: a as usize, end: b as usize },
                ]);
                let rest = child_segments(child as int, cs as int, ce as int, vl, j + 1, true);
                assert(before + (brk + seq![
                    LayoutPiece::Segment { child: child as usize, start: a as usize, end: b as usize },
                ] + rest) =~= pieces@ + rest);
            }
        }
        j = j + 1;
    }
    proof {
        assert(pieces@ + Seq::<LayoutPiece>::empty() =~= pieces@);
    }
}

/// The pieces of a layout, in child order: each line-break child as a break, and every
/// other child's text cut at the visual lines it spans, with a break before each of its
/// segments after the first. `child_byte_offsets`, `is_line_break` and `total_text_len`
/// describe the children as for [`child_groups`].
pub fn layout_pieces(
    child_byte_offsets: &[usize],
    is_line_break: &[bool],
    total_text_len: usize,
    visual_lines: &[VisualLineInfo],
) -> (r: Vec<LayoutPiece>)
    requires
        is_line_break@.len() == child_byte_offsets@.len(),
    ensures
        r@ == pieces_from(
            child_byte_offsets@,
            is_line_break@,
            total_text_len as int,
            visual_lines@,
            0,
        ),
{
    let ghost offs = child_byte_offsets@;
    let ghost brk = is_line_break@;
    let ghost vl = visual_lines@;
    let ghost total = total_text_len as int;
    let n = child_byte_offsets.len();
    let mut r: Vec<LayoutPiece> = Vec::new();
    let mut i: usize = 0;
    while i < n
        invariant
            n == offs.len(),
            offs == child_byte_offsets@,
            brk == is_line_break@,
            brk.len() == n,
            vl == visual_lines@,
            total == total_text_len,
            i <= n,
            r@ + pieces_from(offs, brk, total, vl, i as int) == pieces_from(offs, brk, total, vl, 0),
        decreases n - i,
    {
        let ghost before = r@;
        let child_start = child_byte_offsets[i];
        if is_line_break[i] {
            r.push(LayoutPiece::Break { child: i, byte_start: child_start, is_line_break_child: true });
            proof {
                assert(before + (seq![
                    LayoutPiece::Break {
                        child: i as usize,
                        byte_start: offs[i as int],
                        is_line_break_child: true,
                    },
                ] + pieces_from(offs, brk, total, vl, i + 1)) =~= r@ + pieces_from(
                    offs,
                    brk,
                    total,
                    vl,
                    i + 1,
                ));
            }
        } else {
            let child_end = if i + 1 < n {
                child_byte_offsets[i + 1]
            } else {
                total_text_len
            };
            push_child_segments(&mut r, i, child_start, child_end, visual_lines);
            proof {
                let segs = child_segments(
                    i as int,
                    offs[i as int] as int,
                    child_end_of(offs, total, i as int),
                    vl,
                    0,
                    false,
                );
                assert(before + (segs + pieces_from(offs, brk, total, vl, i + 1)) =~= r@
                    + pieces_from(offs, brk, total, vl, i + 1));
            }
        }
        i = i + 1;
    }
    proof {
        assert(r@ + Seq::<LayoutPiece>::empty() =~= r@);
    }
    r
}

/// Whether a piece is a segment of child `c`'s text `cs..ce`, not empty.
pub open spec fn segment_within(p: LayoutPiece, c: int, cs: int, ce: int) -> bool {
    p matches LayoutPiece::Segment { child, start, end } ==> child == c && cs <= start < end <= ce
}

proof fn lemma_child_segments_within(
    child: int,
    cs: int,
    ce: int,
    vlines: Seq<VisualLineInfo>,
    j: int,
    started: bool,
)
    requires
        0 <= child <= usize::MAX,
        0 <= j,
    ensures
        forall|k: int|
            0 <= k < child_segments(child, cs, ce, vlines, j, started).len() ==> segment_within(
                #[trigger] child_segments(child, cs, ce, vlines, j, started)[k],
                child,
                cs,
                ce,
            ),
    decreases vlines.len() - j,
{
    if j < vlines.len() {
        lemma_child_segments_within(child, cs, ce, vlines, j + 1, started);
        lemma_child_segments_within(child, cs, ce, vlines, j + 1, true);
        let a = if cs > vlines[j].start_offset { cs } else { vlines[j].start_offset as int };
        let b = if ce < vlines[j].end_offset { ce } else { vlines[j].end_offset as int };
        if a < b {
            let brk = if started {
                seq![
                    LayoutPiece::Break {
                        child: child as usize,
                        byte_start: 0,
                        is_line_break_child: false,
                    },
                ]
            } else {
                Seq::<LayoutPiece>::empty()
            };
            let seg = seq![
                LayoutPiece::Segment { child: child as usize, start: a as usize, end: b as usize },
            ];
            let rest = child_segments(child, cs, ce, vlines, j + 1, true);
            let all = brk + seg + rest;
            assert(child_segments(child, cs, ce, vlines, j, started) == all);
            assert(0 <= a && b <= usize::MAX);
            assert forall|k: int| 0 <= k < all.len() implies segment_within(
                #[trigger] all[k],
                child,
                cs,
                ce,
            ) by {
                if k >= brk.len() + seg.len() {
                    assert(all[k] == rest[k - brk.len() - seg.len()]);
                }
            }
        } else {
            assert(child_segments(child, cs, ce, vlines, j, started) == child_segments(
                child,
                cs,
                ce,
                vlines,
                j + 1,
                started,
            ));
        }
    }
}

/// Every segment of a layout is a non-empty part of its own child's text.
pub proof fn law_segments_within_children(
    offs: Seq<usize>,
    brk: Seq<bool>,
    total: int,
    vlines: Seq<VisualLineInfo>,
    i: int,
)
    requires
        offs.len() <= usize::MAX,
        brk.len() == offs.len(),
        0 <= i,
    ensures
        forall|k: int|
            0 <= k < pieces_from(offs, brk, total, vlines, i).len() ==> {
                let p = #[trigger] pieces_from(offs, brk, total, vlines, i)[k];
                p matches LayoutPiece::Segment { child, start, end } ==> {
                    &&& child < offs.len()
                    &&& offs[child as int] <= start < end <= child_end_of(offs, total, child as int)
                }
            },
    decreases offs.len() - i,
{
    if i < offs.len() {
        law_segments_within_children(offs, brk, total, vlines, i + 1);
        let rest = pieces_from(offs, brk, total, vlines, i + 1);
        let head = if brk[i] {
            seq![
                LayoutPiece::Break {
                    child: i as usize,
                    byte_start: offs[i],
                    is_line_break_child: true,
                },
            ]
        } else {
            child_segments(i, offs[i] as int, child_end_of(offs, total, i), vlines, 0, false)
        };
        lemma_child_segments_within(i, offs[i] as int, child_end_of(offs, total, i), vlines, 0, false);
        let all = head + rest;
        assert(pieces_from(offs, brk, total, vlines, i) == all);
        assert forall|k: int| 0 <= k < all.len() implies {
            let p = #[trigger] all[k];
            p matches LayoutPiece::Segment { child, start, end } ==> {
                &&& child < offs.len()
                &&& offs[child as int] <= start < end <= child_end_of(offs, total, child as int)
            }
        } by {
            if k >= head.len() {
                assert(all[k] == rest[k - head.len()]);
            } else {
                assert(all[k] == head[k]);
                if !brk[i] {
                    assert(segment_within(head[k], i, offs[i] as int, child_end_of(offs, total, i)));
                }
            }
        }
    }
}

/// Index of the first line-break child at or after child `i` (the number of children when
/// there is none).
pub open spec fn next_break(brk: Seq<bool>, i: int) -> int {
    crate::text::first_where(brk.len() as int, i, |j: int| brk[j])
}

/// Whether child `c` has text (its bytes are not empty).
pub open spec fn has_text(offs: Seq<usize>, total: int, c: int) -> bool {
    child_end_of(offs, total, c) > offs[c]
}

/// Between any two consecutive groups of `gs` lies a line-break child.
pub open spec fn breaks_separate(gs: Seq<ChildGroup>, brk: Seq<bool>) -> bool {
    forall|k: int|
        #![trigger gs[k]]
        0 <= k < gs.len() - 1 ==> exists|j: int|
            gs[k].end_child <= j < gs[k + 1].first_child && #[trigger] brk[j]
}

/// Every child from `i` on that has text and is no line break lies in a group of `gs`.
pub open spec fn text_children_covered(
    gs: Seq<ChildGroup>,
    offs: Seq<usize>,
    brk: Seq<bool>,
    total: int,
    i: int,
) -> bool {
    forall|c: int|
        i <= c < offs.len() && !brk[c] && #[trigger] has_text(offs, total, c) ==> exists|k: int|
            0 <= k < gs.len() && #[trigger] gs[k].first_child <= c < gs[k].end_child
}

proof fn lemma_next_break_step(brk: Seq<bool>, i: int)
    requires
        0 <= i < brk.len(),
    ensures
        brk[i] ==> next_break(brk, i) == i,
        !brk[i] ==> next_break(brk, i) == next_break(brk, i + 1),
{
}

proof fn lemma_child_end_mono(offs: Seq<usize>, total: int, c: int, e: int)
    requires
        offsets_ok(offs, total),
        0 <= c < e <= offs.len(),
    ensures
        child_end_of(offs, total, c) <= group_end_of(offs, total, e),
{
}

/// The groups of the children from `i` on are maximal: between two consecutive groups
/// lies a line-break child, every child from `i` on that has text and is no line break lies
/// in a group, no group starts before `i` but the pending one, and the pending group (if
/// any) runs from its start up to the next line break.
#[verifier::rlimit(60)]
proof fn lemma_groups_maximal(
    offs: Seq<usize>,
    brk: Seq<bool>,
    total: int,
    i: int,
    pending: Option<int>,
)
    requires
        0 <= i <= offs.len() <= usize::MAX,
        0 <= total <= usize::MAX,
        brk.len() == offs.len(),
        offsets_ok(offs, total),
        pending matches Some(s) ==> 0 <= s < i && has_text(offs, total, s) && forall|j: int|
            s <= j < i ==> !#[trigger] brk[j],
    ensures
        ({
            let gs = groups_from(offs, brk, total, i, pending);
            &&& breaks_separate(gs, brk)
            &&& text_children_covered(gs, offs, brk, total, i)
            &&& forall|k: int|
                0 <= k < gs.len() && (pending is None || k > 0) ==> gs[k].first_child >= i
            &&& pending matches Some(s) ==> gs.len() > 0 && gs[0].first_child == s
                && gs[0].end_child == next_break(brk, i)
        }),
    decreases offs.len() - i,
{
    let n = offs.len() as int;
    let gs = groups_from(offs, brk, total, i, pending);
    if i >= n {
        if pending is Some {
            let s = pending->0;
            lemma_child_end_mono(offs, total, s, n);
        }
    } else if brk[i] {
        lemma_groups_maximal(offs, brk, total, i + 1, None);
        lemma_groups_from(offs, brk, total, i + 1, None);
        let f = flushed(offs, total, pending, i);
        let rest = groups_from(offs, brk, total, i + 1, None);
        assert(gs == f + rest);
        lemma_next_break_step(brk, i);
        if pending is Some {
            let s = pending->0;
            lemma_child_end_mono(offs, total, s, i);
            assert(f.len() == 1);
        }
        assert forall|k: int| #![trigger gs[k]] 0 <= k < gs.len() - 1 implies exists|j: int|
            gs[k].end_child <= j < gs[k + 1].first_child && #[trigger] brk[j] by {
            if k >= f.len() {
                assert(gs[k] == rest[k - f.len()]);
                assert(gs[k + 1] == rest[k + 1 - f.len()]);
            } else {
                assert(gs[k + 1] == rest[0]);
                assert(gs[k].end_child == i);
                assert(brk[i]);
            }
        }
        assert forall|c: int|
            i <= c < offs.len() && !brk[c] && #[trigger] has_text(offs, total, c) implies exists|
            k: int,
        |
            0 <= k < gs.len() && #[trigger] gs[k].first_child <= c < gs[k].end_child by {
            let k2 = choose|k2: int|
                0 <= k2 < rest.len() && #[trigger] rest[k2].first_child <= c < rest[k2].end_child;
            assert(gs[k2 + f.len()] == rest[k2]);
        }
        assert forall|k: int|
            0 <= k < gs.len() && (pending is None || k > 0) implies gs[k].first_child >= i by {
            if k >= f.len() {
                assert(gs[k] == rest[k - f.len()]);
            }
        }
    } else if child_end_of(offs, total, i) <= offs[i] {
        lemma_groups_maximal(offs, brk, total, i + 1, pending);
        lemma_next_break_step(brk, i);
        assert(gs == groups_from(offs, brk, total, i + 1, pending));
    } else {
        let np = if pending is None {
            Some(i)
        } else {
            pending
        };
        lemma_groups_maximal(offs, brk, total, i + 1, np);
        lemma_next_break_step(brk, i);
        assert(gs == groups_from(offs, brk, total, i + 1, np));
        let nb = next_break(brk, i + 1);
        crate::text::lemma_first_where(n, i + 1, |j: int| brk[j]);
        assert forall|c: int|
            i <= c < offs.len() && !brk[c] && #[trigger] has_text(offs, total, c) implies exists|
            k: int,
        |
            0 <= k < gs.len() && #[trigger] gs[k].first_child <= c < gs[k].end_child by {
            if c == i {
                assert(gs[0].first_child <= c < gs[0].end_child);
            }
        }
    }
}

/// The groups are maximal runs of children between line breaks: two consecutive groups are
/// always separated by a line-break child, and every child that has text and is no line
/// break lies in a group. So an empty child never splits a group.
pub proof fn law_groups_are_maximal(offs: Seq<usize>, brk: Seq<bool>, total: int)
    requires
        offs.len() <= usize::MAX,
        0 <= total <= usize::MAX,
        brk.len() == offs.len(),
        offsets_ok(offs, total),
    ensures
        breaks_separate(groups_from(offs, brk, total, 0, None), brk),
        text_children_covered(groups_from(offs, brk, total, 0, None), offs, brk, total, 0),
{
    lemma_groups_maximal(offs, brk, total, 0, None);
}

} // verus!
