//! Grapheme-cluster and word boundaries, in byte offsets.
use unicode_segmentation::UnicodeSegmentation;
use vstd::prelude::*;

use crate::navigation::{is_word_char, is_word_char_spec};
use crate::text::{
    byte_len, byte_offset, byte_offsets, char_index_for_byte, chars_before_byte, chars_of,
    first_where, is_char_boundary_of, lemma_chars_before_boundary, lemma_first_where,
    lemma_first_where_unique, lemma_offset_full, lemma_offset_le_len, lemma_offset_suffix,
    str_byte_len,
};
use vstd::string::StrSliceExecFns;

verus! {

/// Byte offsets at which the extended grapheme clusters of `s` start, as
/// `unicode_segmentation` segments it.
pub uninterp spec fn grapheme_starts_of(s: Seq<char>) -> Seq<usize>;

/// What holds of the grapheme starts of any text: there are none for an empty text,
/// the first is 0, they increase strictly, and each is the boundary of a char inside the text.
pub open spec fn grapheme_starts_valid(s: Seq<char>, g: Seq<usize>) -> bool {
    &&& (g.len() == 0 <==> s.len() == 0)
    &&& g.len() > 0 ==> g[0] == 0
    &&& forall|i: int, j: int| 0 <= i < j < g.len() ==> g[i] < g[j]
    &&& forall|i: int|
        0 <= i < g.len() ==> #[trigger] g[i] < byte_len(s) && is_char_boundary_of(s, g[i] as int)
}

/// Calls `UnicodeSegmentation::grapheme_indices(text, true)` and keeps the byte offset
/// of each cluster. The clusters tile the text in order, so their offsets start at 0,
/// increase, and fall on char boundaries inside the text; which offsets they are
/// follows the Unicode segmentation rules and is only named.
#[verifier::external_body]
fn grapheme_starts(text: &str) -> (g: Vec<usize>)
    ensures
        g@ == grapheme_starts_of(text@),
        grapheme_starts_valid(text@, g@),
{
    text.grapheme_indices(true).map(|(i, _)| i).collect()
}

/// Number of grapheme starts below byte offset `o`.
pub open spec fn starts_below(g: Seq<usize>, o: int) -> int {
    first_where(g.len() as int, 0, |i: int| g[i] >= o)
}

/// Start of the last grapheme that begins before `o`, or 0.
pub open spec fn previous_boundary_of(s: Seq<char>, o: int) -> int {
    let g = grapheme_starts_of(s);
    let k = starts_below(g, o);
    if k == 0 {
        0
    } else {
        g[k - 1] as int
    }
}

/// Start of the first grapheme that begins after `o`, or the byte length of the text.
pub open spec fn next_boundary_of(s: Seq<char>, o: int) -> int {
    let g = grapheme_starts_of(s);
    let k = first_where(g.len() as int, 0, |i: int| g[i] > o);
    if k < g.len() {
        g[k] as int
    } else {
        byte_len(s) as int
    }
}

/// Whether grapheme `k` (starting at `g[k]`) begins with a word char.
pub open spec fn grapheme_is_word(s: Seq<char>, g: Seq<usize>, k: int) -> bool {
    is_word_char_spec(s[chars_before_byte(s, g[k] as int)])
}

/// Start of the run of word graphemes that ends with grapheme `k`: the end of the
/// nearest non-word grapheme before `k`, or 0.
pub open spec fn word_run_start(s: Seq<char>, g: Seq<usize>, k: int) -> int
    decreases k,
{
    if k <= 0 {
        0
    } else if !grapheme_is_word(s, g, k - 1) {
        g[k] as int
    } else {
        word_run_start(s, g, k - 1)
    }
}

/// Where the word before `o` starts: looking at the graphemes that begin before `o`,
/// a non-word last grapheme is a word of its own, else the run of word graphemes is taken.
pub open spec fn word_start_of(s: Seq<char>, o: int) -> int {
    let g = grapheme_starts_of(s);
    let m = starts_below(g, o);
    if m == 0 {
        0
    } else if !grapheme_is_word(s, g, m - 1) {
        g[m - 1] as int
    } else {
        word_run_start(s, g, m - 1)
    }
}

/// Where the word at `o` ends: the graphemes of the text from `o` on are scanned; a
/// non-word first grapheme is a word of its own, else the run of word graphemes is taken.
pub open spec fn word_end_of(s: Seq<char>, o: int) -> int {
    if s.len() == 0 || o >= byte_len(s) {
        byte_len(s) as int
    } else {
        let u = s.skip(chars_before_byte(s, o));
        let g = grapheme_starts_of(u);
        if !grapheme_is_word(u, g, 0) {
            o + if g.len() > 1 {
                g[1] as int
            } else {
                byte_len(u) as int
            }
        } else {
            let k = first_where(g.len() as int, 1, |j: int| !grapheme_is_word(u, g, j));
            if k < g.len() {
                o + g[k]
            } else {
                byte_len(s) as int
            }
        }
    }
}

/// A boundary inside the text is the start of a char of the text.
pub proof fn lemma_boundary_index(s: Seq<char>, b: int)
    requires
        is_char_boundary_of(s, b),
    ensures
        0 <= chars_before_byte(s, b) <= s.len(),
        byte_offset(s, chars_before_byte(s, b)) == b,
        b < byte_len(s) ==> chars_before_byte(s, b) < s.len(),
{
    let i = choose|i: int| 0 <= i <= s.len() && byte_offset(s, i) == b;
    lemma_chars_before_boundary(s, i);
    lemma_offset_full(s);
}

/// The first char of the grapheme that starts at `g[k]`.
fn first_char_at(chars: &Vec<char>, offsets: &Vec<usize>, b: usize, Ghost(s): Ghost<Seq<char>>) -> (c: char)
    requires
        chars@ == s,
        offsets@.len() == s.len() + 1,
        forall|i: int| 0 <= i <= s.len() ==> offsets@[i] == byte_offset(s, i),
        is_char_boundary_of(s, b as int),
        b < byte_len(s),
    ensures
        c == s[chars_before_byte(s, b as int)],
{
    let k = char_index_for_byte(offsets, b, Ghost(s));
    proof {
        lemma_boundary_index(s, b as int);
    }
    chars[k]
}

/// Byte offset of the grapheme boundary before `offset` (0 when there is none).
pub fn previous_boundary(text: &str, offset: usize) -> (r: usize)
    ensures
        r == previous_boundary_of(text@, offset as int),
        grapheme_starts_valid(text@, grapheme_starts_of(text@)),
        is_char_boundary_of(text@, r as int),
{
    let g = grapheme_starts(text);
    let ghost p = |i: int| g@[i] >= offset;
    let mut k: usize = 0;
    while k < g.len() && g[k] < offset
        invariant
            k <= g@.len(),
            p == (|i: int| g@[i] >= offset),
            forall|j: int| 0 <= j < k ==> !#[trigger] p(j),
        decreases g@.len() - k,
    {
        assert(!p(k as int));
        k = k + 1;
    }
    proof {
        lemma_first_where_unique(g@.len() as int, 0, p, k as int);
        lemma_zero_boundary(text@);
    }
    if k == 0 {
        0
    } else {
        assert(g@[k - 1] < byte_len(text@));
        g[k - 1]
    }
}

/// Byte offset of the grapheme boundary after `offset` (the text's length when there is none).
pub fn next_boundary(text: &str, offset: usize) -> (r: usize)
    ensures
        r == next_boundary_of(text@, offset as int),
        grapheme_starts_valid(text@, grapheme_starts_of(text@)),
        is_char_boundary_of(text@, r as int),
{
    let g = grapheme_starts(text);
    let ghost p = |i: int| g@[i] > offset;
    let mut k: usize = 0;
    while k < g.len() && g[k] <= offset
        invariant
            k <= g@.len(),
            p == (|i: int| g@[i] > offset),
            forall|j: int| 0 <= j < k ==> !#[trigger] p(j),
        decreases g@.len() - k,
    {
        assert(!p(k as int));
        k = k + 1;
    }
    proof {
        lemma_first_where_unique(g@.len() as int, 0, p, k as int);
        lemma_offset_full(text@);
    }
    if k < g.len() {
        assert(g@[k as int] < byte_len(text@));
        g[k]
    } else {
        str_byte_len(text)
    }
}

/// Byte offset where the word before `offset` starts.
pub fn word_start(text: &str, offset: usize) -> (r: usize)
    ensures
        r == word_start_of(text@, offset as int),
        grapheme_starts_valid(text@, grapheme_starts_of(text@)),
{
    let ghost s = text@;
    let g = grapheme_starts(text);
    let chars = chars_of(text);
    let offsets = byte_offsets(text);
    let ghost p = |i: int| g@[i] >= offset;
    let mut m: usize = 0;
    while m < g.len() && g[m] < offset
        invariant
            m <= g@.len(),
            p == (|i: int| g@[i] >= offset),
            forall|j: int| 0 <= j < m ==> !#[trigger] p(j),
        decreases g@.len() - m,
    {
        assert(!p(m as int));
        m = m + 1;
    }
    proof {
        lemma_first_where_unique(g@.len() as int, 0, p, m as int);
    }
    if m == 0 {
        return 0;
    }
    let last = first_char_at(&chars, &offsets, g[m - 1], Ghost(s));
    if !is_word_char(last) {
        return g[m - 1];
    }
    let mut k: usize = m - 1;
    while k > 0
        invariant
            k < m <= g@.len(),
            chars@ == s,
            offsets@.len() == s.len() + 1,
            forall|i: int| 0 <= i <= s.len() ==> offsets@[i] == byte_offset(s, i),
            g@ == grapheme_starts_of(s),
            grapheme_starts_valid(s, g@),
            word_run_start(s, g@, k as int) == word_run_start(s, g@, m - 1),
            s == text@,
            m == starts_below(g@, offset as int),
            grapheme_is_word(s, g@, m - 1),
        decreases k,
    {
        let c = first_char_at(&chars, &offsets, g[k - 1], Ghost(s));
        if !is_word_char(c) {
            return g[k];
        }
        k = k - 1;
    }
    0
}

/// Byte offset where the word at `offset` ends; `offset` must fall on a char boundary
/// when it lies inside the text.
pub fn word_end(text: &str, offset: usize) -> (r: usize)
    requires
        offset < byte_len(text@) ==> is_char_boundary_of(text@, offset as int),
    ensures
        r == word_end_of(text@, offset as int),
        offset < byte_len(text@) ==> offset < r <= byte_len(text@),
        offset >= byte_len(text@) ==> r == byte_len(text@),
        is_char_boundary_of(text@, r as int),
        ({
            let u = text@.skip(chars_before_byte(text@, offset as int));
            let g = grapheme_starts_of(u);
            offset < byte_len(text@) && grapheme_is_word(u, g, 0) ==> {
                &&& forall|j: int|
                    0 <= j < g.len() && offset + g[j] < r ==> grapheme_is_word(u, g, j)
                &&& r == byte_len(text@) || exists|j: int|
                    0 <= j < g.len() && offset + g[j] == r && !grapheme_is_word(u, g, j)
            }
        }),
{
    let ghost s = text@;
    let len = str_byte_len(text);
    let chars = chars_of(text);
    proof {
        lemma_offset_full(s);
    }
    if chars.len() == 0 || offset >= len {
        return len;
    }
    let offsets = byte_offsets(text);
    let i = char_index_for_byte(&offsets, offset, Ghost(s));
    proof {
        lemma_boundary_index(s, offset as int);
    }
    let rest = text.substring_char(i, chars.len());
    let ghost u = rest@;
    assert(u =~= s.skip(i as int));
    let g = grapheme_starts(rest);
    proof {
        if grapheme_is_word(u, g@, 0) {
            law_word_end_stops_at_non_word(s, offset as int);
        }
    }
    let rchars = chars_of(rest);
    let roffsets = byte_offsets(rest);
    proof {
        lemma_offset_suffix(s, i as int, (s.len() - i) as int);
        lemma_offset_full(s);
        lemma_offset_full(u);
        assert(s.take(s.len() as int) =~= s);
    }
    // byte_len(s) == offset + byte_len(u)
    assert(g@.len() > 0);
    assert(byte_len(s) == offset + byte_len(u));
    let first = first_char_at(&rchars, &roffsets, g[0], Ghost(u));
    if !is_word_char(first) {
        if g.len() > 1 {
            proof {
                lemma_suffix_boundary(s, i as int, g@[1] as int);
            }
            return offset + g[1];
        } else {
            let ulen = str_byte_len(rest);
            proof {
                lemma_suffix_boundary(s, i as int, ulen as int);
            }
            return offset + ulen;
        }
    }
    let ghost q = |j: int| !grapheme_is_word(u, g@, j);
    let mut k: usize = 1;
    while k < g.len()
        invariant
            1 <= k <= g@.len(),
            rchars@ == u,
            roffsets@.len() == u.len() + 1,
            forall|j: int| 0 <= j <= u.len() ==> roffsets@[j] == byte_offset(u, j),
            g@ == grapheme_starts_of(u),
            grapheme_starts_valid(u, g@),
            q == (|j: int| !grapheme_is_word(u, g@, j)),
            forall|j: int| 1 <= j < k ==> !#[trigger] q(j),
            byte_len(s) == offset + byte_len(u),
            len == byte_len(s),
            s == text@,
            s.len() > 0,
            offset < byte_len(s),
            u == s.skip(chars_before_byte(s, offset as int)),
            i == chars_before_byte(s, offset as int),
            i <= s.len(),
            is_char_boundary_of(s, offset as int),
            byte_offset(s, i as int) == offset,
            grapheme_is_word(u, g@, 0),
        decreases g@.len() - k,
    {
        let c = first_char_at(&rchars, &roffsets, g[k], Ghost(u));
        if !is_word_char(c) {
            proof {
                lemma_first_where_unique(g@.len() as int, 1, q, k as int);
                lemma_suffix_boundary(s, i as int, g@[k as int] as int);
                law_word_end_stops_at_non_word(s, offset as int);
            }
            return offset + g[k];
        }
        assert(!q(k as int));
        k = k + 1;
    }
    proof {
        lemma_first_where_unique(g@.len() as int, 1, q, k as int);
        lemma_offset_full(s);
        law_word_end_stops_at_non_word(s, offset as int);
    }
    len
}

/// A boundary of a suffix of the text, shifted by where the suffix starts, is a boundary
/// of the text.
proof fn lemma_suffix_boundary(s: Seq<char>, i: int, b: int)
    requires
        0 <= i <= s.len(),
        is_char_boundary_of(s.skip(i), b),
    ensures
        is_char_boundary_of(s, byte_offset(s, i) + b),
{
    let u = s.skip(i);
    let j = choose|j: int| 0 <= j <= u.len() && byte_offset(u, j) == b;
    lemma_offset_suffix(s, i, j);
}

/// 0 is a char boundary of every text.
pub proof fn lemma_zero_boundary(s: Seq<char>)
    ensures
        is_char_boundary_of(s, 0),
{
    crate::text::lemma_offset_zero(s);
    assert(byte_offset(s, 0) == 0);
}

proof fn lemma_word_run_start_boundary(s: Seq<char>, g: Seq<usize>, k: int)
    requires
        grapheme_starts_valid(s, g),
        0 <= k < g.len(),
    ensures
        is_char_boundary_of(s, word_run_start(s, g, k)),
    decreases k,
{
    lemma_zero_boundary(s);
    if k > 0 {
        assert(g[k] < byte_len(s));
        lemma_word_run_start_boundary(s, g, k - 1);
    }
}

/// Where a word starts is a char boundary.
pub proof fn lemma_word_start_boundary(s: Seq<char>, o: int)
    requires
        grapheme_starts_valid(s, grapheme_starts_of(s)),
    ensures
        is_char_boundary_of(s, word_start_of(s, o)),
        0 <= word_start_of(s, o) <= byte_len(s),
{
    let g = grapheme_starts_of(s);
    let m = starts_below(g, o);
    lemma_first_where(g.len() as int, 0, |i: int| g[i] >= o);
    lemma_zero_boundary(s);
    if m > 0 {
        assert(g[m - 1] < byte_len(s));
        lemma_word_run_start_boundary(s, g, m - 1);
    }
    let w = word_start_of(s, o);
    let i = choose|i: int| 0 <= i <= s.len() && byte_offset(s, i) == w;
    lemma_offset_le_len(s, i);
}

proof fn lemma_word_run_start_le(s: Seq<char>, g: Seq<usize>, k: int)
    requires
        grapheme_starts_valid(s, g),
        0 <= k < g.len(),
    ensures
        0 <= word_run_start(s, g, k) <= g[k],
    decreases k,
{
    if k > 0 && grapheme_is_word(s, g, k - 1) {
        lemma_word_run_start_le(s, g, k - 1);
    }
}

/// Moving left by a grapheme or to a word start never moves right, and moving right by a
/// grapheme moves right inside the text and stays at its end past it. (The grapheme
/// starts that segmentation gives are valid for every text.)
pub proof fn law_boundaries_around_offset(s: Seq<char>, o: int)
    requires
        grapheme_starts_valid(s, grapheme_starts_of(s)),
        0 <= o,
    ensures
        0 <= previous_boundary_of(s, o) <= o,
        o > 0 ==> previous_boundary_of(s, o) < o,
        o < byte_len(s) ==> o < next_boundary_of(s, o) <= byte_len(s),
        o >= byte_len(s) ==> next_boundary_of(s, o) == byte_len(s),
        0 <= word_start_of(s, o) <= o,
{
    let g = grapheme_starts_of(s);
    let m = starts_below(g, o);
    let q = |i: int| g[i] >= o;
    lemma_first_where(g.len() as int, 0, q);
    let p = |i: int| g[i] > o;
    lemma_first_where(g.len() as int, 0, p);
    if m > 0 {
        assert(!q(m - 1));
        lemma_word_run_start_le(s, g, m - 1);
    }
    let k = first_where(g.len() as int, 0, p);
    if k < g.len() {
        assert(g[k] < byte_len(s));
    }
}

/// From a word char, the word end is where the word stops: with `u` the text from the
/// offset on and `g` the starts of its graphemes, when the grapheme at the offset begins
/// with a word char, every grapheme that starts before the word end begins with a word
/// char, and the word end is the end of the text or the start of a grapheme that does not.
/// (The grapheme starts that segmentation gives are valid for every text.)
pub proof fn law_word_end_stops_at_non_word(s: Seq<char>, o: int)
    requires
        is_char_boundary_of(s, o),
        o < byte_len(s),
        grapheme_starts_valid(
            s.skip(chars_before_byte(s, o)),
            grapheme_starts_of(s.skip(chars_before_byte(s, o))),
        ),
        ({
            let u = s.skip(chars_before_byte(s, o));
            grapheme_is_word(u, grapheme_starts_of(u), 0)
        }),
    ensures
        ({
            let u = s.skip(chars_before_byte(s, o));
            let g = grapheme_starts_of(u);
            let r = word_end_of(s, o);
            &&& o < r <= byte_len(s)
            &&& forall|j: int| 0 <= j < g.len() && o + g[j] < r ==> grapheme_is_word(u, g, j)
            &&& r == byte_len(s) || exists|j: int|
                0 <= j < g.len() && o + g[j] == r && !grapheme_is_word(u, g, j)
        }),
{
    let i = chars_before_byte(s, o);
    lemma_boundary_index(s, o);
    let u = s.skip(i);
    let g = grapheme_starts_of(u);
    lemma_offset_suffix(s, i, (s.len() - i) as int);
    lemma_offset_full(s);
    lemma_offset_full(u);
    assert(s.take(s.len() as int) =~= s);
    assert(byte_len(s) == o + byte_len(u));
    crate::text::lemma_byte_len_zero_iff(u);
    let q = |j: int| !grapheme_is_word(u, g, j);
    lemma_first_where(g.len() as int, 1, q);
    let k = first_where(g.len() as int, 1, q);
    assert forall|j: int| 0 <= j < g.len() && o + g[j] < word_end_of(s, o) implies grapheme_is_word(
        u,
        g,
        j,
    ) by {
        if j >= k && k < g.len() {
            if j > k {
                assert(g[k] < g[j]);
            }
        }
        if j >= 1 && j < k {
            assert(!q(j));
        }
    }
    if k < g.len() {
        assert(q(k));
        assert(g[0] < g[k]);
    } else {
        assert(g[0] < byte_len(u));
    }
}

} // verus!
