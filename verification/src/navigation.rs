//! Line, column, word and grapheme navigation over a text, in byte offsets.
use vstd::prelude::*;

use crate::text::{
    char_index_for_byte, is_char_boundary_of, byte_len, byte_offset, byte_offsets, chars_before_byte, chars_of, first_where,
    lemma_first_where, lemma_first_where_unique, lemma_offset_full, lemma_offset_le_len,
    lemma_offset_mono, lemma_offset_step, lemma_offset_zero,
};

verus! {

/// Number of `'\n'` chars in `s`.
pub open spec fn count_newlines(s: Seq<char>) -> nat
    decreases s.len(),
{
    if s.len() == 0 {
        0
    } else {
        count_newlines(s.drop_last()) + if s.last() == '\n' {
            1nat
        } else {
            0nat
        }
    }
}

/// Number of lines of `s`: one more than the number of newlines.
pub open spec fn line_count_of(s: Seq<char>) -> nat {
    count_newlines(s) + 1
}

/// Index of the first newline at or after char index `i`, or `s.len()` when there is none.
pub open spec fn next_newline(s: Seq<char>, i: int) -> int {
    first_where(s.len() as int, i, |j: int| s[j] == '\n')
}

/// Char index at which line `line` starts: just after the newline that ends the line
/// before it, or the end of the text when the text has fewer lines.
pub open spec fn line_start_index(s: Seq<char>, line: nat) -> int
    decreases line,
{
    if line == 0 {
        0
    } else {
        let e = next_newline(s, line_start_index(s, (line - 1) as nat));
        if e >= s.len() {
            s.len() as int
        } else {
            e + 1
        }
    }
}

/// Char index at which line `line` ends (its newline, or the end of the text).
pub open spec fn line_end_index(s: Seq<char>, line: nat) -> int {
    next_newline(s, line_start_index(s, line))
}

/// The line that byte offset `b` falls on: the number of newlines among the chars that start before `b`.
pub open spec fn line_of_offset(s: Seq<char>, b: int) -> nat {
    count_newlines(s.take(chars_before_byte(s, b)))
}

/// The column of byte offset `b`: its distance in bytes from the start of its line.
pub open spec fn column_of_offset(s: Seq<char>, b: int) -> int {
    b - byte_offset(s, line_start_index(s, line_of_offset(s, b)))
}

/// The offset that a (line, column) pair names: the column is clamped to the line's length.
pub open spec fn offset_of_line_col(s: Seq<char>, line: nat, col: int) -> int {
    let start = byte_offset(s, line_start_index(s, line)) as int;
    let end = byte_offset(s, line_end_index(s, line)) as int;
    if col < end - start {
        start + col
    } else {
        end
    }
}

pub proof fn lemma_count_newlines_step(s: Seq<char>, k: int)
    requires
        0 <= k < s.len(),
    ensures
        count_newlines(s.take(k + 1)) == count_newlines(s.take(k)) + if s[k] == '\n' {
            1int
        } else {
            0int
        },
{
    assert(s.take(k + 1).drop_last() =~= s.take(k));
}

pub proof fn lemma_count_newlines_bound(s: Seq<char>)
    ensures
        count_newlines(s) <= s.len(),
    decreases s.len(),
{
    if s.len() > 0 {
        lemma_count_newlines_bound(s.drop_last());
    }
}

pub proof fn lemma_count_newlines_full(s: Seq<char>)
    ensures
        count_newlines(s.take(s.len() as int)) == count_newlines(s),
{
    assert(s.take(s.len() as int) =~= s);
}

pub proof fn lemma_next_newline(s: Seq<char>, i: int)
    requires
        0 <= i <= s.len(),
    ensures
        i <= next_newline(s, i) <= s.len(),
        next_newline(s, i) < s.len() ==> s[next_newline(s, i)] == '\n',
        forall|j: int| i <= j < next_newline(s, i) ==> s[j] != '\n',
{
    let p = |j: int| s[j] == '\n';
    lemma_first_where(s.len() as int, i, p);
    assert forall|j: int| i <= j < next_newline(s, i) implies s[j] != '\n' by {
        assert(!p(j));
    }
}

pub proof fn lemma_next_newline_at(s: Seq<char>, i: int, k: int)
    requires
        0 <= i <= k <= s.len(),
        k < s.len() ==> s[k] == '\n',
        forall|j: int| i <= j < k ==> s[j] != '\n',
    ensures
        next_newline(s, i) == k,
{
    let p = |j: int| s[j] == '\n';
    assert forall|j: int| i <= j < k implies !#[trigger] p(j) by {}
    lemma_first_where_unique(s.len() as int, i, p, k);
}

pub proof fn lemma_line_start_bound(s: Seq<char>, line: nat)
    ensures
        0 <= line_start_index(s, line) <= s.len(),
        0 <= line_start_index(s, line) <= line_end_index(s, line) <= s.len(),
    decreases line,
{
    if line > 0 {
        lemma_line_start_bound(s, (line - 1) as nat);
        lemma_next_newline(s, line_start_index(s, (line - 1) as nat));
    }
    lemma_next_newline(s, line_start_index(s, line));
}

/// The line of the first `k` chars starts at or before `k`, right after a newline (or at 0),
/// and holds no newline up to `k`.
pub proof fn lemma_line_of_prefix(s: Seq<char>, k: int)
    requires
        0 <= k <= s.len(),
    ensures
        ({
            let ls = line_start_index(s, count_newlines(s.take(k)));
            &&& 0 <= ls <= k
            &&& ls == 0 || s[ls - 1] == '\n'
            &&& forall|j: int| ls <= j < k ==> s[j] != '\n'
        }),
    decreases k,
{
    if k == 0 {
        assert(s.take(0) =~= Seq::<char>::empty());
    } else {
        lemma_line_of_prefix(s, k - 1);
        lemma_count_newlines_step(s, k - 1);
        let l = count_newlines(s.take(k - 1));
        let ls = line_start_index(s, l);
        if s[k - 1] == '\n' {
            lemma_next_newline_at(s, ls, k - 1);
            assert(line_start_index(s, l + 1) == k);
        }
    }
}

/// Byte offsets lie at or after the start of their line, and at or before its end.
pub proof fn lemma_offset_in_line(s: Seq<char>, b: int)
    requires
        0 <= b <= byte_len(s),
    ensures
        0 <= column_of_offset(s, b),
        b <= byte_offset(s, line_end_index(s, line_of_offset(s, b))),
{
    let n = s.len() as int;
    let k = chars_before_byte(s, b);
    let p = |i: int| byte_offset(s, i) >= b;
    lemma_first_where(n, 0, p);
    lemma_line_of_prefix(s, k);
    let l = count_newlines(s.take(k));
    let ls = line_start_index(s, l);
    lemma_line_start_bound(s, l);
    lemma_next_newline(s, ls);
    let le = next_newline(s, ls);
    // The line's end is at or after char k.
    if le < k {
        assert(s[le] == '\n');
    }
    // b lies at or before the boundary of char k.
    if k < n {
        assert(p(k));
        lemma_offset_mono(s, k, le);
    } else {
        lemma_offset_full(s);
    }
    // The start of the line lies at or before b.
    if ls < k {
        assert(!p(k - 1));
        lemma_offset_mono(s, ls, k - 1);
    } else if ls > 0 {
        assert(!p(k - 1));
        assert(s[k - 1] == '\n');
        lemma_offset_step(s, k - 1);
    } else {
        lemma_offset_zero(s);
    }
}

/// Word chars: alphanumeric chars and `'_'`.
pub open spec fn is_word_char_spec(c: char) -> bool {
    char_is_alphanumeric(c) || c == '_'
}

/// What `char::is_alphanumeric` answers for `c` (Unicode Alphabetic or Numeric).
pub uninterp spec fn char_is_alphanumeric(c: char) -> bool;

/// Whether `c` has the Unicode White_Space property, as `char::is_whitespace` answers:
/// U+0009 to U+000D, the space, U+0085, U+00A0, U+1680, U+2000 to U+200A, U+2028,
/// U+2029, U+202F, U+205F and U+3000.
pub open spec fn char_is_whitespace(c: char) -> bool {
    let u = c as u32;
    ||| 0x9 <= u <= 0xD
    ||| u == 0x20
    ||| u == 0x85
    ||| u == 0xA0
    ||| u == 0x1680
    ||| 0x2000 <= u <= 0x200A
    ||| u == 0x2028
    ||| u == 0x2029
    ||| u == 0x202F
    ||| u == 0x205F
    ||| u == 0x3000
}

/// Calls `char::is_alphanumeric`; its result is named, not stated, since it follows
/// the Unicode character tables.
#[verifier::external_body]
fn alphanumeric(c: char) -> (r: bool)
    ensures
        r == char_is_alphanumeric(c),
{
    c.is_alphanumeric()
}

/// Whether `c` is whitespace (the Unicode White_Space property).
pub fn whitespace(c: char) -> (r: bool)
    ensures
        r == char_is_whitespace(c),
{
    let u = c as u32;
    (0x9 <= u && u <= 0xD) || u == 0x20 || u == 0x85 || u == 0xA0 || u == 0x1680 || (0x2000
        <= u && u <= 0x200A) || u == 0x2028 || u == 0x2029 || u == 0x202F || u == 0x205F || u
        == 0x3000
}

/// Whether `c` belongs to a word: alphanumeric or an underscore.
pub fn is_word_char(c: char) -> (r: bool)
    ensures
        r == is_word_char_spec(c),
{
    alphanumeric(c) || c == '_'
}

/// Number of lines in `text` (an empty text has one line).
pub fn line_count(text: &str) -> (r: usize)
    requires
        text@.len() < usize::MAX,
    ensures
        r == line_count_of(text@),
{
    let chars = chars_of(text);
    let n = chars.len();
    let mut count: usize = 0;
    let mut i: usize = 0;
    proof {
        assert(text@.take(0) =~= Seq::<char>::empty());
    }
    while i < n
        invariant
            n == chars@.len(),
            chars@ == text@,
            n < usize::MAX,
            i <= n,
            count <= i,
            count == count_newlines(text@.take(i as int)),
        decreases n - i,
    {
        proof {
            lemma_count_newlines_step(text@, i as int);
        }
        if chars[i] == '\n' {
            count = count + 1;
        }
        i = i + 1;
    }
    proof {
        lemma_count_newlines_full(text@);
    }
    count + 1
}

/// Char index of the first newline at or after char index `from`, or the number of chars.
fn find_newline(chars: &Vec<char>, from: usize) -> (r: usize)
    requires
        from <= chars@.len(),
    ensures
        r == next_newline(chars@, from as int),
{
    let n = chars.len();
    let mut i = from;
    while i < n && chars[i] != '\n'
        invariant
            n == chars@.len(),
            from <= i <= n,
            forall|j: int| from <= j < i ==> chars@[j] != '\n',
        decreases n - i,
    {
        i = i + 1;
    }
    proof {
        lemma_next_newline_at(chars@, from as int, i as int);
    }
    i
}

/// Char index at which line `line` starts.
fn line_start_char_index(chars: &Vec<char>, line: usize) -> (r: usize)
    ensures
        r == line_start_index(chars@, line as nat),
{
    let n = chars.len();
    let mut l: usize = 0;
    let mut idx: usize = 0;
    while l < line
        invariant
            n == chars@.len(),
            l <= line,
            idx == line_start_index(chars@, l as nat),
            idx <= n,
        decreases line - l,
    {
        let e = find_newline(chars, idx);
        proof {
            lemma_next_newline(chars@, idx as int);
        }
        if e >= n {
            proof {
                lemma_line_start_past_end(chars@, (l + 1) as nat, line as nat);
            }
            return n;
        }
        idx = e + 1;
        l = l + 1;
    }
    idx
}

/// Once a line starts at the end of the text, every later line does too.
proof fn lemma_line_start_past_end(s: Seq<char>, l: nat, m: nat)
    requires
        l <= m,
        line_start_index(s, l) == s.len(),
    ensures
        line_start_index(s, m) == s.len(),
    decreases m - l,
{
    if l < m {
        lemma_next_newline(s, s.len() as int);
        assert(line_start_index(s, (l + 1) as nat) == s.len());
        lemma_line_start_past_end(s, (l + 1) as nat, m);
    }
}

/// Byte offset at which line `line` starts; the byte length of the text when the
/// text has fewer lines.
pub fn line_start_offset(text: &str, line: usize) -> (r: usize)
    ensures
        r == byte_offset(text@, line_start_index(text@, line as nat)),
{
    let chars = chars_of(text);
    let offsets = byte_offsets(text);
    let idx = line_start_char_index(&chars, line);
    proof {
        lemma_line_start_bound(text@, line as nat);
    }
    offsets[idx]
}

/// Byte offset at which line `line` ends (where its newline is, or the end of the text).
pub fn line_end_offset(text: &str, line: usize) -> (r: usize)
    ensures
        r == byte_offset(text@, line_end_index(text@, line as nat)),
{
    let chars = chars_of(text);
    let offsets = byte_offsets(text);
    let idx = line_start_char_index(&chars, line);
    proof {
        lemma_line_start_bound(text@, line as nat);
    }
    let e = find_newline(&chars, idx);
    offsets[e]
}

/// The (line, column) of byte offset `offset`: the line counts the newlines that start
/// before `offset`, the column is the byte distance from that line's start.
pub fn offset_to_line_col(text: &str, offset: usize) -> (r: (usize, usize))
    ensures
        r.0 == line_of_offset(text@, offset as int),
        r.1 == column_of_offset(text@, offset as int),
{
    let chars = chars_of(text);
    let offsets = byte_offsets(text);
    let n = chars.len();
    let mut line: usize = 0;
    let mut line_start: usize = 0;
    let mut i: usize = 0;
    let ghost s = text@;
    let ghost p = |j: int| byte_offset(s, j) >= offset;
    proof {
        assert(s.take(0) =~= Seq::<char>::empty());
        lemma_offset_zero(s);
    }
    while i < n && offsets[i] < offset
        invariant
            n == chars@.len(),
            chars@ == s,
            offsets@.len() == n + 1,
            forall|j: int| 0 <= j <= n ==> offsets@[j] == byte_offset(s, j),
            p == (|j: int| byte_offset(s, j) >= offset),
            i <= n,
            forall|j: int| 0 <= j < i ==> !#[trigger] p(j),
            line <= i,
            line == count_newlines(s.take(i as int)),
            line_start == byte_offset(s, line_start_index(s, line as nat)),
        decreases n - i,
    {
        assert(offsets@[i as int] == byte_offset(s, i as int));
        assert(!p(i as int));
        proof {
            lemma_count_newlines_step(s, i as int);
            lemma_line_of_prefix(s, i as int + 1);
            lemma_offset_le_len(s, i as int + 1);
        }
        if chars[i] == '\n' {
            line = line + 1;
            proof {
                lemma_line_of_prefix(s, i as int);
                lemma_next_newline_at(s, line_start_index(s, (line - 1) as nat), i as int);
                lemma_offset_step(s, i as int);
            }
            line_start = offsets[i] + 1;
        }
        i = i + 1;
    }
    proof {
        lemma_first_where_unique(n as int, 0, p, i as int);
        if offset <= byte_len(s) {
            lemma_offset_in_line(s, offset as int);
        } else {
            lemma_line_start_bound(s, line as nat);
            lemma_offset_le_len(s, line_start_index(s, line as nat));
        }
    }
    (line, offset.saturating_sub(line_start))
}

/// The offset of column `col` on line `line`; the column is clamped to the line's length.
pub fn line_col_to_offset(text: &str, line: usize, col: usize) -> (r: usize)
    ensures
        r == offset_of_line_col(text@, line as nat, col as int),
{
    let line_start = line_start_offset(text, line);
    let line_end = line_end_offset(text, line);
    proof {
        lemma_line_start_bound(text@, line as nat);
        lemma_offset_mono(
            text@,
            line_start_index(text@, line as nat),
            line_end_index(text@, line as nat),
        );
    }
    let line_len = line_end - line_start;
    if col < line_len {
        line_start + col
    } else {
        line_start + line_len
    }
}

/// Going from an offset to its (line, column) and back gives the offset again.
pub proof fn law_line_col_round_trip(s: Seq<char>, b: int)
    requires
        0 <= b <= byte_len(s),
    ensures
        offset_of_line_col(s, line_of_offset(s, b), column_of_offset(s, b)) == b,
{
    lemma_offset_in_line(s, b);
}

/// Chars without a newline add no newline to a prefix count.
proof fn lemma_count_newlines_span(s: Seq<char>, i: int, j: int)
    requires
        0 <= i <= j <= s.len(),
        forall|k: int| i <= k < j ==> s[k] != '\n',
    ensures
        count_newlines(s.take(j)) == count_newlines(s.take(i)),
    decreases j - i,
{
    if i < j {
        lemma_count_newlines_span(s, i, j - 1);
        lemma_count_newlines_step(s, j - 1);
    }
}

/// A prefix holds at most the newlines of the whole text.
proof fn lemma_count_newlines_prefix(s: Seq<char>, j: int)
    requires
        0 <= j <= s.len(),
    ensures
        count_newlines(s.take(j)) <= count_newlines(s),
    decreases s.len() - j,
{
    if j < s.len() {
        lemma_count_newlines_step(s, j);
        lemma_count_newlines_prefix(s, j + 1);
    } else {
        lemma_count_newlines_full(s);
    }
}

/// Line `l` of a text with at least `l` newlines starts right after its `l`-th newline.
proof fn lemma_line_start_count(s: Seq<char>, l: nat)
    requires
        l <= count_newlines(s),
    ensures
        0 <= line_start_index(s, l) <= s.len(),
        count_newlines(s.take(line_start_index(s, l))) == l,
        l > 0 ==> s[line_start_index(s, l) - 1] == '\n',
    decreases l,
{
    if l == 0 {
        assert(s.take(0) =~= Seq::<char>::empty());
    } else {
        let pl = (l - 1) as nat;
        lemma_line_start_count(s, pl);
        let ls = line_start_index(s, pl);
        lemma_next_newline(s, ls);
        let e = next_newline(s, ls);
        lemma_count_newlines_span(s, ls, e);
        if e >= s.len() {
            lemma_count_newlines_full(s);
            assert(false);
        }
        lemma_count_newlines_step(s, e);
    }
}

/// The lines tile the text: the first starts at 0, the last ends at the end of the text,
/// each other line ends at a newline whose next byte starts the following line, and no
/// line holds a newline.
pub proof fn law_lines_tile_text(s: Seq<char>)
    ensures
        byte_offset(s, line_start_index(s, 0)) == 0,
        byte_offset(s, line_end_index(s, count_newlines(s))) == byte_len(s),
        forall|l: nat|
            l < count_newlines(s) ==> {
                &&& s[#[trigger] line_end_index(s, l)] == '\n'
                &&& byte_offset(s, line_end_index(s, l)) + 1 == byte_offset(
                    s,
                    line_start_index(s, l + 1),
                )
            },
        forall|l: nat, k: int|
            #![trigger line_end_index(s, l), s[k]]
            line_start_index(s, l) <= k < line_end_index(s, l) ==> s[k] != '\n',
{
    lemma_offset_zero(s);
    let c = count_newlines(s);
    lemma_line_start_count(s, c);
    let ls = line_start_index(s, c);
    lemma_next_newline(s, ls);
    let e = next_newline(s, ls);
    if e < s.len() {
        lemma_count_newlines_span(s, ls, e);
        lemma_count_newlines_step(s, e);
        lemma_count_newlines_prefix(s, e + 1);
        assert(false);
    }
    lemma_offset_full(s);
    assert forall|l: nat| l < count_newlines(s) implies {
        &&& s[#[trigger] line_end_index(s, l)] == '\n'
        &&& byte_offset(s, line_end_index(s, l)) + 1 == byte_offset(s, line_start_index(s, l + 1))
    } by {
        lemma_line_start_count(s, l);
        lemma_line_start_count(s, l + 1);
        let st = line_start_index(s, l);
        lemma_next_newline(s, st);
        let en = next_newline(s, st);
        if en >= s.len() {
            lemma_count_newlines_span(s, st, s.len() as int);
            lemma_count_newlines_full(s);
            assert(false);
        }
        lemma_offset_step(s, en);
    }
    assert forall|l: nat, k: int|
        #![trigger line_end_index(s, l), s[k]]
        line_start_index(s, l) <= k < line_end_index(s, l) implies s[k] != '\n' by {
        lemma_line_start_bound(s, l);
        lemma_next_newline(s, line_start_index(s, l));
    }
}

/// `(start, end)` byte offsets of every line of `text`, in order; lines are split at `'\n'`.
pub fn compute_line_offsets(text: &str) -> (r: Vec<(usize, usize)>)
    ensures
        r@.len() == line_count_of(text@),
        forall|l: int|
            0 <= l < r@.len() ==> #[trigger] r@[l] == (
                byte_offset(text@, line_start_index(text@, l as nat)) as usize,
                byte_offset(text@, line_end_index(text@, l as nat)) as usize,
            ),
{
    let chars = chars_of(text);
    let offsets = byte_offsets(text);
    let n = chars.len();
    let ghost s = text@;
    let mut r: Vec<(usize, usize)> = Vec::new();
    let mut start_idx: usize = 0;
    let mut i: usize = 0;
    proof {
        assert(s.take(0) =~= Seq::<char>::empty());
    }
    while i < n
        invariant
            n == chars@.len(),
            chars@ == s,
            offsets@.len() == n + 1,
            forall|j: int| 0 <= j <= n ==> offsets@[j] == byte_offset(s, j),
            i <= n,
            r@.len() == count_newlines(s.take(i as int)),
            start_idx == line_start_index(s, r@.len() as nat),
            forall|l: int|
                0 <= l < r@.len() ==> #[trigger] r@[l] == (
                    byte_offset(s, line_start_index(s, l as nat)) as usize,
                    byte_offset(s, line_end_index(s, l as nat)) as usize,
                ),
        decreases n - i,
    {
        proof {
            lemma_count_newlines_step(s, i as int);
            lemma_line_of_prefix(s, i as int);
        }
        if chars[i] == '\n' {
            proof {
                lemma_next_newline_at(s, start_idx as int, i as int);
            }
            r.push((offsets[start_idx], offsets[i]));
            start_idx = i + 1;
        }
        i = i + 1;
    }
    proof {
        lemma_count_newlines_full(s);
        lemma_line_of_prefix(s, n as int);
        lemma_next_newline_at(s, start_idx as int, n as int);
    }
    r.push((offsets[start_idx], offsets[n]));
    r
}

/// Byte range of the line (between newlines) that holds `offset`, which is first clamped
/// to the text's length.
pub fn line_range_at(text: &str, offset: usize) -> (r: core::ops::Range<usize>)
    requires
        is_char_boundary_of(text@, min_usize(offset, byte_len(text@)) as int),
    ensures
        ({
            let k = chars_before_byte(text@, min_usize(offset, byte_len(text@)) as int);
            &&& r.start == byte_offset(
                text@,
                line_start_index(text@, count_newlines(text@.take(k))),
            )
            &&& r.end == byte_offset(text@, next_newline(text@, k))
        }),
{
    let chars = chars_of(text);
    let offsets = byte_offsets(text);
    let len = offsets[chars.len()];
    proof {
        lemma_offset_full(text@);
    }
    let o = if offset < len {
        offset
    } else {
        len
    };
    let k = char_index_for_byte(&offsets, o, Ghost(text@));
    let ghost s = text@;
    // Scan back for the newline before char k.
    let mut j: usize = k;
    proof {
        lemma_line_of_prefix(s, k as int);
    }
    let ghost ls = line_start_index(s, count_newlines(s.take(k as int)));
    while j > 0 && chars[j - 1] != '\n'
        invariant
            chars@ == s,
            j <= k <= s.len(),
            0 <= ls <= j,
            ls == 0 || s[ls - 1] == '\n',
            forall|m: int| ls <= m < k ==> s[m] != '\n',
        decreases j,
    {
        j = j - 1;
    }
    let start_idx = j;
    assert(start_idx == ls);
    let e = find_newline(&chars, k);
    proof {
        lemma_next_newline(s, k as int);
    }
    offsets[start_idx]..offsets[e]
}

/// The smaller of two offsets.
pub open spec fn min_usize(a: usize, b: nat) -> nat {
    if a < b {
        a as nat
    } else {
        b
    }
}

/// Byte offset where the line holding offset `o` starts.
pub open spec fn line_start_containing(s: Seq<char>, o: int) -> int {
    byte_offset(s, line_start_index(s, line_of_offset(s, o))) as int
}

/// Byte offset where the line holding offset `o` ends.
pub open spec fn line_end_containing(s: Seq<char>, o: int) -> int {
    byte_offset(s, line_end_index(s, line_of_offset(s, o))) as int
}

/// Start of the line that holds `offset`.
pub fn line_start_for_offset(text: &str, offset: usize) -> (r: usize)
    ensures
        r == line_start_containing(text@, offset as int),
{
    let (line, _) = offset_to_line_col(text, offset);
    line_start_offset(text, line)
}

/// End of the line that holds `offset`.
pub fn line_end_for_offset(text: &str, offset: usize) -> (r: usize)
    ensures
        r == line_end_containing(text@, offset as int),
{
    let (line, _) = offset_to_line_col(text, offset);
    line_end_offset(text, line)
}

/// Number of newlines in `text`.
pub fn newline_count(text: &str) -> (r: usize)
    ensures
        r == count_newlines(text@),
{
    let chars = chars_of(text);
    let n = chars.len();
    let mut count: usize = 0;
    let mut i: usize = 0;
    proof {
        assert(text@.take(0) =~= Seq::<char>::empty());
    }
    while i < n
        invariant
            n == chars@.len(),
            chars@ == text@,
            i <= n,
            count <= i,
            count == count_newlines(text@.take(i as int)),
        decreases n - i,
    {
        proof {
            lemma_count_newlines_step(text@, i as int);
        }
        if chars[i] == '\n' {
            count = count + 1;
        }
        i = i + 1;
    }
    proof {
        lemma_count_newlines_full(text@);
    }
    count
}

/// The offset one line above `o` at the same column, when `o` is not on the first line.
pub open spec fn offset_above_of(s: Seq<char>, o: int) -> Option<int> {
    let line = line_of_offset(s, o);
    if line > 0 {
        Some(offset_of_line_col(s, (line - 1) as nat, column_of_offset(s, o)))
    } else {
        None
    }
}

/// The offset one line below `o` at the same column, when `o` is not on the last line.
pub open spec fn offset_below_of(s: Seq<char>, o: int) -> Option<int> {
    let line = line_of_offset(s, o);
    if line < count_newlines(s) {
        Some(offset_of_line_col(s, (line + 1) as nat, column_of_offset(s, o)))
    } else {
        None
    }
}

/// The offset one line above `offset` at the same column, if there is a line above.
pub fn offset_above(text: &str, offset: usize) -> (r: Option<usize>)
    ensures
        match offset_above_of(text@, offset as int) {
            Some(v) => r matches Some(x) && x == v,
            None => r is None,
        },
{
    let (line, col) = offset_to_line_col(text, offset);
    if line > 0 {
        Some(line_col_to_offset(text, line - 1, col))
    } else {
        None
    }
}

/// The offset one line below `offset` at the same column, if there is a line below.
pub fn offset_below(text: &str, offset: usize) -> (r: Option<usize>)
    ensures
        match offset_below_of(text@, offset as int) {
            Some(v) => r matches Some(x) && x == v,
            None => r is None,
        },
{
    let (line, col) = offset_to_line_col(text, offset);
    let newlines = newline_count(text);
    if line < newlines {
        Some(line_col_to_offset(text, line + 1, col))
    } else {
        None
    }
}

/// The line range around an offset holds the offset (clamped to the text), starts at the
/// text's start or just after a newline, ends at a newline or the text's end, and holds no
/// newline.
pub proof fn law_line_range_contains_offset(s: Seq<char>, offset: usize)
    requires
        is_char_boundary_of(s, min_usize(offset, byte_len(s)) as int),
    ensures
        ({
            let o = min_usize(offset, byte_len(s)) as int;
            let k = chars_before_byte(s, o);
            let ls = line_start_index(s, count_newlines(s.take(k)));
            let le = next_newline(s, k);
            &&& 0 <= ls <= k <= le <= s.len()
            &&& byte_offset(s, ls) <= o <= byte_offset(s, le)
            &&& ls == 0 || s[ls - 1] == '\n'
            &&& le == s.len() || s[le] == '\n'
            &&& forall|j: int| ls <= j < le ==> s[j] != '\n'
        }),
{
    let o = min_usize(offset, byte_len(s)) as int;
    crate::words::lemma_boundary_index(s, o);
    let k = chars_before_byte(s, o);
    lemma_line_of_prefix(s, k);
    lemma_next_newline(s, k);
    let ls = line_start_index(s, count_newlines(s.take(k)));
    let le = next_newline(s, k);
    lemma_offset_mono(s, ls, k);
    lemma_offset_mono(s, k, le);
}

} // verus!
