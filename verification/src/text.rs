//! The text model: a string is a sequence of `char`s, and every offset that
//! the library hands out or takes is a UTF-8 byte offset into it.
use vstd::prelude::*;
use vstd::utf8::*;

verus! {

/// Number of bytes in the UTF-8 encoding of `c`.
pub open spec fn utf8_width(c: char) -> nat {
    if (c as u32) < 0x80 {
        1
    } else if (c as u32) < 0x800 {
        2
    } else if (c as u32) < 0x10000 {
        3
    } else {
        4
    }
}

/// Number of UTF-16 code units in the encoding of `c`.
pub open spec fn utf16_width(c: char) -> nat {
    if (c as u32) < 0x10000 {
        1
    } else {
        2
    }
}

/// Length in bytes of the UTF-8 encoding of `s`.
pub open spec fn byte_len(s: Seq<char>) -> nat
    decreases s.len(),
{
    if s.len() == 0 {
        0
    } else {
        utf8_width(s[0]) + byte_len(s.drop_first())
    }
}

/// Length in UTF-16 code units of `s`.
pub open spec fn utf16_len(s: Seq<char>) -> nat
    decreases s.len(),
{
    if s.len() == 0 {
        0
    } else {
        utf16_width(s[0]) + utf16_len(s.drop_first())
    }
}

/// Byte offset at which the char with index `i` starts (the byte length of the text for `i == s.len()`).
pub open spec fn byte_offset(s: Seq<char>, i: int) -> nat {
    byte_len(s.take(i))
}

/// UTF-16 offset at which the char with index `i` starts.
pub open spec fn utf16_offset(s: Seq<char>, i: int) -> nat {
    utf16_len(s.take(i))
}

/// `b` is the byte offset of the start of a char of `s`, or of its end.
pub open spec fn is_char_boundary_of(s: Seq<char>, b: int) -> bool {
    exists|i: int| 0 <= i <= s.len() && byte_offset(s, i) == b
}

/// The least index `j` in `i..n` for which `p` holds, or `n` when there is none.
pub open spec fn first_where(n: int, i: int, p: spec_fn(int) -> bool) -> int
    decreases n - i,
{
    if i >= n || p(i) {
        i
    } else {
        first_where(n, i + 1, p)
    }
}

/// Number of chars of `s` that start before byte offset `b`.
pub open spec fn chars_before_byte(s: Seq<char>, b: int) -> int {
    first_where(s.len() as int, 0, |i: int| byte_offset(s, i) >= b)
}

/// Number of chars of `s` that start before UTF-16 offset `u`.
pub open spec fn chars_before_utf16(s: Seq<char>, u: int) -> int {
    first_where(s.len() as int, 0, |i: int| utf16_offset(s, i) >= u)
}

pub proof fn lemma_first_where(n: int, i: int, p: spec_fn(int) -> bool)
    requires
        i <= n,
    ensures
        i <= first_where(n, i, p) <= n,
        first_where(n, i, p) < n ==> p(first_where(n, i, p)),
        forall|j: int| i <= j < first_where(n, i, p) ==> !#[trigger] p(j),
    decreases n - i,
{
    if i >= n || p(i) {
    } else {
        lemma_first_where(n, i + 1, p);
    }
}

/// A least index with `p`, found any way, is what `first_where` gives.
pub proof fn lemma_first_where_unique(n: int, i: int, p: spec_fn(int) -> bool, k: int)
    requires
        i <= k <= n,
        k < n ==> p(k),
        forall|j: int| i <= j < k ==> !#[trigger] p(j),
    ensures
        first_where(n, i, p) == k,
    decreases n - i,
{
    if i >= n || p(i) {
    } else {
        lemma_first_where_unique(n, i + 1, p, k);
    }
}

pub proof fn lemma_utf8_width_bounds(c: char)
    ensures
        1 <= utf8_width(c) <= 4,
        1 <= utf16_width(c) <= 2,
        utf16_width(c) <= utf8_width(c),
{
}

/// The width of `c` is the length of its UTF-8 encoding as vstd defines it.
pub proof fn lemma_utf8_width_encode(c: char)
    ensures
        utf8_width(c) == encode_scalar(c as u32).len(),
{
    char_is_scalar(c);
}

pub proof fn lemma_byte_len_encode(s: Seq<char>)
    ensures
        byte_len(s) == encode_utf8(s).len(),
    decreases s.len(),
{
    if s.len() > 0 {
        lemma_utf8_width_encode(s[0]);
        lemma_byte_len_encode(s.drop_first());
    }
}

pub proof fn lemma_byte_len_concat(a: Seq<char>, b: Seq<char>)
    ensures
        byte_len(a + b) == byte_len(a) + byte_len(b),
        utf16_len(a + b) == utf16_len(a) + utf16_len(b),
    decreases a.len(),
{
    if a.len() == 0 {
        assert(a + b =~= b);
    } else {
        assert((a + b).drop_first() =~= a.drop_first() + b);
        lemma_byte_len_concat(a.drop_first(), b);
    }
}

pub proof fn lemma_byte_len_single(c: char)
    ensures
        byte_len(seq![c]) == utf8_width(c),
        utf16_len(seq![c]) == utf16_width(c),
{
    assert(seq![c].drop_first() =~= Seq::<char>::empty());
    assert(byte_len(Seq::<char>::empty()) == 0);
    assert(utf16_len(Seq::<char>::empty()) == 0);
}

/// Each char moves the byte and UTF-16 offsets on by its width.
pub proof fn lemma_offset_step(s: Seq<char>, i: int)
    requires
        0 <= i < s.len(),
    ensures
        byte_offset(s, i + 1) == byte_offset(s, i) + utf8_width(s[i]),
        utf16_offset(s, i + 1) == utf16_offset(s, i) + utf16_width(s[i]),
{
    assert(s.take(i + 1) =~= s.take(i) + seq![s[i]]);
    lemma_byte_len_concat(s.take(i), seq![s[i]]);
    lemma_byte_len_single(s[i]);
}

pub proof fn lemma_offset_zero(s: Seq<char>)
    ensures
        byte_offset(s, 0) == 0,
        utf16_offset(s, 0) == 0,
{
    assert(s.take(0) =~= Seq::<char>::empty());
}

pub proof fn lemma_offset_full(s: Seq<char>)
    ensures
        byte_offset(s, s.len() as int) == byte_len(s),
        utf16_offset(s, s.len() as int) == utf16_len(s),
{
    assert(s.take(s.len() as int) =~= s);
}

/// Byte and UTF-16 offsets grow strictly from char to char.
pub proof fn lemma_offset_strict(s: Seq<char>, i: int, j: int)
    requires
        0 <= i < j <= s.len(),
    ensures
        byte_offset(s, i) < byte_offset(s, j),
        utf16_offset(s, i) < utf16_offset(s, j),
        byte_offset(s, j) - byte_offset(s, i) >= j - i,
    decreases j - i,
{
    lemma_offset_step(s, j - 1);
    lemma_utf8_width_bounds(s[j - 1]);
    if i < j - 1 {
        lemma_offset_strict(s, i, j - 1);
    }
}

pub proof fn lemma_offset_mono(s: Seq<char>, i: int, j: int)
    requires
        0 <= i <= j <= s.len(),
    ensures
        byte_offset(s, i) <= byte_offset(s, j),
        utf16_offset(s, i) <= utf16_offset(s, j),
{
    if i < j {
        lemma_offset_strict(s, i, j);
    }
}

/// Every byte offset of a char lies within the text.
pub proof fn lemma_offset_le_len(s: Seq<char>, i: int)
    requires
        0 <= i <= s.len(),
    ensures
        byte_offset(s, i) <= byte_len(s),
        utf16_offset(s, i) <= utf16_len(s),
        i <= byte_offset(s, i),
{
    lemma_offset_full(s);
    lemma_offset_mono(s, i, s.len() as int);
    lemma_offset_zero(s);
    if i > 0 {
        lemma_offset_strict(s, 0, i);
    }
}

/// Counting the chars before the boundary of char `i` gives `i`.
pub proof fn lemma_chars_before_boundary(s: Seq<char>, i: int)
    requires
        0 <= i <= s.len(),
    ensures
        chars_before_byte(s, byte_offset(s, i) as int) == i,
        chars_before_utf16(s, utf16_offset(s, i) as int) == i,
{
    let b = byte_offset(s, i) as int;
    let u = utf16_offset(s, i) as int;
    assert forall|j: int| 0 <= j < i implies !(byte_offset(s, j) >= b) && !(utf16_offset(s, j)
        >= u) by {
        lemma_offset_strict(s, j, i);
    }
    lemma_first_where_unique(s.len() as int, 0, |k: int| byte_offset(s, k) >= b, i);
    lemma_first_where_unique(s.len() as int, 0, |k: int| utf16_offset(s, k) >= u, i);
}

/// Offsets past a split point are the split offset plus the offsets in the rest.
pub proof fn lemma_offset_suffix(s: Seq<char>, k: int, i: int)
    requires
        0 <= k <= s.len(),
        0 <= i <= s.len() - k,
    ensures
        byte_offset(s, k + i) == byte_offset(s, k) + byte_offset(s.skip(k), i),
{
    assert(s.take(k + i) =~= s.take(k) + s.skip(k).take(i));
    lemma_byte_len_concat(s.take(k), s.skip(k).take(i));
}

/// Exec counterpart of [`utf8_width`].
pub fn char_utf8_width(c: char) -> (w: usize)
    ensures
        w == utf8_width(c),
{
    let u = c as u32;
    if u < 0x80 {
        1
    } else if u < 0x800 {
        2
    } else if u < 0x10000 {
        3
    } else {
        4
    }
}

/// Exec counterpart of [`utf16_width`].
pub fn char_utf16_width(c: char) -> (w: usize)
    ensures
        w == utf16_width(c),
{
    let u = c as u32;
    if u < 0x10000 {
        1
    } else {
        2
    }
}

/// The chars of `s`, in order.
pub fn chars_of(s: &str) -> (v: Vec<char>)
    ensures
        v@ == s@,
{
    let mut v: Vec<char> = Vec::new();
    for c in it: s.chars()
        invariant
            v@ == it.seq().take(it.index() as int),
    {
        v.push(c);
    }
    v
}

/// The byte length of the text is the length of its UTF-8 encoding, which fits in a `usize`.
pub fn str_byte_len(s: &str) -> (n: usize)
    ensures
        n == byte_len(s@),
{
    let bytes = s.as_bytes();
    proof {
        lemma_byte_len_encode(s@);
    }
    bytes.len()
}

/// The byte offset of every char boundary of `s`: `offsets[i]` is where char `i` starts,
/// and `offsets[s.len()]` is the byte length.
pub fn byte_offsets(s: &str) -> (offsets: Vec<usize>)
    ensures
        offsets@.len() == s@.len() + 1,
        forall|i: int| 0 <= i <= s@.len() ==> offsets@[i] == byte_offset(s@, i),
{
    let total = str_byte_len(s);
    let chars = chars_of(s);
    let n = chars.len();
    let mut offsets: Vec<usize> = Vec::new();
    let mut b: usize = 0;
    let mut i: usize = 0;
    proof {
        lemma_offset_zero(s@);
    }
    while i < n
        invariant
            n == chars@.len(),
            chars@ == s@,
            total == byte_len(s@),
            i <= n,
            offsets@.len() == i,
            b == byte_offset(s@, i as int),
            forall|j: int| 0 <= j < i ==> offsets@[j] == byte_offset(s@, j),
        decreases n - i,
    {
        offsets.push(b);
        proof {
            lemma_offset_step(s@, i as int);
            lemma_offset_le_len(s@, i as int + 1);
        }
        b = b + char_utf8_width(chars[i]);
        i = i + 1;
    }
    offsets.push(b);
    offsets
}

/// The UTF-16 offset of every char boundary of `s`.
pub fn utf16_offsets(s: &str) -> (offsets: Vec<usize>)
    ensures
        offsets@.len() == s@.len() + 1,
        forall|i: int| 0 <= i <= s@.len() ==> offsets@[i] == utf16_offset(s@, i),
{
    let total = str_byte_len(s);
    let chars = chars_of(s);
    let n = chars.len();
    let mut offsets: Vec<usize> = Vec::new();
    let mut u: usize = 0;
    let mut i: usize = 0;
    proof {
        lemma_offset_zero(s@);
    }
    while i < n
        invariant
            n == chars@.len(),
            chars@ == s@,
            total == byte_len(s@),
            i <= n,
            offsets@.len() == i,
            u == utf16_offset(s@, i as int),
            forall|j: int| 0 <= j < i ==> offsets@[j] == utf16_offset(s@, j),
        decreases n - i,
    {
        offsets.push(u);
        proof {
            lemma_offset_step(s@, i as int);
            lemma_offset_le_len(s@, i as int + 1);
            lemma_offset_full(s@);
            lemma_offset_mono(s@, i as int + 1, n as int);
        }
        assert(utf16_offset(s@, i as int + 1) <= utf16_len(s@));
        assert(utf16_len(s@) <= byte_len(s@)) by {
            lemma_utf16_le_byte_len(s@);
        }
        u = u + char_utf16_width(chars[i]);
        i = i + 1;
    }
    offsets.push(u);
    offsets
}

pub proof fn lemma_utf16_le_byte_len(s: Seq<char>)
    ensures
        utf16_len(s) <= byte_len(s),
    decreases s.len(),
{
    if s.len() > 0 {
        lemma_utf8_width_bounds(s[0]);
        lemma_utf16_le_byte_len(s.drop_first());
    }
}

/// Finds the char index of byte offset `b` in the boundary table `offsets`:
/// the number of chars that start before `b`.
pub fn char_index_for_byte(offsets: &Vec<usize>, b: usize, Ghost(s): Ghost<Seq<char>>) -> (k: usize)
    requires
        offsets@.len() == s.len() + 1,
        forall|i: int| 0 <= i <= s.len() ==> offsets@[i] == byte_offset(s, i),
    ensures
        k == chars_before_byte(s, b as int),
        k <= s.len(),
{
    let n = offsets.len() - 1;
    let mut k: usize = 0;
    let ghost p = |i: int| byte_offset(s, i) >= b;
    while k < n && offsets[k] < b
        invariant
            n == s.len(),
            offsets@.len() == s.len() + 1,
            forall|i: int| 0 <= i <= s.len() ==> offsets@[i] == byte_offset(s, i),
            k <= n,
            p == (|i: int| byte_offset(s, i) >= b),
            forall|j: int| 0 <= j < k ==> !#[trigger] p(j),
        decreases n - k,
    {
        assert(offsets@[k as int] == byte_offset(s, k as int));
        assert(!p(k as int));
        k = k + 1;
    }
    proof {
        lemma_first_where_unique(n as int, 0, p, k as int);
    }
    k
}

/// Finds the number of chars that start before UTF-16 offset `u` in the table `offsets`.
pub fn char_index_for_utf16(offsets: &Vec<usize>, u: usize, Ghost(s): Ghost<Seq<char>>) -> (k: usize)
    requires
        offsets@.len() == s.len() + 1,
        forall|i: int| 0 <= i <= s.len() ==> offsets@[i] == utf16_offset(s, i),
    ensures
        k == chars_before_utf16(s, u as int),
        k <= s.len(),
{
    let n = offsets.len() - 1;
    let mut k: usize = 0;
    let ghost p = |i: int| utf16_offset(s, i) >= u;
    while k < n && offsets[k] < u
        invariant
            n == s.len(),
            offsets@.len() == s.len() + 1,
            forall|i: int| 0 <= i <= s.len() ==> offsets@[i] == utf16_offset(s, i),
            k <= n,
            p == (|i: int| utf16_offset(s, i) >= u),
            forall|j: int| 0 <= j < k ==> !#[trigger] p(j),
        decreases n - k,
    {
        assert(offsets@[k as int] == utf16_offset(s, k as int));
        assert(!p(k as int));
        k = k + 1;
    }
    proof {
        lemma_first_where_unique(n as int, 0, p, k as int);
    }
    k
}

/// UTF-16 offset of byte offset `b`: the UTF-16 length of the chars that start before `b`.
pub open spec fn offset_to_utf16_of(s: Seq<char>, b: int) -> nat {
    utf16_offset(s, chars_before_byte(s, b))
}

/// Byte offset of UTF-16 offset `u`: the byte length of the chars that start before `u`.
pub open spec fn offset_from_utf16_of(s: Seq<char>, u: int) -> nat {
    byte_offset(s, chars_before_utf16(s, u))
}

/// Converts a UTF-8 byte offset into `text` to a UTF-16 offset.
pub fn offset_to_utf16(text: &str, offset: usize) -> (r: usize)
    ensures
        r == offset_to_utf16_of(text@, offset as int),
{
    let offsets = byte_offsets(text);
    let units = utf16_offsets(text);
    let k = char_index_for_byte(&offsets, offset, Ghost(text@));
    units[k]
}

/// Converts a UTF-16 offset into `text` to a UTF-8 byte offset.
pub fn offset_from_utf16(text: &str, offset: usize) -> (r: usize)
    ensures
        r == offset_from_utf16_of(text@, offset as int),
{
    let offsets = byte_offsets(text);
    let units = utf16_offsets(text);
    let k = char_index_for_utf16(&units, offset, Ghost(text@));
    offsets[k]
}

/// A byte offset converted from UTF-16 always lies on a char boundary of the text.
pub proof fn lemma_from_utf16_boundary(s: Seq<char>, u: int)
    ensures
        is_char_boundary_of(s, offset_from_utf16_of(s, u) as int),
        offset_from_utf16_of(s, u) <= byte_len(s),
{
    let k = chars_before_utf16(s, u);
    lemma_first_where(s.len() as int, 0, |i: int| utf16_offset(s, i) >= u);
    lemma_offset_le_len(s, k);
}

/// A byte offset on a char boundary survives a round trip through UTF-16.
pub proof fn law_utf16_round_trip(s: Seq<char>, b: int)
    requires
        is_char_boundary_of(s, b),
    ensures
        offset_from_utf16_of(s, offset_to_utf16_of(s, b) as int) == b,
{
    let i = choose|i: int| 0 <= i <= s.len() && byte_offset(s, i) == b;
    lemma_chars_before_boundary(s, i);
}

/// A UTF-16 offset on a char boundary survives a round trip through UTF-8.
pub proof fn law_utf8_round_trip(s: Seq<char>, i: int)
    requires
        0 <= i <= s.len(),
    ensures
        offset_to_utf16_of(s, offset_from_utf16_of(s, utf16_offset(s, i) as int) as int)
            == utf16_offset(s, i),
{
    lemma_chars_before_boundary(s, i);
}

/// A text has bytes exactly when it has chars.
pub proof fn lemma_byte_len_zero_iff(s: Seq<char>)
    ensures
        (byte_len(s) == 0) == (s.len() == 0),
{
    if s.len() > 0 {
        lemma_utf8_width_bounds(s[0]);
    }
}

/// The ends of the text are boundaries, and the chars between them are the whole text.
pub proof fn lemma_whole_text_range(s: Seq<char>)
    ensures
        is_char_boundary_of(s, 0),
        is_char_boundary_of(s, byte_len(s) as int),
        chars_before_byte(s, 0) == 0,
        chars_before_byte(s, byte_len(s) as int) == s.len(),
        s.subrange(chars_before_byte(s, 0), chars_before_byte(s, byte_len(s) as int)) == s,
{
    lemma_offset_zero(s);
    lemma_offset_full(s);
    lemma_chars_before_boundary(s, 0);
    lemma_chars_before_boundary(s, s.len() as int);
    assert(s.subrange(0, s.len() as int) =~= s);
}

/// Whether byte offset `b` falls on a char boundary of `text` (its end included).
pub fn char_boundary_at(text: &str, b: usize) -> (r: bool)
    ensures
        r == is_char_boundary_of(text@, b as int),
{
    let offsets = byte_offsets(text);
    let k = char_index_for_byte(&offsets, b, Ghost(text@));
    proof {
        if is_char_boundary_of(text@, b as int) {
            let i = choose|i: int| 0 <= i <= text@.len() && byte_offset(text@, i) == b;
            lemma_chars_before_boundary(text@, i);
        }
    }
    offsets[k] == b
}

} // verus!
