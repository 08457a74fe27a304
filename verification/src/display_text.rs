//! What an input line shows: its content, a char-by-char transform of it, or the placeholder.
use core::ops::Range;
use vstd::prelude::*;
use vstd::string::StringExecFns;

verus! {

/// Calls `String::push`, which appends `c` to the end of `s`.
#[verifier::external_body]
fn push_char(s: &mut String, c: char)
    ensures
        final(s)@ == old(s)@.push(c),
{
    s.push(c);
}

/// `content` with each char replaced by what `transform` gives for it.
pub fn map_chars<F: Fn(char) -> char>(content: &str, transform: &F) -> (r: String)
    requires
        forall|c: char| transform.requires((c,)),
    ensures
        r@.len() == content@.len(),
        forall|i: int| 0 <= i < content@.len() ==> transform.ensures((content@[i],), #[trigger] r@[i]),
{
    let chars = crate::text::chars_of(content);
    let mut r = String::new();
    let mut i: usize = 0;
    while i < chars.len()
        invariant
            chars@ == content@,
            i <= chars@.len(),
            r@.len() == i,
            forall|c: char| transform.requires((c,)),
            forall|j: int| 0 <= j < i ==> transform.ensures((content@[j],), #[trigger] r@[j]),
        decreases chars@.len() - i,
    {
        let c = transform(chars[i]);
        push_char(&mut r, c);
        i = i + 1;
    }
    r
}

/// The text shown for one line of an input, and whether it is the placeholder (shown in
/// the placeholder color rather than the text color). An empty line shows the placeholder
/// when it is the placeholder line, else nothing; other lines show their content, through
/// `transform` when one is given.
pub fn resolve_display_text<F: Fn(char) -> char>(
    content: &str,
    is_placeholder_line: bool,
    placeholder: &str,
    transform: Option<&F>,
) -> (r: (String, bool))
    requires
        transform matches Some(f) ==> forall|c: char| f.requires((c,)),
    ensures
        r.1 == (content@.len() == 0 && is_placeholder_line),
        content@.len() == 0 && is_placeholder_line ==> r.0@ == placeholder@,
        content@.len() == 0 && !is_placeholder_line ==> r.0@ == Seq::<char>::empty(),
        content@.len() > 0 && transform is None ==> r.0@ == content@,
        content@.len() > 0 ==> (transform matches Some(f) ==> {
            &&& r.0@.len() == content@.len()
            &&& forall|i: int|
                0 <= i < content@.len() ==> f.ensures((content@[i],), #[trigger] r.0@[i])
        }),
{
    let n = crate::text::str_byte_len(content);
    proof {
        crate::text::lemma_byte_len_zero_iff(content@);
    }
    if n == 0 && is_placeholder_line {
        (String::from_str(placeholder), true)
    } else if n == 0 {
        (String::new(), false)
    } else {
        match transform {
            Some(f) => (map_chars(content, f), false),
            None => (String::from_str(content), false),
        }
    }
}

/// A run of `len` bytes, and whether it is underlined as composition text.
pub open spec fn run_if_nonempty(len: int, underlined: bool) -> Seq<(usize, bool)> {
    if len > 0 {
        seq![(len as usize, underlined)]
    } else {
        Seq::empty()
    }
}

/// The text runs of a single-line input's text of `text_len` bytes: one plain run, or,
/// while a composition (`marked_range`) is under way, the text before it, the composition
/// (underlined) and the text after it, leaving out empty runs. Each run is its length in
/// bytes and whether it is underlined.
pub fn marked_text_runs(text_len: usize, marked_range: &Option<Range<usize>>) -> (r: Vec<
    (usize, bool),
>)
    requires
        marked_range matches Some(m) ==> m.start <= m.end <= text_len,
    ensures
        match marked_range {
            None => r@ == seq![(text_len, false)],
            Some(m) => r@ == run_if_nonempty(m.start as int, false) + run_if_nonempty(
                m.end - m.start,
                true,
            ) + run_if_nonempty(text_len - m.end, false),
        },
{
    match marked_range {
        None => vec![(text_len, false)],
        Some(m) => {
            let mut r: Vec<(usize, bool)> = Vec::new();
            if m.start > 0 {
                r.push((m.start, false));
            }
            if m.end - m.start > 0 {
                r.push((m.end - m.start, true));
            }
            if text_len - m.end > 0 {
                r.push((text_len - m.end, false));
            }
            proof {
                let a = run_if_nonempty(m.start as int, false);
                let b = run_if_nonempty(m.end - m.start, true);
                let c = run_if_nonempty(text_len - m.end, false);
                assert(r@ =~= a + b + c);
            }
            r
        },
    }
}

} // verus!
