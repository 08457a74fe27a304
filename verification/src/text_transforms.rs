//! Display transforms applied to each char of an input's text.
use vstd::prelude::*;

verus! {

/// Masks any char with `'*'` (for password fields).
pub fn password(c: char) -> (r: char)
    ensures
        r == '*',
{
    '*'
}

} // verus!
