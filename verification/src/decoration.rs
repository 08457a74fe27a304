//! Options that configure how decorations and selection corners are drawn.
use vstd::prelude::*;

verus! {

/// Controls whether a decoration's bounds (padding) affect layout.
#[derive(Clone, Copy, Debug, PartialEq, Eq, Structural)]
pub enum DecorationDisplay {
    /// Decoration bounds affect layout: padding reserves space, preventing overlap with
    /// adjacent children.
    Block,
    /// Decoration is paint-only: padding is used for the visual rect but does not affect
    /// text positioning or line height.
    Overlay,
}

impl Default for DecorationDisplay {
    /// Decorations affect layout unless asked otherwise.
    fn default() -> (r: Self)
        ensures
            r == DecorationDisplay::Block,
    {
        DecorationDisplay::Block
    }
}

/// Which corner orientation a concave selection corner is drawn for.
#[derive(Clone, Copy)]
pub enum ConcaveCorner {
    TopRight,
    TopLeft,
    BottomRight,
    BottomLeft,
}

} // verus!
