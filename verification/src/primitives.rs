//! Plain values of the drawing primitives.
use vstd::prelude::*;

verus! {

/// Alignment of the lines of a text node.
#[derive(Debug, Clone, Copy, PartialEq, Eq, Structural)]
pub enum TextAlign {
    Start,
    Center,
    End,
    Justify,
}

} // verus!
