//! Byte positions and spans in source text.

use vstd::prelude::*;

verus! {

/// A byte offset into the text of all files known to a code map.
#[derive(Clone, Copy, Debug, PartialEq, Eq, Structural)]
pub struct BytePos(pub u32);

/// A half-open range of byte positions.
#[derive(Clone, Copy, Debug, PartialEq, Eq, Structural)]
pub struct Span {
    pub start: BytePos,
    pub end: BytePos,
}

impl BytePos {
    /// The position that marks synthesized code.
    pub fn none() -> (r: BytePos)
        ensures
            r == BytePos(0),
    {
        BytePos(0)
    }
}

impl Span {
    pub fn new(start: BytePos, end: BytePos) -> (r: Span)
        ensures
            r == (Span { start, end }),
    {
        Span { start, end }
    }

    /// The empty span at the position that marks synthesized code.
    pub fn none() -> (r: Span)
        ensures
            r == (Span { start: BytePos(0), end: BytePos(0) }),
    {
        Span { start: BytePos(0), end: BytePos(0) }
    }
}

} // verus!
