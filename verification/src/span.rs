//! Source-location markers attached to AST nodes.

use vstd::prelude::*;

verus! {

/// A source range: the character offsets a node covers, and the id of the
/// source file it was parsed from. Spans take part in structural equality
/// of the nodes that carry them.
#[derive(Clone, Copy, PartialEq, Eq, Structural, Debug)]
pub struct Span {
    /// Offset of the first character covered.
    pub lo: u32,
    /// Offset one past the last character covered.
    pub hi: u32,
    /// Identifier of the source file this range lies in.
    pub file: u32,
}

impl Span {
    /// Builds the span covering offsets `lo..hi` of file `file`.
    pub fn new(lo: u32, hi: u32, file: u32) -> (r: Span)
        ensures
            r == (Span { lo, hi, file }),
    {
        Span { lo, hi, file }
    }
}

} // verus!
