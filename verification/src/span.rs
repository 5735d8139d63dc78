//! Byte spans: the resolved `[start, end)` selection inside a line.

use vstd::prelude::*;

verus! {

/// The byte-offset span of a selection inside a specific line, together
/// with the line's total byte length.
///
/// Invariant: `start <= end <= total_len`.  The degenerate span
/// (`start == end == 0`, `total_len` = line length) stands for "no valid
/// selection": splicing an empty token sequence into it reproduces the
/// whole line unchanged.
#[derive(Clone, Copy, Debug, PartialEq, Eq, Structural)]
pub struct ByteSpan {
    pub start: usize,
    pub end: usize,
    pub total_len: usize,
}

impl ByteSpan {
    /// Well-formedness with respect to a line of `line_len` bytes.
    pub open spec fn wf(self, line_len: nat) -> bool {
        self.start <= self.end <= self.total_len && self.total_len == line_len
    }

    /// The degenerate "no valid selection" span for a line of `line_len` bytes.
    pub fn empty(line_len: usize) -> (r: ByteSpan)
        ensures
            r == (ByteSpan { start: 0, end: 0, total_len: line_len }),
            r.wf(line_len as nat),
    {
        ByteSpan { start: 0, end: 0, total_len: line_len }
    }
}

} // verus!
