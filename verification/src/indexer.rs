//! Character indexing: 1-based character positions to byte offsets,
//! UTF-8 aware.
//!
//! A line is a sequence of bytes.  A byte begins a character group iff it
//! is not a UTF-8 continuation byte; in valid UTF-8 the groups are exactly
//! the encoded unicode scalar values.  All functions here are total over
//! arbitrary byte sequences: trailing or leading continuation bytes simply
//! extend the group begun before them.

use vstd::prelude::*;

verus! {

/// A byte that begins a character group: anything but a UTF-8
/// continuation byte (`0x80..=0xBF`).
pub open spec fn is_char_start(b: u8) -> bool {
    b < 0x80 || b >= 0xC0
}

/// The number of char-start bytes among the first `n` bytes of `s`.
pub open spec fn starts_in_prefix(s: Seq<u8>, n: int) -> nat
    decreases n,
{
    if n <= 0 {
        0
    } else {
        starts_in_prefix(s, n - 1) + (if n - 1 < s.len() && is_char_start(s[n - 1]) {
            1nat
        } else {
            0nat
        })
    }
}

/// The number of characters in `s`: the number of char-start bytes.
pub open spec fn char_count(s: Seq<u8>) -> nat {
    starts_in_prefix(s, s.len() as int)
}

/// The byte offset of the `k`-th char-start byte at offset `i` or later
/// (`k` counts from 1), or `s.len()` when there is no such byte.
pub open spec fn start_offset_from(s: Seq<u8>, i: int, k: nat) -> int
    decreases s.len() - i,
{
    if i < 0 || i >= s.len() {
        s.len() as int
    } else if is_char_start(s[i]) && k <= 1 {
        i
    } else if is_char_start(s[i]) {
        start_offset_from(s, i + 1, (k - 1) as nat)
    } else {
        start_offset_from(s, i + 1, k)
    }
}

/// The byte offset of the first byte of character `p` (1-based).
/// Meaningful when `1 <= p <= char_count(s)`; otherwise `s.len()`.
pub open spec fn start_offset(s: Seq<u8>, p: nat) -> int {
    start_offset_from(s, 0, p)
}

/// The byte offset just past the last byte of character `p` (1-based):
/// the offset of the next char-start byte, or `s.len()` when character
/// `p` is the last one.  Meaningful when `1 <= p <= char_count(s)`.
pub open spec fn end_offset(s: Seq<u8>, p: nat) -> int {
    start_offset_from(s, 0, p + 1)
}

/// Failure of a character-position lookup: the position is zero or
/// exceeds the line's character count.
#[derive(Clone, Copy, Debug, PartialEq, Eq, Structural)]
pub enum IndexError {
    PositionOutOfRange,
}

/// The number of characters in `line`.
pub fn count_chars(line: &[u8]) -> (n: usize)
    ensures
        n == char_count(line@),
{
    let mut i: usize = 0;
    let mut n: usize = 0;
    while i < line.len()
        invariant
            i <= line.len(),
            n == starts_in_prefix(line@, i as int),
            n <= i,
        decreases line.len() - i,
    {
        let b = line[i];
        if b < 0x80 || b >= 0xC0 {
            n = n + 1;
        }
        i = i + 1;
    }
    n
}

/// The byte offset of the first byte of character `char_pos` (1-based),
/// or `PositionOutOfRange` when `char_pos` is zero or exceeds the
/// character count.
pub fn start_idx(line: &[u8], char_pos: usize) -> (r: Result<usize, IndexError>)
    ensures
        r is Err <==> (char_pos == 0 || char_count(line@) < char_pos),
        r matches Ok(i) ==> i == start_offset(line@, char_pos as nat) && i < line@.len(),
{
    let count = count_chars(line);
    if char_pos == 0 || count < char_pos {
        return Err(IndexError::PositionOutOfRange);
    }
    let ghost s = line@;
    let mut i: usize = 0;
    let mut k: usize = char_pos;
    while i < line.len()
        invariant
            0 <= i <= line.len(),
            1 <= k <= char_pos,
            char_count(s) >= char_pos,
            s == line@,
            start_offset(s, char_pos as nat) == start_offset_from(s, i as int, k as nat),
            starts_in_prefix(s, i as int) == char_pos - k,
        decreases line.len() - i,
    {
        let b = line[i];
        if b < 0x80 || b >= 0xC0 {
            if k == 1 {
                return Ok(i);
            }
            k = k - 1;
        }
        i = i + 1;
    }
    proof {
        assert(starts_in_prefix(s, line@.len() as int) == char_pos - k);
        assert(false);
    }
    Err(IndexError::PositionOutOfRange)
}

/// The byte offset just past the last byte of character `char_pos`
/// (1-based), or `PositionOutOfRange` when `char_pos` is zero or exceeds
/// the character count.
pub fn end_idx(line: &[u8], char_pos: usize) -> (r: Result<usize, IndexError>)
    ensures
        r is Err <==> (char_pos == 0 || char_count(line@) < char_pos),
        r matches Ok(i) ==> i == end_offset(line@, char_pos as nat) && i <= line@.len(),
{
    let count = count_chars(line);
    if char_pos == 0 || count < char_pos {
        return Err(IndexError::PositionOutOfRange);
    }
    let ghost s = line@;
    let mut i: usize = 0;
    let mut k: usize = char_pos;
    while i < line.len()
        invariant
            0 <= i <= line.len(),
            1 <= k <= char_pos,
            char_count(s) >= char_pos,
            s == line@,
            end_offset(s, char_pos as nat) == start_offset_from(s, i as int, (k + 1) as nat),
            starts_in_prefix(s, i as int) == char_pos - k,
        decreases line.len() - i,
    {
        let b = line[i];
        if b < 0x80 || b >= 0xC0 {
            if k == 1 {
                // `i` begins character `char_pos`; scan for the next
                // char-start byte (or the end of the line).
                let mut j: usize = i + 1;
                while j < line.len()
                    invariant
                        i < j <= line.len(),
                        s == line@,
                        1 <= char_pos,
                        char_count(s) >= char_pos,
                        end_offset(s, char_pos as nat) == start_offset_from(s, j as int, 1),
                    decreases line.len() - j,
                {
                    let c = line[j];
                    if c < 0x80 || c >= 0xC0 {
                        return Ok(j);
                    }
                    j = j + 1;
                }
                return Ok(j);
            }
            k = k - 1;
        }
        i = i + 1;
    }
    proof {
        assert(starts_in_prefix(s, line@.len() as int) == char_pos - k);
        assert(false);
    }
    Err(IndexError::PositionOutOfRange)
}

} // verus!
