//! Marker location: the byte-offset span of the sub-range delimited by a
//! start marker and an end marker, both searched independently over the
//! whole line.

use crate::span::ByteSpan;
use vstd::prelude::*;

verus! {

/// `pat` occurs in `s` at byte offset `i`.
pub open spec fn is_match_at(s: Seq<u8>, pat: Seq<u8>, i: int) -> bool {
    0 <= i && i + pat.len() <= s.len() && s.subrange(i, i + pat.len()) == pat
}

/// The first occurrence of `pat` in `s` at offset `i` or later.
pub open spec fn find_from(s: Seq<u8>, pat: Seq<u8>, i: int) -> Option<int>
    decreases s.len() - i,
{
    if i < 0 || i + pat.len() > s.len() {
        None
    } else if is_match_at(s, pat, i) {
        Some(i)
    } else {
        proof {
            if pat.len() == 0 {
                assert(s.subrange(i, i + pat.len()) =~= pat);
            }
        }
        find_from(s, pat, i + 1)
    }
}

/// The first occurrence of `pat` in `s`, as `str::find` reports it.
pub open spec fn find_first(s: Seq<u8>, pat: Seq<u8>) -> Option<int> {
    find_from(s, pat, 0)
}

/// A found offset is a match, lies at or after the scan start, and is
/// preceded by no other match.
pub proof fn lemma_find_from_some(s: Seq<u8>, pat: Seq<u8>, i: int, j: int)
    requires
        0 <= i,
        find_from(s, pat, i) == Some(j),
    ensures
        i <= j,
        is_match_at(s, pat, j),
        forall|m: int| i <= m < j ==> !is_match_at(s, pat, m),
    decreases s.len() - i,
{
    if i + pat.len() <= s.len() && !is_match_at(s, pat, i) {
        assert(pat.len() > 0) by {
            if pat.len() == 0 {
                assert(s.subrange(i, i + pat.len()) =~= pat);
            }
        }
        lemma_find_from_some(s, pat, i + 1, j);
    }
}

/// When the scan reports no occurrence, there is none at or after `i`.
pub proof fn lemma_find_from_none(s: Seq<u8>, pat: Seq<u8>, i: int, m: int)
    requires
        0 <= i <= m,
        find_from(s, pat, i) is None,
    ensures
        !is_match_at(s, pat, m),
    decreases s.len() - i,
{
    if i + pat.len() <= s.len() && !is_match_at(s, pat, i) && m > i {
        assert(pat.len() > 0) by {
            if pat.len() == 0 {
                assert(s.subrange(i, i + pat.len()) =~= pat);
            }
        }
        lemma_find_from_none(s, pat, i + 1, m);
    }
}

/// The selection bounds `(start, end)` that the two markers determine:
/// the degenerate pair `(0, 0)` when either marker is absent or the
/// start marker's offset exceeds the end marker's offset; otherwise the
/// start marker's offset and the offset just past the end marker's match.
pub open spec fn locate_bounds(s: Seq<u8>, start_pat: Seq<u8>, end_pat: Seq<u8>) -> (int, int) {
    match (find_first(s, start_pat), find_first(s, end_pat)) {
        (Some(a), Some(b)) => if a > b {
            (0, 0)
        } else {
            (a, b + end_pat.len())
        },
        _ => (0, 0),
    }
}

/// Whether `pat` occurs at `i` in `s`, by direct byte comparison.
fn match_at(s: &[u8], pat: &[u8], i: usize) -> (r: bool)
    requires
        i + pat@.len() <= s@.len(),
    ensures
        r == is_match_at(s@, pat@, i as int),
{
    let _n = s.len();
    proof {
        assert(s@.len() <= usize::MAX);
    }
    let mut j: usize = 0;
    while j < pat.len()
        invariant
            j <= pat@.len(),
            i + pat@.len() <= s@.len(),
            s@.len() <= usize::MAX,
            s@.subrange(i as int, i + j) =~= pat@.take(j as int),
        decreases pat.len() - j,
    {
        proof {
            assert(i + j < s@.len());
        }
        if s[i + j] != pat[j] {
            proof {
                assert(s@.subrange(i as int, i + pat@.len())[j as int] == s@[i + j]);
                assert(pat@[j as int] != s@[i + j]);
            }
            return false;
        }
        proof {
            assert(s@.subrange(i as int, i + j + 1) =~= pat@.take(j + 1));
        }
        j = j + 1;
    }
    proof {
        assert(s@.subrange(i as int, i + pat@.len()) =~= pat@);
    }
    true
}

/// The byte offset of the first occurrence of `pat` in `s`, as
/// `str::find` would report it for the corresponding strings.
pub fn find_sub(s: &[u8], pat: &[u8]) -> (r: Option<usize>)
    ensures
        r is Some <==> find_first(s@, pat@) is Some,
        r matches Some(i) ==> find_first(s@, pat@) == Some(i as int),
{
    if pat.len() > s.len() {
        return None;
    }
    if pat.len() == 0 {
        proof {
            assert(is_match_at(s@, pat@, 0)) by {
                assert(s@.subrange(0, 0) =~= pat@);
            }
        }
        return Some(0);
    }
    let mut i: usize = 0;
    while i <= s.len() - pat.len()
        invariant
            1 <= pat@.len() <= s@.len(),
            0 <= i <= s@.len() - pat@.len() + 1,
            find_first(s@, pat@) == find_from(s@, pat@, i as int),
        decreases s.len() - pat.len() + 1 - i,
    {
        if match_at(s, pat, i) {
            return Some(i);
        }
        i = i + 1;
    }
    None
}

/// The span selected by the two markers: start at the first occurrence
/// of `start_pat`, end just past the first occurrence of `end_pat`
/// (searched independently over the whole line), with the degenerate
/// zero span when either marker is absent or the start offset exceeds
/// the end offset.  `total_len` is always the line's byte length.
pub fn find_start_end(line: &[u8], start_pat: &[u8], end_pat: &[u8]) -> (r: ByteSpan)
    ensures
        r.start == locate_bounds(line@, start_pat@, end_pat@).0,
        r.end == locate_bounds(line@, start_pat@, end_pat@).1,
        r.total_len == line@.len(),
        r.wf(line@.len()),
{
    let total_len = line.len();
    let start = match find_sub(line, start_pat) {
        Some(a) => a,
        None => {
            return ByteSpan { start: 0, end: 0, total_len };
        },
    };
    let end = match find_sub(line, end_pat) {
        Some(b) => b,
        None => {
            return ByteSpan { start: 0, end: 0, total_len };
        },
    };
    if start > end {
        return ByteSpan { start: 0, end: 0, total_len };
    }
    proof {
        lemma_find_from_some(line@, end_pat@, 0, end as int);
    }
    ByteSpan { start, end: end + end_pat.len(), total_len }
}

} // verus!
