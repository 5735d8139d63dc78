//! Tokenization: splitting a selected sub-range into tokens.
//!
//! A non-empty delimiter splits on its non-overlapping first occurrences,
//! left to right, exactly as `str::split` does.  An empty delimiter is
//! special-cased: each character group (see `crate::indexer`) becomes one
//! token, with no empty tokens at the ends.

use crate::indexer::is_char_start;
use crate::locator::{find_first, find_sub, lemma_find_from_some};
use vstd::prelude::*;

verus! {

/// The views of a sequence of byte vectors.
pub open spec fn views(ts: Seq<Vec<u8>>) -> Seq<Seq<u8>> {
    ts.map_values(|t: Vec<u8>| t@)
}

/// The tokens of `s` under the non-empty delimiter `d`, splitting on the
/// first occurrence of `d`, left to right; `s` itself when `d` does not
/// occur (so the empty input yields one empty token, as `str::split`
/// reports it).
pub open spec fn split_bytes(s: Seq<u8>, d: Seq<u8>) -> Seq<Seq<u8>>
    decreases s.len(),
{
    if d.len() == 0 {
        seq![s]
    } else {
        match find_first(s, d) {
            Some(i) => {
                proof {
                    lemma_find_from_some(s, d, 0, i);
                }
                seq![s.take(i)] + split_bytes(s.skip(i + d.len()), d)
            },
            None => seq![s],
        }
    }
}

/// The character groups of `s`, one token each: a char-start byte begins
/// a new token and a continuation byte extends the current one.
pub open spec fn split_chars(s: Seq<u8>) -> Seq<Seq<u8>>
    decreases s.len(),
{
    if s.len() == 0 {
        Seq::empty()
    } else {
        let rest = split_chars(s.drop_first());
        if s.len() > 1 && !is_char_start(s[1]) {
            seq![seq![s[0]] + rest[0]] + rest.skip(1)
        } else {
            seq![seq![s[0]]] + rest
        }
    }
}

/// The character-group split of a non-empty sequence is non-empty.
pub proof fn lemma_split_chars_len(s: Seq<u8>)
    requires
        s.len() > 0,
    ensures
        split_chars(s).len() > 0,
    decreases s.len(),
{
    if s.len() > 1 && !is_char_start(s[1]) {
        lemma_split_chars_len(s.drop_first());
    }
}

/// Copy of the byte range `[from, to)` of `s`.
pub(crate) fn sub_bytes(s: &[u8], from: usize, to: usize) -> (r: Vec<u8>)
    requires
        from <= to <= s@.len(),
    ensures
        r@ == s@.subrange(from as int, to as int),
{
    let mut r: Vec<u8> = Vec::new();
    let mut i: usize = from;
    while i < to
        invariant
            from <= i <= to <= s@.len(),
            r@ =~= s@.subrange(from as int, i as int),
        decreases to - i,
    {
        r.push(s[i]);
        proof {
            assert(r@ =~= s@.subrange(from as int, i + 1));
        }
        i = i + 1;
    }
    proof {
        assert(r@ =~= s@.subrange(from as int, to as int));
    }
    r
}

/// The tokens of `s` under delimiter `d`: `str::split` semantics for a
/// non-empty `d`, one token per character group for an empty `d`.
pub fn split_tokens(s: &[u8], d: &[u8]) -> (r: Vec<Vec<u8>>)
    ensures
        views(r@) == if d@.len() == 0 {
            split_chars(s@)
        } else {
            split_bytes(s@, d@)
        },
{
    if d.len() == 0 {
        split_by_chars(s)
    } else {
        split_by_delim(s, d)
    }
}

/// Splitting by a non-empty delimiter, mirroring the recursion of
/// `split_bytes`.
fn split_by_delim(s: &[u8], d: &[u8]) -> (r: Vec<Vec<u8>>)
    requires
        d@.len() > 0,
    ensures
        views(r@) == split_bytes(s@, d@),
    decreases s@.len(),
{
    match find_sub(s, d) {
        Some(i) => {
            proof {
                lemma_find_from_some(s@, d@, 0, i as int);
            }
            let n = s.len();
            let head = sub_bytes(s, 0, i);
            let rest = sub_bytes(s, i + d.len(), n);
            let mut tail = split_by_delim(rest.as_slice(), d);
            let ghost tail_view = views(tail@);
            let mut r: Vec<Vec<u8>> = Vec::new();
            r.push(head);
            r.append(&mut tail);
            proof {
                assert(views(r@) =~= seq![head@] + tail_view);
                assert(s@.take(i as int) =~= s@.subrange(0, i as int));
                assert(rest@ =~= s@.skip(i + d@.len()));
                assert(views(r@) =~= split_bytes(s@, d@));
            }
            r
        },
        None => {
            let whole = sub_bytes(s, 0, s.len());
            let mut r: Vec<Vec<u8>> = Vec::new();
            r.push(whole);
            proof {
                assert(whole@ =~= s@);
                assert(views(r@) =~= seq![s@]);
            }
            r
        },
    }
}

/// Splitting into character groups, mirroring the recursion of
/// `split_chars` from the back of the line.
fn split_by_chars(s: &[u8]) -> (r: Vec<Vec<u8>>)
    ensures
        views(r@) == split_chars(s@),
{
    let mut r: Vec<Vec<u8>> = Vec::new();
    let mut i: usize = s.len();
    while i > 0
        invariant
            i <= s@.len(),
            views(r@) == split_chars(s@.skip(i as int)),
        decreases i,
    {
        i = i - 1;
        let b = s[i];
        let ghost suffix = s@.skip(i as int);
        proof {
            assert(suffix.drop_first() =~= s@.skip(i + 1));
            assert(suffix[0] == s@[i as int]);
        }
        if i + 1 < s.len() && !(s[i + 1] < 0x80 || s[i + 1] >= 0xC0) {
            // `s[i + 1]` continues the group begun at `s[i]`: widen the
            // first token.
            proof {
                lemma_split_chars_len(s@.skip(i + 1));
            }
            let mut head = r.remove(0);
            head.insert(0, b);
            r.insert(0, head);
            proof {
                assert(head@ =~= seq![suffix[0]] + split_chars(suffix.drop_first())[0]);
                assert(views(r@) =~= split_chars(suffix));
            }
        } else {
            let mut head: Vec<u8> = Vec::new();
            head.push(b);
            r.insert(0, head);
            proof {
                assert(head@ =~= seq![suffix[0]]);
                assert(views(r@) =~= split_chars(suffix));
            }
        }
    }
    proof {
        assert(s@.skip(0) =~= s@);
    }
    r
}

} // verus!
