//! The per-line pipeline: locate the selection, tokenize and filter it,
//! apply the range override and the shuffle, and assemble the output.

use crate::assemble::{assemble, join_bytes, OutputParts};
use crate::config::{Config, SelectionMode};
use crate::filter::{filter_retained, filter_tokens};
use crate::indexer::{char_count, end_idx, end_offset, start_idx, start_offset};
use crate::locator::{find_start_end, locate_bounds};
use crate::numeric::{dec_bytes, generate_range};
use crate::shuffle::shuffle;
use crate::span::ByteSpan;
use crate::tokens::{split_bytes, split_chars, split_tokens, sub_bytes, views};
use vstd::prelude::*;

verus! {

/// The line the pipeline actually works on: empty in clear mode.
pub open spec fn effective_line(cfg: Config, line: Seq<u8>) -> Seq<u8> {
    if cfg.clear {
        Seq::empty()
    } else {
        line
    }
}

/// A 1-based character position clamped to the line's byte length when
/// out of range, resolved to the first byte of its character otherwise.
pub open spec fn clamped_start(l: Seq<u8>, p: nat) -> int {
    if p == 0 || char_count(l) < p {
        l.len() as int
    } else {
        start_offset(l, p)
    }
}

/// A 1-based character position clamped to the line's byte length when
/// out of range, resolved to just past its character otherwise.
pub open spec fn clamped_end(l: Seq<u8>, p: nat) -> int {
    if p == 0 || char_count(l) < p {
        l.len() as int
    } else {
        end_offset(l, p)
    }
}

/// The selection bounds of the positions mode: both positions clamped,
/// and the empty end-of-line selection when they cross.
pub open spec fn positions_bounds(l: Seq<u8>, p1: nat, p2: nat) -> (int, int) {
    let a = clamped_start(l, p1);
    let b = clamped_end(l, p2);
    if a > b {
        (l.len() as int, l.len() as int)
    } else {
        (a, b)
    }
}

/// The `(start, end)` selection bounds of the line; `(0, 0)` for an
/// empty line or when nothing selects.
pub open spec fn selection_bounds(cfg: Config, l: Seq<u8>) -> (int, int) {
    if l.len() == 0 {
        (0, 0)
    } else {
        match cfg.selection {
            SelectionMode::Unselected => (0, 0),
            SelectionMode::Markers(sp, ep) => locate_bounds(l, sp@, ep@),
            SelectionMode::Positions(p1, p2) => positions_bounds(l, p1 as nat, p2 as nat),
        }
    }
}

/// The retained tokens of the selected text: none at all when the line
/// is empty or nothing selects.
pub open spec fn selection_tokens(cfg: Config, l: Seq<u8>) -> Seq<Seq<u8>> {
    if l.len() == 0 || cfg.selection is Unselected {
        Seq::empty()
    } else {
        let text = l.subrange(selection_bounds(cfg, l).0, selection_bounds(cfg, l).1);
        let split = if cfg.delimiter@.len() == 0 {
            split_chars(text)
        } else {
            split_bytes(text, cfg.delimiter@)
        };
        filter_tokens(split, views(cfg.exclusions@), cfg.predicate)
    }
}

/// The decimal-string tokens of `[lo, hi)`.
pub open spec fn range_tokens(lo: int, hi: int) -> Seq<Seq<u8>> {
    Seq::new(if lo <= hi { (hi - lo) as nat } else { 0nat }, |k: int| dec_bytes(lo + k))
}

/// The tokens the output is built from: the generated range when the
/// range override is active, the selection's retained tokens otherwise.
pub open spec fn final_tokens(cfg: Config, l: Seq<u8>) -> Seq<Seq<u8>> {
    match cfg.range {
        Some((lo, hi)) => range_tokens(lo as int, hi as int),
        None => selection_tokens(cfg, l),
    }
}

/// The separator the output tokens are joined by.
pub open spec fn sep_of(cfg: Config) -> Seq<u8> {
    match cfg.separator {
        Some(s) => s@,
        None => cfg.delimiter@,
    }
}

/// The untouched prefix of the output: empty in hide mode.
pub open spec fn out_prefix(cfg: Config, l: Seq<u8>) -> Seq<u8> {
    if cfg.hide {
        Seq::empty()
    } else {
        l.subrange(0, selection_bounds(cfg, l).0)
    }
}

/// The untouched suffix of the output.
pub open spec fn out_suffix(cfg: Config, l: Seq<u8>) -> Seq<u8> {
    l.subrange(selection_bounds(cfg, l).1, l.len() as int)
}

/// The whole output line when no shuffle reorders the tokens.
pub open spec fn output_line(cfg: Config, line: Seq<u8>) -> Seq<u8> {
    let l = effective_line(cfg, line);
    out_prefix(cfg, l) + join_bytes(final_tokens(cfg, l), sep_of(cfg)) + out_suffix(cfg, l)
}

/// The selection span of the positions mode: both positions clamped to
/// the end of the line when out of range, the empty end-of-line span
/// when the clamped offsets cross.
pub fn span_from_positions(l: &[u8], p1: usize, p2: usize) -> (r: ByteSpan)
    ensures
        r.start == positions_bounds(l@, p1 as nat, p2 as nat).0,
        r.end == positions_bounds(l@, p1 as nat, p2 as nat).1,
        r.total_len == l@.len(),
        r.wf(l@.len()),
{
    let total_len = l.len();
    let a = match start_idx(l, p1) {
        Ok(v) => v,
        Err(_) => total_len,
    };
    let b = match end_idx(l, p2) {
        Ok(v) => v,
        Err(_) => total_len,
    };
    if a > b {
        ByteSpan { start: total_len, end: total_len, total_len }
    } else {
        ByteSpan { start: a, end: b, total_len }
    }
}

/// The selection span of the line under the configuration.
fn selection_span(cfg: &Config, l: &[u8]) -> (r: ByteSpan)
    ensures
        r.start == selection_bounds(*cfg, l@).0,
        r.end == selection_bounds(*cfg, l@).1,
        r.total_len == l@.len(),
        r.wf(l@.len()),
{
    if l.len() == 0 {
        return ByteSpan::empty(0);
    }
    match &cfg.selection {
        SelectionMode::Unselected => ByteSpan::empty(l.len()),
        SelectionMode::Markers(sp, ep) => find_start_end(l, sp.as_slice(), ep.as_slice()),
        SelectionMode::Positions(p1, p2) => span_from_positions(l, *p1, *p2),
    }
}

/// Processes one line: locates the selection, tokenizes and filters it,
/// applies the range override and the shuffle, and splices the joined
/// tokens back between the line's prefix and suffix.
///
/// The prefix and suffix are exact.  Without a shuffle the middle part
/// is exactly the retained (or generated) tokens joined by the output
/// separator; with a shuffle it is some permutation of them, joined the
/// same way.
pub fn process_line(cfg: &Config, line: &[u8]) -> (out: OutputParts)
    ensures
        out.prefix@ == out_prefix(*cfg, effective_line(*cfg, line@)),
        out.suffix@ == out_suffix(*cfg, effective_line(*cfg, line@)),
        !cfg.shuffle ==> out.middle@ == join_bytes(
            final_tokens(*cfg, effective_line(*cfg, line@)),
            sep_of(*cfg),
        ),
        !cfg.shuffle ==> out.prefix@ + out.middle@ + out.suffix@ == output_line(*cfg, line@),
        cfg.shuffle ==> (exists|perm: Seq<Seq<u8>>|
            perm.to_multiset() == final_tokens(*cfg, effective_line(*cfg, line@)).to_multiset()
                && out.middle@ == join_bytes(perm, sep_of(*cfg))),
{
    let cleared: Vec<u8> = Vec::new();
    let l: &[u8] = if cfg.clear {
        cleared.as_slice()
    } else {
        line
    };
    let ghost lv = effective_line(*cfg, line@);
    proof {
        assert(l@ == lv);
    }
    let span = selection_span(cfg, l);
    let mut tokens: Vec<Vec<u8>> = if l.len() > 0 && !matches!(&cfg.selection,
    SelectionMode::Unselected) {
        let text = sub_bytes(l, span.start, span.end);
        let split = split_tokens(text.as_slice(), cfg.delimiter.as_slice());
        filter_retained(split, &cfg.exclusions, cfg.predicate)
    } else {
        Vec::new()
    };
    proof {
        assert(views(tokens@) == selection_tokens(*cfg, lv));
    }
    match cfg.range {
        Some((lo, hi)) => {
            tokens = generate_range(lo, hi);
            proof {
                assert(views(tokens@) =~~= range_tokens(lo as int, hi as int));
            }
        },
        None => {},
    }
    proof {
        assert(views(tokens@) == final_tokens(*cfg, lv));
    }
    if cfg.shuffle {
        shuffle(&mut tokens);
    }
    let sep: &[u8] = match &cfg.separator {
        Some(s) => s.as_slice(),
        None => cfg.delimiter.as_slice(),
    };
    let out = assemble(l, span, &tokens, sep, cfg.hide);
    proof {
        assert(sep@ == sep_of(*cfg));
        if !cfg.shuffle {
            assert(out.prefix@ + out.middle@ + out.suffix@ == output_line(*cfg, line@));
        } else {
            let perm = views(tokens@);
            assert(perm.to_multiset() == final_tokens(*cfg, lv).to_multiset() && out.middle@
                == join_bytes(perm, sep_of(*cfg)));
        }
    }
    out
}

} // verus!
