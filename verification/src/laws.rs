//! Pass-through laws: the soft-failure policies of the selection stages
//! guarantee that a line without a valid selection is reproduced
//! unchanged, and the filter keeps exactly the passing tokens.

use crate::assemble::join_bytes;
use crate::config::{Config, SelectionMode};
use crate::filter::{filter_tokens, retained, FilterPredicate};
use crate::indexer::char_count;
use crate::locator::{find_first, find_from};
use crate::pipeline::{output_line, selection_bounds, selection_tokens};
use crate::tokens::{split_bytes, split_chars};
use vstd::prelude::*;

verus! {

/// An empty selected text yields an empty joined token segment,
/// whatever the delimiter, the exclusions, the predicate and the
/// separator.
proof fn lemma_empty_text_joins_empty(
    d: Seq<u8>,
    excl: Seq<Seq<u8>>,
    p: FilterPredicate,
    sep: Seq<u8>,
)
    ensures
        join_bytes(
            filter_tokens(
                if d.len() == 0 {
                    split_chars(Seq::empty())
                } else {
                    split_bytes(Seq::empty(), d)
                },
                excl,
                p,
            ),
            sep,
        ) == Seq::<u8>::empty(),
{
    let e = Seq::<u8>::empty();
    if d.len() == 0 {
        assert(split_chars(e) == Seq::<Seq<u8>>::empty());
        assert(filter_tokens(Seq::<Seq<u8>>::empty(), excl, p) == Seq::<Seq<u8>>::empty());
    } else {
        assert(find_from(e, d, 0) is None);
        assert(split_bytes(e, d) == seq![e]);
        let one = seq![e];
        assert(one.drop_last() =~= Seq::<Seq<u8>>::empty());
        assert(filter_tokens(Seq::<Seq<u8>>::empty(), excl, p) == Seq::<Seq<u8>>::empty());
        assert(one.last() == e);
        if retained(e, excl, p) {
            assert(filter_tokens(one, excl, p) =~= seq![e]);
            assert(join_bytes(seq![e], sep) == e);
        } else {
            assert(filter_tokens(one, excl, p) =~= Seq::<Seq<u8>>::empty());
        }
    }
}

/// With no selection, no range override, and neither clear nor hide,
/// the output line equals the input line exactly: no split is
/// performed and the splice reproduces the whole line.
pub proof fn lemma_no_selection_passthrough(cfg: Config, line: Seq<u8>)
    requires
        cfg.selection is Unselected,
        cfg.range is None,
        !cfg.clear,
        !cfg.hide,
    ensures
        output_line(cfg, line) == line,
{
    assert(selection_bounds(cfg, line) == (0int, 0int));
    assert(selection_tokens(cfg, line) == Seq::<Seq<u8>>::empty());
    assert(line.subrange(0, 0) =~= Seq::<u8>::empty());
    assert(line.subrange(0, line.len() as int) =~= line);
    assert(output_line(cfg, line) =~= line);
}

/// When both character positions fall outside `[1, char_count(line)]`,
/// the clamp policy selects the empty span at the end of the line and
/// the output equals the untouched line.
pub proof fn lemma_positions_clamp_passthrough(cfg: Config, line: Seq<u8>, p1: usize, p2: usize)
    requires
        cfg.selection == SelectionMode::Positions(p1, p2),
        p1 == 0 || char_count(line) < p1 as nat,
        p2 == 0 || char_count(line) < p2 as nat,
        cfg.range is None,
        !cfg.clear,
        !cfg.hide,
    ensures
        selection_bounds(cfg, line) == (line.len() as int, line.len() as int),
        output_line(cfg, line) == line,
{
    let n = line.len() as int;
    assert(selection_bounds(cfg, line) == (n, n));
    if line.len() == 0 {
        assert(selection_tokens(cfg, line) == Seq::<Seq<u8>>::empty());
        assert(line.subrange(0, 0) =~= line);
        assert(output_line(cfg, line) =~= line);
    } else {
        assert(line.subrange(n, n) =~= Seq::<u8>::empty());
        lemma_empty_text_joins_empty(
            cfg.delimiter@,
            crate::tokens::views(cfg.exclusions@),
            cfg.predicate,
            crate::pipeline::sep_of(cfg),
        );
        assert(line.subrange(0, n) =~= line);
        assert(output_line(cfg, line) =~= line);
    }
}

/// When both markers are found but the start marker lies after the end
/// marker, the locator reports the degenerate zero span and the output
/// equals the untouched line.
pub proof fn lemma_inverted_markers_passthrough(
    cfg: Config,
    line: Seq<u8>,
    sp: Vec<u8>,
    ep: Vec<u8>,
    a: int,
    b: int,
)
    requires
        cfg.selection == SelectionMode::Markers(sp, ep),
        find_first(line, sp@) == Some(a),
        find_first(line, ep@) == Some(b),
        a > b,
        cfg.range is None,
        !cfg.clear,
        !cfg.hide,
    ensures
        selection_bounds(cfg, line) == (0int, 0int),
        output_line(cfg, line) == line,
{
    assert(selection_bounds(cfg, line) == (0int, 0int));
    if line.len() == 0 {
        assert(selection_tokens(cfg, line) == Seq::<Seq<u8>>::empty());
        assert(line.subrange(0, 0) =~= line);
        assert(output_line(cfg, line) =~= line);
    } else {
        assert(line.subrange(0, 0) =~= Seq::<u8>::empty());
        lemma_empty_text_joins_empty(
            cfg.delimiter@,
            crate::tokens::views(cfg.exclusions@),
            cfg.predicate,
            crate::pipeline::sep_of(cfg),
        );
        assert(line.subrange(0, line.len() as int) =~= line);
        assert(output_line(cfg, line) =~= line);
    }
}

/// A token occurs among the filtered tokens iff it occurs among the
/// input tokens and passes the filter: excluded by no exclusion string
/// and accepted by the predicate.
pub proof fn lemma_filter_membership(
    ts: Seq<Seq<u8>>,
    excl: Seq<Seq<u8>>,
    p: FilterPredicate,
    t: Seq<u8>,
)
    ensures
        filter_tokens(ts, excl, p).contains(t) <==> (ts.contains(t) && retained(t, excl, p)),
    decreases ts.len(),
{
    if ts.len() == 0 {
        assert(!filter_tokens(ts, excl, p).contains(t));
        assert(!ts.contains(t));
    } else {
        let head = ts.drop_last();
        lemma_filter_membership(head, excl, p, t);
        let fh = filter_tokens(head, excl, p);
        let tail = if retained(ts.last(), excl, p) {
            seq![ts.last()]
        } else {
            Seq::<Seq<u8>>::empty()
        };
        assert(filter_tokens(ts, excl, p) == fh + tail);
        if filter_tokens(ts, excl, p).contains(t) {
            let i = choose|i: int|
                0 <= i < (fh + tail).len() && (fh + tail)[i] == t;
            if i < fh.len() {
                assert(fh.contains(t));
                assert(head.contains(t));
                let j = choose|j: int| 0 <= j < head.len() && head[j] == t;
                assert(ts[j] == t);
                assert(ts.contains(t));
            } else {
                assert(tail[i - fh.len()] == t);
                assert(t == ts.last());
                assert(ts.contains(t));
            }
        }
        if ts.contains(t) && retained(t, excl, p) {
            let i = choose|i: int| 0 <= i < ts.len() && ts[i] == t;
            if i < ts.len() - 1 {
                assert(head[i] == t);
                assert(head.contains(t));
                assert(fh.contains(t));
                let j = choose|j: int| 0 <= j < fh.len() && fh[j] == t;
                assert((fh + tail)[j] == t);
                assert(filter_tokens(ts, excl, p).contains(t));
            } else {
                assert(ts.last() == t);
                assert(tail == seq![t]);
                assert((fh + tail)[fh.len() as int] == t);
                assert(filter_tokens(ts, excl, p).contains(t));
            }
        }
    }
}

} // verus!

