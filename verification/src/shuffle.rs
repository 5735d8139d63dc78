//! Shuffling: an in-place random permutation of the token sequence.

use crate::tokens::views;
use vstd::pervasive::VecAdditionalExecFns;
use vstd::prelude::*;

verus! {

/// Relies on rand::random_range over `0..bound`: the result is drawn
/// from that range (uniformly, which no contract here states), so it is
/// strictly below `bound`.  The range is non-empty, so the call does not
/// panic.
#[verifier::external_body]
fn random_below(bound: usize) -> (r: usize)
    requires
        bound > 0,
    ensures
        r < bound,
{
    rand::random_range(0..bound)
}

/// Exchanging two positions preserves the multiset of elements.
proof fn lemma_swap_multiset<A>(v: Seq<A>, i: int, j: int)
    requires
        0 <= i < v.len(),
        0 <= j < v.len(),
        i != j,
    ensures
        v.update(i, v[j]).update(j, v[i]).to_multiset() == v.to_multiset(),
{
    broadcast use vstd::seq_lib::to_multiset_update;
    broadcast use vstd::seq_lib::to_multiset_contains;
    broadcast use vstd::multiset::group_multiset_axioms;

    let w = v.update(i, v[j]);
    assert(v.contains(v[i]));
    assert(v.contains(v[j]));
    assert(w[j] == v[j]);
    assert(w.update(j, v[i]).to_multiset() =~= v.to_multiset());
}

/// A random permutation of `tokens`, in place, by the Fisher-Yates
/// method: the multiset of tokens is preserved, their order is whatever
/// the randomness source made of it.
pub fn shuffle(tokens: &mut Vec<Vec<u8>>)
    ensures
        final(tokens)@.len() == old(tokens)@.len(),
        views(final(tokens)@).to_multiset() == views(old(tokens)@).to_multiset(),
{
    let mut k = tokens.len();
    while k > 1
        invariant
            k <= tokens@.len(),
            tokens@.len() == old(tokens)@.len(),
            views(tokens@).to_multiset() == views(old(tokens)@).to_multiset(),
        decreases k,
    {
        let j = random_below(k);
        k = k - 1;
        if j != k {
            let ghost before = tokens@;
            let mut tmp: Vec<u8> = Vec::new();
            tokens.set_and_swap(k, &mut tmp);
            tokens.set_and_swap(j, &mut tmp);
            tokens.set_and_swap(k, &mut tmp);
            proof {
                assert(tokens@ =~= before.update(k as int, before[j as int]).update(
                    j as int,
                    before[k as int],
                ));
                assert(views(tokens@) =~= views(before).update(k as int, before[j as int]@).update(
                    j as int,
                    before[k as int]@,
                ));
                assert(views(before)[j as int] == before[j as int]@);
                assert(views(before)[k as int] == before[k as int]@);
                lemma_swap_multiset(views(before), k as int, j as int);
            }
        }
    }
}

} // verus!
