//! Line assembly: joining the final tokens and splicing them back
//! between the line's untouched prefix and suffix.

use crate::span::ByteSpan;
use crate::tokens::{sub_bytes, views};
use vstd::prelude::*;

verus! {

/// The tokens joined by `sep`, in order.
pub open spec fn join_bytes(ts: Seq<Seq<u8>>, sep: Seq<u8>) -> Seq<u8>
    decreases ts.len(),
{
    if ts.len() == 0 {
        Seq::empty()
    } else if ts.len() == 1 {
        ts[0]
    } else {
        join_bytes(ts.drop_last(), sep) + sep + ts.last()
    }
}

/// The three parts of an output line: the untouched prefix, the joined
/// (possibly recolored) token segment, and the untouched suffix.  Any
/// highlight color wraps exactly the middle part.
#[derive(Clone, Debug)]
pub struct OutputParts {
    pub prefix: Vec<u8>,
    pub middle: Vec<u8>,
    pub suffix: Vec<u8>,
}

impl OutputParts {
    /// The full output line.
    pub fn to_line(&self) -> (r: Vec<u8>)
        ensures
            r@ == self.prefix@ + self.middle@ + self.suffix@,
    {
        let mut r: Vec<u8> = Vec::new();
        append_bytes(&mut r, self.prefix.as_slice());
        append_bytes(&mut r, self.middle.as_slice());
        append_bytes(&mut r, self.suffix.as_slice());
        proof {
            assert(r@ =~= self.prefix@ + self.middle@ + self.suffix@);
        }
        r
    }
}

/// Appends all of `s` to `r`.
pub(crate) fn append_bytes(r: &mut Vec<u8>, s: &[u8])
    ensures
        final(r)@ == old(r)@ + s@,
{
    let mut i: usize = 0;
    while i < s.len()
        invariant
            i <= s@.len(),
            r@ =~= old(r)@ + s@.take(i as int),
        decreases s@.len() - i,
    {
        r.push(s[i]);
        proof {
            assert(r@ =~= old(r)@ + s@.take(i + 1));
        }
        i = i + 1;
    }
    proof {
        assert(r@ =~= old(r)@ + s@);
    }
}

/// The tokens joined by `sep`.
pub fn join_tokens(ts: &Vec<Vec<u8>>, sep: &[u8]) -> (r: Vec<u8>)
    ensures
        r@ == join_bytes(views(ts@), sep@),
{
    let mut r: Vec<u8> = Vec::new();
    let mut i: usize = 0;
    while i < ts.len()
        invariant
            i <= ts@.len(),
            r@ == join_bytes(views(ts@).take(i as int), sep@),
        decreases ts@.len() - i,
    {
        if i > 0 {
            append_bytes(&mut r, sep);
        }
        append_bytes(&mut r, ts[i].as_slice());
        proof {
            let all = views(ts@);
            assert(all.take(i + 1).drop_last() =~= all.take(i as int));
            assert(all.take(i + 1).last() == all[i as int]);
            assert(all[i as int] == ts@[i as int]@);
            if i == 0 {
                assert(r@ =~= all.take(1)[0]);
            }
        }
        i = i + 1;
    }
    proof {
        assert(views(ts@).take(ts@.len() as int) =~= views(ts@));
    }
    r
}

/// Splices the joined tokens between the line's prefix and suffix:
/// `line[0..start] + join(tokens, sep) + line[end..total_len]`, with the
/// prefix suppressed entirely in hide mode (the suffix is kept).
pub fn assemble(line: &[u8], span: ByteSpan, tokens: &Vec<Vec<u8>>, sep: &[u8], hide: bool) -> (r:
    OutputParts)
    requires
        span.wf(line@.len()),
    ensures
        r.prefix@ == if hide {
            Seq::<u8>::empty()
        } else {
            line@.subrange(0, span.start as int)
        },
        r.middle@ == join_bytes(views(tokens@), sep@),
        r.suffix@ == line@.subrange(span.end as int, span.total_len as int),
{
    let prefix = if hide {
        Vec::new()
    } else {
        sub_bytes(line, 0, span.start)
    };
    let middle = join_tokens(tokens, sep);
    let suffix = sub_bytes(line, span.end, span.total_len);
    OutputParts { prefix, middle, suffix }
}

} // verus!
