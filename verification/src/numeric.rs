//! Numeric range generation: the decimal-string tokens of `[lo, hi)`.

use crate::tokens::views;
use vstd::prelude::*;

verus! {

/// The decimal digits of `n`, most significant first.
pub open spec fn dec_digits(n: nat) -> Seq<u8>
    decreases n,
{
    if n < 10 {
        seq![(48 + n) as u8]
    } else {
        dec_digits(n / 10).push((48 + n % 10) as u8)
    }
}

/// The decimal representation of `v`: a leading `-` for negative values,
/// then the digits of the magnitude.
pub open spec fn dec_bytes(v: int) -> Seq<u8> {
    if v < 0 {
        seq![45u8] + dec_digits((-v) as nat)
    } else {
        dec_digits(v as nat)
    }
}

/// The decimal digits of `n`.
fn dec_of_u64(n: u64) -> (r: Vec<u8>)
    ensures
        r@ == dec_digits(n as nat),
    decreases n,
{
    if n < 10 {
        let mut r: Vec<u8> = Vec::new();
        r.push(48 + (n as u8));
        proof {
            assert(r@ =~= dec_digits(n as nat));
        }
        r
    } else {
        let mut r = dec_of_u64(n / 10);
        r.push(48 + ((n % 10) as u8));
        r
    }
}

/// The decimal representation of `n`, as `i64::to_string` produces it.
pub fn dec_of_i64(n: i64) -> (r: Vec<u8>)
    ensures
        r@ == dec_bytes(n as int),
{
    if n < 0 {
        let m: u64 = (-(n as i128)) as u64;
        let mut r: Vec<u8> = Vec::new();
        r.push(45);
        let mut digits = dec_of_u64(m);
        r.append(&mut digits);
        proof {
            assert(m as nat == (-(n as int)) as nat);
            assert(r@ =~= seq![45u8] + dec_digits((-(n as int)) as nat));
        }
        r
    } else {
        dec_of_u64(n as u64)
    }
}

/// The ordered decimal-string tokens of the integers in `[lo, hi)`:
/// empty when `lo >= hi`, otherwise `hi - lo` consecutive values in
/// ascending order starting at `lo`.
pub fn generate_range(lo: i64, hi: i64) -> (r: Vec<Vec<u8>>)
    ensures
        r@.len() == if lo <= hi {
            hi - lo
        } else {
            0
        },
        forall|k: int| 0 <= k < r@.len() ==> views(r@)[k] == dec_bytes(lo + k),
{
    let mut r: Vec<Vec<u8>> = Vec::new();
    if lo >= hi {
        return r;
    }
    let mut i: i64 = lo;
    while i < hi
        invariant
            lo <= i <= hi,
            r@.len() == i - lo,
            forall|k: int| 0 <= k < r@.len() ==> views(r@)[k] == dec_bytes(lo + k),
        decreases hi - i,
    {
        let t = dec_of_i64(i);
        let ghost prev = r@;
        r.push(t);
        proof {
            assert forall|k: int| 0 <= k < r@.len() implies views(r@)[k] == dec_bytes(
                lo + k,
            ) by {
                assert(views(r@)[k] == r@[k]@);
                if k < prev.len() {
                    assert(r@[k] == prev[k]);
                    assert(views(prev)[k] == prev[k]@);
                }
            }
        }
        i = i + 1;
    }
    r
}

} // verus!
