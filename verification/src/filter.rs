//! Token filtering: classification predicates and exclusion sets.
//!
//! A token is retained iff no exclusion string is a substring of the
//! token and the configured predicate holds of it.

use crate::locator::{find_sub, is_match_at, lemma_find_from_none, lemma_find_from_some};
use crate::tokens::views;
use vstd::prelude::*;

verus! {

/// The per-token classification predicate.
///
/// `Always(flag)` retains every token iff `flag` (the identity filter
/// used when no classification flag is given, or its inversion).
/// `IsInteger(flag)` retains a token iff parsing it as a 64-bit signed
/// decimal integer succeeds exactly when `flag` says so.  `IsFloat`
/// deliberately re-tests integer parsing at 32-bit width, mirroring the
/// behaviour this filter has always had for its float option.
/// `IsAscii(flag)` retains a token iff it is all-ASCII exactly when
/// `flag` says so.
#[derive(Clone, Copy, Debug, PartialEq, Eq, Structural)]
pub enum FilterPredicate {
    Always(bool),
    IsInteger(bool),
    IsFloat(bool),
    IsAscii(bool),
}

/// An ASCII decimal digit.
pub open spec fn is_digit(b: u8) -> bool {
    48 <= b <= 57
}

/// The value of a sequence of decimal digits, most significant first.
pub open spec fn digits_val(s: Seq<u8>) -> int
    decreases s.len(),
{
    if s.len() == 0 {
        0
    } else {
        digits_val(s.drop_last()) * 10 + (s.last() - 48)
    }
}

/// Every byte of `s` is a decimal digit.
pub open spec fn is_digit_seq(s: Seq<u8>) -> bool {
    forall|i: int| 0 <= i < s.len() ==> is_digit(s[i])
}

/// The digits of an optionally signed decimal literal: everything after
/// a single leading `+` or `-`.
pub open spec fn int_body(s: Seq<u8>) -> Seq<u8> {
    if s.len() > 0 && (s[0] == 43 || s[0] == 45) {
        s.drop_first()
    } else {
        s
    }
}

/// The sign of an optionally signed decimal literal.
pub open spec fn int_sign(s: Seq<u8>) -> int {
    if s.len() > 0 && s[0] == 45 {
        -1
    } else {
        1
    }
}

/// `s` has the syntax of a signed decimal integer: an optional single
/// leading sign, then one or more digits and nothing else.
pub open spec fn int_syntax_ok(s: Seq<u8>) -> bool {
    int_body(s).len() > 0 && is_digit_seq(int_body(s))
}

/// The mathematical value of a well-formed signed decimal literal.
pub open spec fn int_value(s: Seq<u8>) -> int {
    int_sign(s) * digits_val(int_body(s))
}

/// `s` parses as a signed decimal integer within `[lo, hi]`, exactly as
/// `str::parse` for the integer type with that range.
pub open spec fn parses_as_int(s: Seq<u8>, lo: int, hi: int) -> bool {
    int_syntax_ok(s) && lo <= int_value(s) <= hi
}

/// Every byte of `s` is in the ASCII range.
pub open spec fn is_ascii_seq(s: Seq<u8>) -> bool {
    forall|i: int| 0 <= i < s.len() ==> s[i] < 128
}

/// Whether the predicate holds of a token.
pub open spec fn pred_holds(p: FilterPredicate, t: Seq<u8>) -> bool {
    match p {
        FilterPredicate::Always(flag) => flag,
        FilterPredicate::IsInteger(flag) => parses_as_int(
            t,
            -9223372036854775808,
            9223372036854775807,
        ) == flag,
        FilterPredicate::IsFloat(flag) => parses_as_int(t, -2147483648, 2147483647) == flag,
        FilterPredicate::IsAscii(flag) => is_ascii_seq(t) == flag,
    }
}

/// `needle` occurs somewhere in `hay`.
pub open spec fn contains_sub(hay: Seq<u8>, needle: Seq<u8>) -> bool {
    exists|i: int| is_match_at(hay, needle, i)
}

/// A token passes the filter: no exclusion string is a substring of it,
/// and the predicate holds of it.
pub open spec fn retained(t: Seq<u8>, excl: Seq<Seq<u8>>, p: FilterPredicate) -> bool {
    !(exists|k: int| 0 <= k < excl.len() && contains_sub(t, excl[k])) && pred_holds(p, t)
}

/// The retained tokens, in split order.
pub open spec fn filter_tokens(ts: Seq<Seq<u8>>, excl: Seq<Seq<u8>>, p: FilterPredicate) -> Seq<
    Seq<u8>,
>
    decreases ts.len(),
{
    if ts.len() == 0 {
        Seq::empty()
    } else {
        filter_tokens(ts.drop_last(), excl, p) + (if retained(ts.last(), excl, p) {
            seq![ts.last()]
        } else {
            Seq::empty()
        })
    }
}

/// Appending one digit multiplies the value by ten and adds the digit.
proof fn lemma_digits_val_push(s: Seq<u8>, b: u8)
    ensures
        digits_val(s.push(b)) == digits_val(s) * 10 + (b - 48),
{
    assert(s.push(b).drop_last() =~= s);
    assert(s.push(b).last() == b);
}

/// Whether `needle` occurs in `hay`, by scanning for its first match.
pub fn contains_sub_bytes(hay: &Vec<u8>, needle: &Vec<u8>) -> (r: bool)
    ensures
        r == contains_sub(hay@, needle@),
{
    match find_sub(hay.as_slice(), needle.as_slice()) {
        Some(i) => {
            proof {
                lemma_find_from_some(hay@, needle@, 0, i as int);
            }
            true
        },
        None => {
            proof {
                assert forall|m: int| !is_match_at(hay@, needle@, m) by {
                    if 0 <= m {
                        lemma_find_from_none(hay@, needle@, 0, m);
                    }
                }
            }
            false
        },
    }
}

/// `s` parses as a signed decimal integer of magnitude at most
/// `neg_cap` when negative and `pos_cap` otherwise.
fn parse_int_in_range(t: &[u8], neg_cap: u64, pos_cap: u64) -> (r: bool)
    ensures
        r == parses_as_int(t@, -(neg_cap as int), pos_cap as int),
{
    if t.len() == 0 {
        return false;
    }
    let first = t[0];
    let neg = first == 45;
    let start: usize = if first == 43 || first == 45 {
        1
    } else {
        0
    };
    if t.len() == start {
        // A bare sign has an empty digit body.
        return false;
    }
    let ghost body = t@.skip(start as int);
    proof {
        assert(body =~= int_body(t@));
    }
    let mut i: usize = start;
    let mut acc: u128 = 0;
    let mut big = false;
    while i < t.len()
        invariant
            start <= i <= t@.len(),
            body == int_body(t@),
            body =~= t@.skip(start as int),
            is_digit_seq(t@.subrange(start as int, i as int)),
            !big ==> acc == digits_val(t@.subrange(start as int, i as int)) && acc <= u64::MAX,
            big ==> digits_val(t@.subrange(start as int, i as int)) > u64::MAX,
        decreases t@.len() - i,
    {
        let b = t[i];
        if b < 48 || b > 57 {
            proof {
                assert(body[i - start] == t@[i as int]);
                assert(!is_digit(int_body(t@)[i - start]));
            }
            return false;
        }
        proof {
            let prefix = t@.subrange(start as int, i as int);
            assert(t@.subrange(start as int, i + 1) =~= prefix.push(t@[i as int]));
            lemma_digits_val_push(prefix, t@[i as int]);
        }
        if !big {
            acc = acc * 10 + ((b - 48) as u128);
            if acc > u64::MAX as u128 {
                big = true;
            }
        }
        i = i + 1;
    }
    proof {
        assert(t@.subrange(start as int, t@.len() as int) =~= body);
        assert(int_syntax_ok(t@));
    }
    if big {
        proof {
            assert(digits_val(body) > u64::MAX);
            if neg {
                assert(int_sign(t@) == -1);
                assert(int_value(t@) == -1 * digits_val(body));
                assert(int_value(t@) < -(neg_cap as int));
            } else {
                assert(int_sign(t@) == 1);
                assert(int_value(t@) == digits_val(body));
                assert(int_value(t@) > pos_cap as int);
            }
        }
        return false;
    }
    let cap = if neg {
        neg_cap
    } else {
        pos_cap
    };
    proof {
        assert(digits_val(body) == acc);
        if neg {
            assert(int_value(t@) == -1 * digits_val(body));
        } else {
            assert(int_sign(t@) == 1);
            assert(int_value(t@) == digits_val(body));
        }
    }
    acc <= cap as u128
}

/// Every byte of `t` is ASCII.
fn all_ascii(t: &[u8]) -> (r: bool)
    ensures
        r == is_ascii_seq(t@),
{
    let mut i: usize = 0;
    while i < t.len()
        invariant
            i <= t@.len(),
            forall|j: int| 0 <= j < i ==> t@[j] < 128,
        decreases t@.len() - i,
    {
        if t[i] >= 128 {
            return false;
        }
        i = i + 1;
    }
    true
}

/// Whether the predicate holds of one token.
pub fn eval_predicate(p: FilterPredicate, t: &Vec<u8>) -> (r: bool)
    ensures
        r == pred_holds(p, t@),
{
    match p {
        FilterPredicate::Always(flag) => flag,
        FilterPredicate::IsInteger(flag) => {
            let ok = parse_int_in_range(t.as_slice(), 9223372036854775808, 9223372036854775807);
            ok == flag
        },
        FilterPredicate::IsFloat(flag) => {
            let ok = parse_int_in_range(t.as_slice(), 2147483648, 2147483647);
            ok == flag
        },
        FilterPredicate::IsAscii(flag) => {
            let ok = all_ascii(t.as_slice());
            ok == flag
        },
    }
}

/// Whether one token passes the filter.
pub fn token_retained(t: &Vec<u8>, excl: &Vec<Vec<u8>>, p: FilterPredicate) -> (r: bool)
    ensures
        r == retained(t@, views(excl@), p),
{
    let mut k: usize = 0;
    while k < excl.len()
        invariant
            k <= excl@.len(),
            forall|m: int| 0 <= m < k ==> !contains_sub(t@, #[trigger] views(excl@)[m]),
        decreases excl@.len() - k,
    {
        if contains_sub_bytes(t, &excl[k]) {
            proof {
                assert(views(excl@)[k as int] == excl@[k as int]@);
            }
            return false;
        }
        k = k + 1;
    }
    eval_predicate(p, t)
}

/// The retained tokens of `tokens`, in order.
pub fn filter_retained(tokens: Vec<Vec<u8>>, excl: &Vec<Vec<u8>>, p: FilterPredicate) -> (r: Vec<
    Vec<u8>,
>)
    ensures
        views(r@) == filter_tokens(views(tokens@), views(excl@), p),
{
    let ghost all = views(tokens@);
    let mut rest = tokens;
    let mut r: Vec<Vec<u8>> = Vec::new();
    while rest.len() > 0
        invariant
            filter_tokens(all, views(excl@), p) == filter_tokens(views(rest@), views(excl@), p)
                + views(r@),
        decreases rest@.len(),
    {
        let ghost rest_prev = views(rest@);
        let t = match rest.pop() {
            Some(t) => t,
            None => {
                proof {
                    assert(false);
                }
                Vec::new()
            },
        };
        let ghost tv = t@;
        proof {
            assert(views(rest@) =~= rest_prev.drop_last());
            assert(rest_prev.last() == tv);
            assert(rest_prev.len() > 0);
        }
        if token_retained(&t, excl, p) {
            let ghost r_prev = views(r@);
            r.insert(0, t);
            proof {
                assert(views(r@) =~= seq![tv] + r_prev);
                assert(filter_tokens(rest_prev, views(excl@), p) + r_prev =~= filter_tokens(
                    views(rest@),
                    views(excl@),
                    p,
                ) + views(r@));
            }
        } else {
            proof {
                assert(filter_tokens(rest_prev, views(excl@), p) =~= filter_tokens(
                    views(rest@),
                    views(excl@),
                    p,
                ));
            }
        }
    }
    proof {
        assert(views(rest@).len() == 0);
        assert(filter_tokens(views(rest@), views(excl@), p) + views(r@) =~= views(r@));
    }
    r
}

} // verus!
