//! Exact k-nearest-neighbour selection over precomputed squared distances.
//!
//! Distances are given as the bit patterns of 32-bit floats, one per stored
//! vector, in the order of the vectors. They are ranked by IEEE-754's total
//! order, which on the non-negative finite values that squared distances take
//! agrees with their numeric order. Equal distances are ranked by ascending
//! identifier, so the result never depends on the order of a scan.

use vstd::prelude::*;

use crate::error::Error;

verus! {

/// The exponent bits of a 32-bit float.
pub const EXPONENT_MASK: u32 = 0x7f80_0000;

/// The sign bit of a 32-bit float.
pub const SIGN_BIT: u32 = 0x8000_0000;

/// The float whose bits are `bits` is neither infinite nor NaN.
pub open spec fn is_finite_bits(bits: u32) -> bool {
    bits & EXPONENT_MASK != EXPONENT_MASK
}

/// A key whose unsigned order is IEEE-754's total order on 32-bit floats.
pub open spec fn f32_order_key(bits: u32) -> u32 {
    if bits & SIGN_BIT != 0 {
        !bits
    } else {
        bits | SIGN_BIT
    }
}

/// Stored vector `i` ranks before stored vector `j`: it is nearer, or as
/// near with a smaller identifier.
pub open spec fn closer(d: Seq<u32>, i: int, j: int) -> bool {
    let ki = f32_order_key(d[i]);
    let kj = f32_order_key(d[j]);
    ki < kj || (ki == kj && i < j)
}

/// Identifier `j` occurs in `s`.
pub open spec fn holds(s: Seq<usize>, j: int) -> bool {
    exists|a: int| 0 <= a < s.len() && s[a] == j
}

/// The identifiers in `s` are valid for `d` and strictly ascending by rank.
pub open spec fn ranked(d: Seq<u32>, s: Seq<usize>) -> bool {
    &&& forall|a: int| 0 <= a < s.len() ==> #[trigger] s[a] < d.len()
    &&& forall|a: int, b: int| 0 <= a < b < s.len() ==> closer(d, #[trigger] s[a] as int, #[trigger] s[b] as int)
}

/// Every identifier in `s` ranks before `j`.
pub open spec fn all_before(d: Seq<u32>, s: Seq<usize>, j: int) -> bool {
    forall|a: int| 0 <= a < s.len() ==> closer(d, #[trigger] s[a] as int, j)
}

/// `r` lists the `k` best-ranked identifiers among the first `n` distances,
/// or all of them when there are fewer than `k`, best first.
pub open spec fn is_nearest_among(d: Seq<u32>, n: int, k: int, r: Seq<usize>) -> bool {
    &&& r.len() == if k < n { k } else { n }
    &&& ranked(d, r)
    &&& forall|a: int| 0 <= a < r.len() ==> #[trigger] r[a] < n
    &&& forall|j: int| 0 <= j < n && !holds(r, j) ==> #[trigger] all_before(d, r, j)
}

/// `r` lists the `k` nearest stored vectors, best first.
pub open spec fn is_nearest(d: Seq<u32>, k: int, r: Seq<usize>) -> bool {
    is_nearest_among(d, d.len() as int, k, r)
}

/// The identifiers of a ranked list are pairwise distinct.
pub proof fn lemma_ranked_distinct(d: Seq<u32>, s: Seq<usize>)
    requires
        ranked(d, s),
    ensures
        forall|a: int, b: int| 0 <= a < s.len() && 0 <= b < s.len() && a != b ==> s[a] != s[b],
{
    assert forall|a: int, b: int| 0 <= a < s.len() && 0 <= b < s.len() && a != b implies s[a]
        != s[b] by {
        if a < b {
            assert(closer(d, s[a] as int, s[b] as int));
        } else {
            assert(closer(d, s[b] as int, s[a] as int));
        }
    }
}

fn order_key(bits: u32) -> (r: u32)
    ensures
        r == f32_order_key(bits),
{
    if bits & SIGN_BIT != 0 {
        !bits
    } else {
        bits | SIGN_BIT
    }
}

fn ranks_before(d: &Vec<u32>, i: usize, j: usize) -> (r: bool)
    requires
        i < d@.len(),
        j < d@.len(),
    ensures
        r == closer(d@, i as int, j as int),
{
    let ki = order_key(d[i]);
    let kj = order_key(d[j]);
    ki < kj || (ki == kj && i < j)
}

/// Inserts `x`, which is larger than every identifier in `buf`, at its place
/// by rank.
fn insert_ranked(buf: &mut Vec<usize>, d: &Vec<u32>, x: usize)
    requires
        x < d@.len(),
        ranked(d@, old(buf)@),
        forall|a: int| 0 <= a < old(buf)@.len() ==> #[trigger] old(buf)@[a] < x,
    ensures
        ranked(d@, final(buf)@),
        final(buf)@.len() == old(buf)@.len() + 1,
        forall|j: int| holds(final(buf)@, j) <==> (holds(old(buf)@, j) || j == x),
        forall|a: int| 0 <= a < final(buf)@.len() ==> #[trigger] final(buf)@[a] <= x,
{
    let ghost s = buf@;
    let len = buf.len();
    let mut p: usize = 0;
    while p < len
        invariant
            len == s.len(),
            buf@ == s,
            p <= len,
            x < d@.len(),
            ranked(d@, s),
            forall|a: int| 0 <= a < s.len() ==> #[trigger] s[a] < x,
            forall|a: int| 0 <= a < p ==> closer(d@, #[trigger] s[a] as int, x as int),
        ensures
            p <= len,
            forall|a: int| 0 <= a < p ==> closer(d@, #[trigger] s[a] as int, x as int),
            p == len || closer(d@, x as int, s[p as int] as int),
        decreases len - p,
    {
        if ranks_before(d, x, buf[p]) {
            break;
        }
        p += 1;
    }
    buf.insert(p, x);
    let ghost t = buf@;
    assert(t == s.insert(p as int, x));
    assert forall|a: int, b: int| 0 <= a < b < t.len() implies closer(
        d@,
        #[trigger] t[a] as int,
        #[trigger] t[b] as int,
    ) by {
        if b < p {
        } else if b == p {
        } else if a < p {
            assert(closer(d@, s[a] as int, s[b - 1] as int));
        } else if a == p {
            if b - 1 > p {
                assert(closer(d@, s[p as int] as int, s[b - 1] as int));
            }
        } else {
            assert(closer(d@, s[a - 1] as int, s[b - 1] as int));
        }
    }
    assert forall|j: int| holds(t, j) <==> (holds(s, j) || j == x) by {
        if holds(t, j) {
            let a = choose|a: int| 0 <= a < t.len() && t[a] == j;
            if a < p {
                assert(s[a] == j);
            } else if a > p {
                assert(s[a - 1] == j);
            }
        }
        if holds(s, j) {
            let a = choose|a: int| 0 <= a < s.len() && s[a] == j;
            if a < p {
                assert(t[a] == j);
            } else {
                assert(t[a + 1] == j);
            }
        }
        if j == x {
            assert(t[p as int] == j);
        }
    }
}

/// Selects the `k` stored vectors nearest to a query, given the squared
/// distance from the query to each stored vector.
///
/// The identifiers come out ascending by distance, equal distances by
/// ascending identifier. A set of fewer than `k` vectors gives all of them.
/// A distance that is infinite or NaN is a `NumericError`.
pub fn nearest(distances: &Vec<u32>, k: usize) -> (r: Result<Vec<usize>, Error>)
    ensures
        r is Err <==> exists|i: int|
            0 <= i < distances@.len() && !is_finite_bits(#[trigger] distances@[i]),
        r is Err ==> r == Err::<Vec<usize>, Error>(Error::NumericError),
        r matches Ok(v) ==> is_nearest(distances@, k as int, v@),
{
    let n = distances.len();
    let mut i: usize = 0;
    while i < n
        invariant
            n == distances@.len(),
            i <= n,
            forall|t: int| 0 <= t < i ==> is_finite_bits(#[trigger] distances@[t]),
        decreases n - i,
    {
        if distances[i] & EXPONENT_MASK == EXPONENT_MASK {
            assert(!is_finite_bits(distances@[i as int]));
            return Err(Error::NumericError);
        }
        i += 1;
    }
    let ghost d = distances@;
    let mut buf: Vec<usize> = Vec::new();
    let mut i: usize = 0;
    while i < n
        invariant
            n == d.len(),
            d == distances@,
            i <= n,
            is_nearest_among(d, i as int, k as int, buf@),
            buf@.len() < k ==> forall|j: int| 0 <= j < i ==> holds(buf@, j),
        decreases n - i,
    {
        let ghost s = buf@;
        let len = buf.len();
        if len < k {
            insert_ranked(&mut buf, distances, i);
            assert forall|j: int| 0 <= j < i + 1 implies holds(buf@, j) by {
                if j < i {
                    assert(holds(s, j));
                }
            }
        } else if len > 0 && ranks_before(distances, i, buf[len - 1]) {
            let e = buf.pop().unwrap();
            let ghost s1 = buf@;
            assert(s1 == s.drop_last());
            assert forall|j: int| holds(s1, j) implies holds(s, j) by {
                let a = choose|a: int| 0 <= a < s1.len() && s1[a] == j;
                assert(s[a] == j);
            }
            insert_ranked(&mut buf, distances, i);
            let ghost t = buf@;
            assert forall|j: int| 0 <= j < i + 1 && !holds(t, j) implies #[trigger] all_before(
                d,
                t,
                j,
            ) by {
                assert forall|a: int| 0 <= a < t.len() implies closer(
                    d,
                    #[trigger] t[a] as int,
                    j,
                ) by {
                    assert(holds(t, t[a] as int));
                    if j == e {
                        if t[a] != i {
                            assert(holds(s1, t[a] as int));
                            let b = choose|b: int| 0 <= b < s1.len() && s1[b] == t[a];
                            assert(s[b] == t[a]);
                            assert(closer(d, s[b] as int, s[len - 1] as int));
                        }
                    } else {
                        assert(!holds(s, j)) by {
                            if holds(s, j) {
                                let b = choose|b: int| 0 <= b < s.len() && s[b] == j;
                                if b < len - 1 {
                                    assert(s1[b] == j);
                                }
                            }
                        }
                        assert(all_before(d, s, j));
                        assert(closer(d, s[len - 1] as int, j));
                        if t[a] != i {
                            assert(holds(s1, t[a] as int));
                            let b = choose|b: int| 0 <= b < s1.len() && s1[b] == t[a];
                            assert(s[b] == t[a]);
                            if b < len - 1 {
                                assert(closer(d, s[b] as int, s[len - 1] as int));
                            }
                        }
                    }
                }
            }
        } else {
            assert forall|j: int| 0 <= j < i + 1 && !holds(s, j) implies #[trigger] all_before(
                d,
                s,
                j,
            ) by {
                if j == i {
                    assert forall|a: int| 0 <= a < s.len() implies closer(
                        d,
                        #[trigger] s[a] as int,
                        j,
                    ) by {
                        if a < len - 1 {
                            assert(closer(d, s[a] as int, s[len - 1] as int));
                        }
                    }
                }
            }
        }
        i += 1;
    }
    Ok(buf)
}

} // verus!
