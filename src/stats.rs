//! Nearest-rank order statistics over a sample series.
//!
//! Samples are ordered by `u64` keys. A float series is brought to keys with
//! [`order_key`], whose unsigned order is IEEE-754's total order on 64-bit
//! floats, and back with [`from_order_key`].

use vstd::arithmetic::div_mod::{lemma_fundamental_div_mod, lemma_fundamental_div_mod_converse};
use vstd::prelude::*;

use crate::error::Error;

verus! {

/// The sign bit of a 64-bit float.
pub const F64_SIGN_BIT: u64 = 0x8000_0000_0000_0000;

/// A key whose unsigned order is IEEE-754's total order on 64-bit floats.
pub open spec fn f64_order_key(bits: u64) -> u64 {
    if bits & F64_SIGN_BIT != 0 {
        !bits
    } else {
        bits | F64_SIGN_BIT
    }
}

/// The float bits that a key stands for.
pub open spec fn f64_from_order_key(key: u64) -> u64 {
    if key & F64_SIGN_BIT != 0 {
        key & !F64_SIGN_BIT
    } else {
        !key
    }
}

/// `s` is in ascending order.
pub open spec fn is_ascending(s: Seq<u64>) -> bool {
    forall|a: int, b: int| 0 <= a <= b < s.len() ==> #[trigger] s[a] <= #[trigger] s[b]
}

/// The order key of the 64-bit float whose bits are `bits`.
pub fn order_key(bits: u64) -> (r: u64)
    ensures
        r == f64_order_key(bits),
        f64_from_order_key(r) == bits,
{
    if bits & F64_SIGN_BIT != 0 {
        assert(bits & 0x8000_0000_0000_0000u64 != 0 ==> (!bits) & 0x8000_0000_0000_0000u64 == 0
            && !(!bits) == bits) by (bit_vector);
        !bits
    } else {
        assert(bits & 0x8000_0000_0000_0000u64 == 0 ==> (bits | 0x8000_0000_0000_0000u64)
            & 0x8000_0000_0000_0000u64 != 0 && (bits | 0x8000_0000_0000_0000u64) & !0x8000_0000_0000_0000u64
            == bits) by (bit_vector);
        bits | F64_SIGN_BIT
    }
}

/// The bits of the 64-bit float that order key `key` stands for.
pub fn from_order_key(key: u64) -> (r: u64)
    ensures
        r == f64_from_order_key(key),
        f64_order_key(r) == key,
{
    if key & F64_SIGN_BIT != 0 {
        assert(key & 0x8000_0000_0000_0000u64 != 0 ==> (key & !0x8000_0000_0000_0000u64)
            & 0x8000_0000_0000_0000u64 == 0 && ((key & !0x8000_0000_0000_0000u64)
            | 0x8000_0000_0000_0000u64) == key) by (bit_vector);
        key & !F64_SIGN_BIT
    } else {
        assert(key & 0x8000_0000_0000_0000u64 == 0 ==> (!key) & 0x8000_0000_0000_0000u64 != 0
            && !(!key) == key) by (bit_vector);
        !key
    }
}

/// Relies on `slice::sort_unstable`: the elements are kept and put in
/// ascending order.
#[verifier::external_body]
fn sort_ascending(v: &mut Vec<u64>)
    ensures
        final(v)@.to_multiset() == old(v)@.to_multiset(),
        is_ascending(final(v)@),
{
    v.sort_unstable()
}

/// The nearest-rank statistics of a sample series.
#[derive(Debug)]
pub struct OrderStats {
    /// The samples in ascending order.
    pub sorted: Vec<u64>,
    /// The smallest sample.
    pub min: u64,
    /// The sample at index `n / 4` of the sorted series.
    pub q1: u64,
    /// The sample at index `n / 2` of the sorted series.
    pub median: u64,
    /// The sample at index `3n / 4` of the sorted series.
    pub q3: u64,
    /// The largest sample.
    pub max: u64,
}

/// The index of the third quartile in a sorted series of `n` samples.
pub fn third_quartile_index(n: usize) -> (r: usize)
    ensures
        r == (3 * n) / 4,
{
    let q = n / 4;
    let m = n % 4;
    proof {
        lemma_fundamental_div_mod(n as int, 4);
        let t: int = (3 * m) / 4;
        let u: int = (3 * m) % 4;
        assert(3 * m == 4 * t + u && 0 <= u < 4) by {
            if m == 0 {
            } else if m == 1 {
            } else if m == 2 {
            } else {
            }
        }
        lemma_fundamental_div_mod_converse(3 * n, 4, 3 * q + t, u);
    }
    q * 3 + m * 3 / 4
}

/// Sorts the samples and picks the minimum, the quartiles, the median and the
/// maximum by nearest rank: the samples at indices `0`, `n / 4`, `n / 2`,
/// `3n / 4` and `n - 1` of the sorted series, without interpolation.
/// An empty series is `EmptyInput`.
pub fn order_statistics(samples: Vec<u64>) -> (r: Result<OrderStats, Error>)
    ensures
        samples@.len() == 0 <==> r is Err,
        r is Err ==> r == Err::<OrderStats, Error>(Error::EmptyInput),
        r matches Ok(s) ==> {
            let n = s.sorted@.len() as int;
            &&& n == samples@.len()
            &&& s.sorted@.to_multiset() == samples@.to_multiset()
            &&& is_ascending(s.sorted@)
            &&& s.min == s.sorted@[0]
            &&& s.q1 == s.sorted@[n / 4]
            &&& s.median == s.sorted@[n / 2]
            &&& s.q3 == s.sorted@[(3 * n) / 4]
            &&& s.max == s.sorted@[n - 1]
        },
{
    if samples.len() == 0 {
        return Err(Error::EmptyInput);
    }
    let mut sorted = samples;
    sort_ascending(&mut sorted);
    proof {
        sorted@.to_multiset_ensures();
        samples@.to_multiset_ensures();
    }
    let n = sorted.len();
    let q3 = third_quartile_index(n);
    let min = sorted[0];
    let q1 = sorted[n / 4];
    let median = sorted[n / 2];
    let q3 = sorted[q3];
    let max = sorted[n - 1];
    Ok(OrderStats { sorted, min, q1, median, q3, max })
}

/// Checks that a series of `n` samples is long enough for the sample standard
/// deviation, whose variance divides by `n - 1`, and gives that divisor.
pub fn bessel_divisor(n: usize) -> (r: Result<usize, Error>)
    ensures
        n < 2 <==> r is Err,
        r is Err ==> r == Err::<usize, Error>(Error::InsufficientSamples),
        r matches Ok(m) ==> m == n - 1,
{
    if n < 2 {
        Err(Error::InsufficientSamples)
    } else {
        Ok(n - 1)
    }
}

} // verus!
