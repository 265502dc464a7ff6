//! The `fvecs` vector-file format.
//!
//! A file is a sequence of records. Each record is a little-endian `u32`
//! dimension followed by that many little-endian 32-bit floats. The first
//! record fixes the dimension of the whole file.
//!
//! Components are held as the raw bit patterns of the floats, so parsing is
//! exact and bit-for-bit.

use byteorder::ByteOrder;
use vstd::arithmetic::div_mod::{lemma_fundamental_div_mod, lemma_fundamental_div_mod_converse};
use vstd::prelude::*;

use crate::error::{Error, FormatError};

verus! {

/// The unsigned integer stored little-endian in the four bytes at `off`.
pub open spec fn le_u32(b: Seq<u8>, off: int) -> int {
    b[off] as int + 256 * (b[off + 1] as int) + 65536 * (b[off + 2] as int) + 16777216 * (
    b[off + 3] as int)
}

/// The number of bytes of a record of dimension `d`.
pub open spec fn record_size(d: int) -> int {
    4 + 4 * d
}

/// The dimension that the first record declares.
pub open spec fn declared_dimension(b: Seq<u8>) -> int {
    le_u32(b, 0)
}

/// Record `i` lies wholly inside `b` and declares dimension `d`.
pub open spec fn record_ok(b: Seq<u8>, d: int, i: int) -> bool {
    (i + 1) * record_size(d) <= b.len() && le_u32(b, i * record_size(d)) == d
}

/// The first `n` records are complete and declare dimension `d`.
pub open spec fn records_ok(b: Seq<u8>, d: int, n: int) -> bool {
    forall|i: int| 0 <= i < n ==> #[trigger] record_ok(b, d, i)
}

/// `b` is a whole number of complete records, all of the first one's dimension.
pub open spec fn is_well_formed(b: Seq<u8>) -> bool {
    let d = declared_dimension(b);
    &&& b.len() >= 4
    &&& (b.len() as int) % record_size(d) == 0
    &&& records_ok(b, d, (b.len() as int) / record_size(d))
}

/// The records before record `i` are sound, and record `i` has a complete
/// header that declares a dimension other than `d`.
pub open spec fn mismatch_at(b: Seq<u8>, d: int, i: int) -> bool {
    &&& 0 <= i
    &&& records_ok(b, d, i)
    &&& i * record_size(d) + 4 <= b.len()
    &&& le_u32(b, i * record_size(d)) != d
}

/// Scanning `b` record by record meets a header of the wrong dimension before
/// it meets the end of the input.
pub open spec fn has_dimension_mismatch(b: Seq<u8>) -> bool {
    b.len() >= 4 && exists|i: int| #[trigger] mismatch_at(b, declared_dimension(b), i)
}

/// The number of records of a well-formed input.
pub open spec fn record_count(b: Seq<u8>) -> int {
    (b.len() as int) / record_size(declared_dimension(b))
}

/// The byte offset of component `j` of vector `i` in a file of dimension `d`.
pub open spec fn component_offset(d: int, i: int, j: int) -> int {
    i * record_size(d) + 4 + 4 * j
}

/// The byte offset of the `t`-th component counted over the whole file.
spec fn flat_offset(d: int, t: int) -> int {
    4 * (t / d) + 4 * t + 4
}

/// An ordered collection of vectors of one dimension, stored contiguously.
/// Each component is the bit pattern of a 32-bit float.
#[derive(Debug)]
pub struct VectorSet {
    dimension: usize,
    count: usize,
    data: Vec<u32>,
}

impl VectorSet {
    /// The storage holds exactly `count` vectors of `dimension` components.
    pub closed spec fn wf(&self) -> bool {
        self.data@.len() == self.count * self.dimension
    }

    /// The dimension of every vector.
    pub closed spec fn dim(&self) -> nat {
        self.dimension as nat
    }

    /// The number of vectors.
    pub closed spec fn size(&self) -> nat {
        self.count as nat
    }

    /// Component `j` of vector `i`.
    pub closed spec fn component(&self, i: int, j: int) -> u32 {
        self.data@[i * self.dimension + j]
    }

    /// Vector `i`.
    pub open spec fn vector_at(&self, i: int) -> Seq<u32> {
        Seq::new(self.dim(), |j: int| self.component(i, j))
    }

    /// The dimension of every vector.
    pub fn dimension(&self) -> (r: usize)
        ensures
            r == self.dim(),
    {
        self.dimension
    }

    /// The number of vectors.
    pub fn len(&self) -> (r: usize)
        ensures
            r == self.size(),
    {
        self.count
    }

    /// Whether the set holds no vector.
    pub fn is_empty(&self) -> (r: bool)
        ensures
            r == (self.size() == 0),
    {
        self.count == 0
    }

    /// A copy of vector `i`.
    pub fn get(&self, i: usize) -> (r: Vec<u32>)
        requires
            self.wf(),
            i < self.size(),
        ensures
            r@ == self.vector_at(i as int),
    {
        let d = self.dimension;
        let n = self.data.len();
        let mut r: Vec<u32> = Vec::with_capacity(d);
        let mut j: usize = 0;
        while j < d
            invariant
                self.wf(),
                d == self.dimension,
                n == self.data@.len(),
                i < self.count,
                j <= d,
                r@.len() == j,
                forall|q: int| 0 <= q < j ==> r@[q] == self.component(i as int, q),
            decreases d - j,
        {
            proof {
                let (ii, jj, dd, cc) = (i as int, j as int, d as int, self.count as int);
                assert(ii * dd + jj < cc * dd) by (nonlinear_arith)
                    requires
                        0 <= ii < cc,
                        0 <= jj < dd,
                ;
            }
            r.push(self.data[i * d + j]);
            j += 1;
        }
        assert(r@ =~= self.vector_at(i as int));
        r
    }

    /// Checks that a query vector of `query_len` components can be compared
    /// with the vectors of this set.
    pub fn check_query(&self, query_len: usize) -> (r: Result<(), Error>)
        ensures
            r is Ok <==> query_len == self.dim(),
            r is Err ==> r == Err::<(), Error>(Error::DimensionMismatch),
    {
        if query_len == self.dimension {
            Ok(())
        } else {
            Err(Error::DimensionMismatch)
        }
    }
}

/// Relies on byteorder's `LittleEndian::read_u32`: the four bytes at `off`,
/// least significant first.
#[verifier::external_body]
fn read_le_u32(b: &[u8], off: usize) -> (r: u32)
    requires
        off + 4 <= b@.len(),
    ensures
        r as int == le_u32(b@, off as int),
{
    byteorder::LittleEndian::read_u32(&b[off..off + 4])
}

proof fn lemma_scaled_le(c: int, i: int, r: int)
    requires
        0 <= c <= i,
        0 <= r,
    ensures
        c * r <= i * r,
{
    assert(c * r <= i * r) by (nonlinear_arith)
        requires
            0 <= c <= i,
            0 <= r,
    ;
}

/// No record at or after record `c` can be the first bad header when record
/// `c` starts less than four bytes before the end or its header is sound and
/// it overruns the end.
proof fn lemma_no_mismatch(b: Seq<u8>, d: int, c: int)
    requires
        0 <= c,
        0 <= d,
        records_ok(b, d, c),
        c * record_size(d) + 4 > b.len() || (le_u32(b, c * record_size(d)) == d && (c + 1)
            * record_size(d) > b.len()),
    ensures
        !(exists|i: int| #[trigger] mismatch_at(b, d, i)),
{
    let r = record_size(d);
    assert((c + 1) * r == c * r + r) by (nonlinear_arith);
    assert forall|i: int| !#[trigger] mismatch_at(b, d, i) by {
        if mismatch_at(b, d, i) {
            if i < c {
                assert(record_ok(b, d, i));
            } else if i > c {
                lemma_scaled_le(c + 1, i, r);
            }
        }
    }
}

/// In a well-formed input, a record that starts before the end is complete.
proof fn lemma_well_formed_record(b: Seq<u8>, c: int)
    requires
        is_well_formed(b),
        0 <= c,
        c * record_size(declared_dimension(b)) < b.len(),
    ensures
        record_ok(b, declared_dimension(b), c),
{
    let r = record_size(declared_dimension(b));
    let n = (b.len() as int) / r;
    lemma_fundamental_div_mod(b.len() as int, r);
    assert(c < n) by (nonlinear_arith)
        requires
            c * r < n * r,
            r > 0,
    ;
}

/// Parses an `fvecs` input.
///
/// The result is a set with the first record's dimension, holding one vector
/// per record. An input that ends inside a record, or holds no record, is
/// `Truncated`; a record whose dimension differs from the first one's is a
/// `DimensionMismatch`, whichever of the two comes first in the input.
pub fn read_fvecs(bytes: &[u8]) -> (r: Result<VectorSet, Error>)
    ensures
        r is Ok <==> is_well_formed(bytes@),
        r == Err::<VectorSet, Error>(Error::Format(FormatError::DimensionMismatch))
            <==> has_dimension_mismatch(bytes@),
        r is Err ==> r == Err::<VectorSet, Error>(Error::Format(FormatError::Truncated)) || r
            == Err::<VectorSet, Error>(Error::Format(FormatError::DimensionMismatch)),
        r matches Ok(vs) ==> {
            &&& vs.wf()
            &&& vs.dim() == declared_dimension(bytes@)
            &&& vs.size() == record_count(bytes@)
            &&& forall|i: int, j: int|
                0 <= i < vs.size() && 0 <= j < vs.dim() ==> #[trigger] vs.component(i, j) as int
                    == le_u32(bytes@, component_offset(vs.dim() as int, i, j))
        },
{
    let len = bytes.len();
    if len < 4 {
        return Err(Error::Format(FormatError::Truncated));
    }
    let d32 = read_le_u32(bytes, 0);
    let d = d32 as usize;
    let ghost dd = d as int;
    let ghost rs = record_size(dd);
    let mut data: Vec<u32> = Vec::new();
    let mut off: usize = 0;
    let mut count: usize = 0;
    loop
        invariant
            len == bytes@.len(),
            len >= 4,
            d == d32 as usize,
            dd == d,
            count <= off,
            dd == declared_dimension(bytes@),
            rs == record_size(dd),
            off == count * rs,
            off <= len,
            records_ok(bytes@, dd, count as int),
            data@.len() == count * dd,
            forall|t: int|
                0 <= t < data@.len() ==> #[trigger] data@[t] as int == le_u32(
                    bytes@,
                    flat_offset(dd, t),
                ),
        decreases len - off,
    {
        if off == len {
            proof {
                lemma_fundamental_div_mod_converse(len as int, rs, count as int, 0);
                lemma_no_mismatch(bytes@, dd, count as int);
            }
            let vs = VectorSet { dimension: d, count, data };
            assert forall|i: int, j: int|
                0 <= i < vs.size() && 0 <= j < vs.dim() implies #[trigger] vs.component(i, j) as int
                == le_u32(bytes@, component_offset(dd, i, j)) by {
                let t = i * dd + j;
                lemma_fundamental_div_mod_converse(t, dd, i, j);
                assert(t < count * dd) by (nonlinear_arith)
                    requires
                        0 <= i < count,
                        0 <= j < dd,
                        t == i * dd + j,
                ;
                assert(flat_offset(dd, t) == component_offset(dd, i, j)) by (nonlinear_arith)
                    requires
                        t == i * dd + j,
                        t / dd == i,
                ;
            }
            return Ok(vs);
        }
        if len - off < 4 {
            proof {
                assert((count + 1) * rs == off + rs) by (nonlinear_arith)
                    requires
                        off == count * rs,
                ;
                lemma_no_mismatch(bytes@, dd, count as int);
                if is_well_formed(bytes@) {
                    lemma_well_formed_record(bytes@, count as int);
                }
            }
            return Err(Error::Format(FormatError::Truncated));
        }
        let h = read_le_u32(bytes, off);
        if h != d32 {
            proof {
                assert(mismatch_at(bytes@, dd, count as int));
                if is_well_formed(bytes@) {
                    lemma_well_formed_record(bytes@, count as int);
                }
            }
            return Err(Error::Format(FormatError::DimensionMismatch));
        }
        let rest = len - off - 4;
        if rest / 4 < d {
            proof {
                assert((count + 1) * rs == off + rs) by (nonlinear_arith)
                    requires
                        off == count * rs,
                ;
                lemma_no_mismatch(bytes@, dd, count as int);
                if is_well_formed(bytes@) {
                    lemma_well_formed_record(bytes@, count as int);
                }
            }
            return Err(Error::Format(FormatError::Truncated));
        }
        let mut j: usize = 0;
        while j < d
            invariant
                len == bytes@.len(),
                dd == d,
                dd == declared_dimension(bytes@),
                rs == record_size(dd),
                off == count * rs,
                off + 4 + 4 * dd <= len,
                le_u32(bytes@, off as int) == dd,
                count <= off,
                j <= d,
                data@.len() == count * dd + j,
                forall|t: int|
                    0 <= t < data@.len() ==> #[trigger] data@[t] as int == le_u32(
                        bytes@,
                        flat_offset(dd, t),
                    ),
            decreases d - j,
        {
            let v = read_le_u32(bytes, off + 4 + 4 * j);
            proof {
                let t = count * dd + j;
                lemma_fundamental_div_mod_converse(t, dd, count as int, j as int);
                assert(flat_offset(dd, t) == off + 4 + 4 * j) by (nonlinear_arith)
                    requires
                        t == count * dd + j,
                        t / dd == count,
                        off == count * rs,
                        rs == 4 + 4 * dd,
                ;
            }
            data.push(v);
            j += 1;
        }
        proof {
            assert((count + 1) * rs == off + rs) by (nonlinear_arith)
                requires
                    off == count * rs,
            ;
            assert((count + 1) * dd == count * dd + dd) by (nonlinear_arith);
            assert(record_ok(bytes@, dd, count as int));
            assert forall|i: int| 0 <= i < count + 1 implies #[trigger] record_ok(
                bytes@,
                dd,
                i,
            ) by {
                if i < count {
                    assert(record_ok(bytes@, dd, i));
                }
            }
        }
        off = off + 4 + 4 * d;
        count += 1;
    }
}

} // verus!
