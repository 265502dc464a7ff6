//! Recall of an approximate result against an exact one.

use vstd::prelude::*;

use crate::error::Error;

verus! {

/// How many entries of `results` occur anywhere in `reference`.
pub open spec fn hit_count(reference: Seq<usize>, results: Seq<usize>) -> nat
    decreases results.len(),
{
    if results.len() == 0 {
        0
    } else {
        hit_count(reference, results.drop_last()) + if reference.contains(results.last()) {
            1nat
        } else {
            0nat
        }
    }
}

/// A recall as an exact fraction: `hits` correct entries out of `total`.
#[derive(Debug, Clone, Copy, PartialEq, Eq, Structural)]
pub struct Recall {
    pub hits: usize,
    pub total: usize,
}

/// The hits never outnumber the results.
pub proof fn lemma_hits_bounded(reference: Seq<usize>, results: Seq<usize>)
    ensures
        hit_count(reference, results) <= results.len(),
    decreases results.len(),
{
    if results.len() > 0 {
        lemma_hits_bounded(reference, results.drop_last());
    }
}

/// Every entry of a result compared with itself is a hit.
pub proof fn lemma_hits_of_itself(reference: Seq<usize>, results: Seq<usize>)
    requires
        forall|a: int| 0 <= a < results.len() ==> reference.contains(#[trigger] results[a]),
    ensures
        hit_count(reference, results) == results.len(),
    decreases results.len(),
{
    if results.len() > 0 {
        let rest = results.drop_last();
        assert forall|a: int| 0 <= a < rest.len() implies reference.contains(#[trigger] rest[a]) by {
            assert(rest[a] == results[a]);
        }
        lemma_hits_of_itself(reference, rest);
        assert(reference.contains(results[results.len() - 1]));
    }
}

/// A result compared with itself has full recall, and on inputs of equal
/// length recall lies between zero and one.
pub proof fn lemma_recall_range(reference: Seq<usize>, results: Seq<usize>)
    requires
        reference.len() == results.len(),
        reference.len() > 0,
    ensures
        hit_count(reference, results) <= reference.len(),
        hit_count(results, results) == results.len(),
{
    lemma_hits_bounded(reference, results);
    assert forall|a: int| 0 <= a < results.len() implies results.contains(#[trigger] results[a]) by {
    }
    lemma_hits_of_itself(results, results);
}

impl Recall {
    /// The recall as a fraction in `[0, 1]`.
    pub open spec fn valid(&self) -> bool {
        0 < self.total && self.hits <= self.total
    }
}

/// Computes the recall of `results` against `reference`: the share of the
/// entries of `results` that occur anywhere in `reference`.
///
/// Sequences of different lengths are a `LengthMismatch`; empty ones, whose
/// recall is undefined, are `EmptyInput`.
pub fn calculate_recall(reference: &Vec<usize>, results: &Vec<usize>) -> (r: Result<
    Recall,
    Error,
>)
    ensures
        reference@.len() != results@.len() <==> r == Err::<Recall, Error>(Error::LengthMismatch),
        reference@.len() == results@.len() && results@.len() == 0 <==> r == Err::<Recall, Error>(
            Error::EmptyInput,
        ),
        reference@.len() == results@.len() && results@.len() > 0 <==> r is Ok,
        r matches Ok(v) ==> {
            &&& v.hits == hit_count(reference@, results@)
            &&& v.total == results@.len()
            &&& v.valid()
        },
{
    if reference.len() != results.len() {
        return Err(Error::LengthMismatch);
    }
    if results.len() == 0 {
        return Err(Error::EmptyInput);
    }
    let n = results.len();
    let mut hits: usize = 0;
    let mut i: usize = 0;
    while i < n
        invariant
            n == results@.len(),
            i <= n,
            hits == hit_count(reference@, results@.subrange(0, i as int)),
            hits <= i,
        decreases n - i,
    {
        let x = results[i];
        let mut found = false;
        let mut j: usize = 0;
        while j < reference.len()
            invariant
                j <= reference@.len(),
                found <==> exists|b: int| 0 <= b < j && reference@[b] == x,
            decreases reference@.len() - j,
        {
            if reference[j] == x {
                found = true;
            }
            j += 1;
        }
        let ghost pre = results@.subrange(0, i as int);
        let ghost next = results@.subrange(0, i + 1);
        assert(next.drop_last() == pre);
        assert(next.last() == x);
        assert(found == reference@.contains(x));
        if found {
            hits += 1;
        }
        i += 1;
    }
    assert(results@.subrange(0, n as int) == results@);
    proof {
        lemma_hits_bounded(reference@, results@);
    }
    Ok(Recall { hits, total: n })
}

} // verus!
