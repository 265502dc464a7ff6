//! The decisions of a batch benchmark run.
//!
//! A run asks an index for the nearest neighbours of each query in turn,
//! times it, computes the exact answer, and scores the index's answer by
//! recall. The index, the clock and the distance arithmetic are the caller's:
//! the caller asks [`BatchRun::next_step`] what to do, does it, and hands the
//! outcome to [`BatchRun::complete_query`]. Queries are processed strictly in
//! ascending order, one at a time, whether the caller blocks on the index or
//! awaits it.

use vstd::prelude::*;

use crate::error::Error;
use crate::recall::{calculate_recall, hit_count, Recall};

verus! {

/// A progress event is due every this many queries.
pub const PROGRESS_INTERVAL: usize = 100;

/// The value that an index result holds under its identifier attribute.
#[derive(Debug, Clone, Copy, PartialEq, Eq, Structural)]
pub enum AttributeValue {
    /// An unsigned 64-bit integer: a position in the data set.
    Uint64(u64),
    /// A value of any other type.
    Other,
}

/// The identifiers that the attributes of an index's results stand for, in
/// order. Only attributes that all hold a `u64` are read this way; any other
/// entry is shown as zero.
pub open spec fn identifiers_of(attrs: Seq<Option<AttributeValue>>) -> Seq<usize> {
    Seq::new(
        attrs.len(),
        |a: int|
            match attrs[a] {
                Some(AttributeValue::Uint64(v)) => v as usize,
                _ => 0usize,
            },
    )
}

/// Some result lacks the identifier attribute.
pub open spec fn lacks_identifier(attrs: Seq<Option<AttributeValue>>) -> bool {
    exists|a: int| 0 <= a < attrs.len() && #[trigger] attrs[a] is None
}

/// Some result's identifier attribute has another type than `u64`.
pub open spec fn mistyped_identifier(attrs: Seq<Option<AttributeValue>>) -> bool {
    exists|a: int| 0 <= a < attrs.len() && #[trigger] attrs[a] == Some(AttributeValue::Other)
}

/// Maps each index result's identifier attribute to a position in the data
/// set. The first result whose attribute is absent gives `MissingAttribute`,
/// the first whose attribute is not a `u64` gives `AttributeTypeMismatch`.
pub fn identifiers(attrs: &Vec<Option<AttributeValue>>) -> (r: Result<Vec<usize>, Error>)
    ensures
        r is Ok <==> !lacks_identifier(attrs@) && !mistyped_identifier(attrs@),
        r is Err ==> r == Err::<Vec<usize>, Error>(Error::MissingAttribute) || r == Err::<
            Vec<usize>,
            Error,
        >(Error::AttributeTypeMismatch),
        r == Err::<Vec<usize>, Error>(Error::MissingAttribute) ==> lacks_identifier(attrs@),
        r == Err::<Vec<usize>, Error>(Error::AttributeTypeMismatch) ==> mistyped_identifier(
            attrs@,
        ),
        r matches Ok(ids) ==> ids@ == identifiers_of(attrs@),
{
    let n = attrs.len();
    let mut ids: Vec<usize> = Vec::with_capacity(n);
    let mut i: usize = 0;
    while i < n
        invariant
            n == attrs@.len(),
            i <= n,
            ids@ == identifiers_of(attrs@).subrange(0, i as int),
            forall|a: int| 0 <= a < i ==> #[trigger] attrs@[a] matches Some(AttributeValue::Uint64(_)),
        decreases n - i,
    {
        match attrs[i] {
            Some(AttributeValue::Uint64(v)) => {
                ids.push(v as usize);
            },
            Some(AttributeValue::Other) => {
                assert(attrs@[i as int] == Some(AttributeValue::Other));
                return Err(Error::AttributeTypeMismatch);
            },
            None => {
                assert(attrs@[i as int] is None);
                return Err(Error::MissingAttribute);
            },
        }
        assert(ids@ == identifiers_of(attrs@).subrange(0, i + 1));
        i += 1;
    }
    assert(ids@ == identifiers_of(attrs@));
    Ok(ids)
}

/// What the caller is to do next.
#[derive(Debug, Clone, Copy, PartialEq, Eq, Structural)]
pub enum Step {
    /// Run query `index`, after emitting a progress event if `report_progress`.
    Query { index: usize, report_progress: bool },
    /// All queries are done: summarize.
    Finished,
}

/// The state of a batch run.
#[derive(Debug, Clone, Copy, PartialEq, Eq, Structural)]
pub struct BatchRun {
    k: usize,
    nprobe: usize,
    num_queries: usize,
    processed: usize,
}

/// The number of queries that a run with `limit` over `total` queries makes.
pub open spec fn planned_queries(limit: Option<usize>, total: usize) -> nat {
    match limit {
        Some(l) => if l < total {
            l as nat
        } else {
            total as nat
        },
        None => total as nat,
    }
}

impl BatchRun {
    /// The number of neighbours asked per query.
    pub closed spec fn spec_k(&self) -> nat {
        self.k as nat
    }

    /// The number of index partitions probed per query.
    pub closed spec fn spec_nprobe(&self) -> nat {
        self.nprobe as nat
    }

    /// The number of queries the run makes.
    pub closed spec fn planned(&self) -> nat {
        self.num_queries as nat
    }

    /// The number of queries completed so far.
    pub closed spec fn done(&self) -> nat {
        self.processed as nat
    }

    /// Starts a run over `total` queries, of which only the first `limit`
    /// are made when a limit is given.
    pub fn new(k: usize, nprobe: usize, limit: Option<usize>, total: usize) -> (r: BatchRun)
        ensures
            r.spec_k() == k,
            r.spec_nprobe() == nprobe,
            r.planned() == planned_queries(limit, total),
            r.done() == 0,
    {
        let num_queries = match limit {
            Some(l) => if l < total {
                l
            } else {
                total
            },
            None => total,
        };
        BatchRun { k, nprobe, num_queries, processed: 0 }
    }

    /// The number of neighbours asked per query.
    pub fn k(&self) -> (r: usize)
        ensures
            r == self.spec_k(),
    {
        self.k
    }

    /// The number of index partitions probed per query.
    pub fn nprobe(&self) -> (r: usize)
        ensures
            r == self.spec_nprobe(),
    {
        self.nprobe
    }

    /// The number of queries the run makes.
    pub fn num_queries(&self) -> (r: usize)
        ensures
            r == self.planned(),
    {
        self.num_queries
    }

    /// The number of queries completed so far.
    pub fn processed(&self) -> (r: usize)
        ensures
            r == self.done(),
    {
        self.processed
    }

    /// The next query in ascending order, with a progress event before every
    /// hundredth, or the end of the run.
    pub fn next_step(&self) -> (r: Step)
        requires
            self.done() <= self.planned(),
        ensures
            self.done() < self.planned() ==> r == (Step::Query {
                index: self.done() as usize,
                report_progress: self.done() % (PROGRESS_INTERVAL as nat) == 0,
            }),
            self.done() == self.planned() ==> r == Step::Finished,
    {
        if self.processed < self.num_queries {
            Step::Query {
                index: self.processed,
                report_progress: self.processed % PROGRESS_INTERVAL == 0,
            }
        } else {
            Step::Finished
        }
    }

    /// Scores the index's answer to the current query against the exact one,
    /// and moves on to the next query. On an error the run is over: the
    /// caller discards its samples.
    pub fn complete_query(
        &mut self,
        indexed: &Vec<Option<AttributeValue>>,
        exact: &Vec<usize>,
    ) -> (r: Result<Recall, Error>)
        requires
            old(self).done() < old(self).planned(),
        ensures
            final(self).spec_k() == old(self).spec_k(),
            final(self).spec_nprobe() == old(self).spec_nprobe(),
            final(self).planned() == old(self).planned(),
            r is Ok ==> final(self).done() == old(self).done() + 1,
            r is Err ==> final(self).done() == old(self).done(),
            lacks_identifier(indexed@) || mistyped_identifier(indexed@) ==> r is Err,
            !lacks_identifier(indexed@) && !mistyped_identifier(indexed@) ==> {
                let ids = identifiers_of(indexed@);
                &&& exact@.len() != ids.len() ==> r == Err::<Recall, Error>(Error::LengthMismatch)
                &&& exact@.len() == ids.len() && ids.len() == 0 ==> r == Err::<Recall, Error>(
                    Error::EmptyInput,
                )
                &&& exact@.len() == ids.len() && ids.len() > 0 ==> r is Ok
                &&& r matches Ok(v) ==> v.hits == hit_count(exact@, ids) && v.total == ids.len()
            },
    {
        let ids = match identifiers(indexed) {
            Ok(ids) => ids,
            Err(e) => return Err(e),
        };
        match calculate_recall(exact, &ids) {
            Ok(recall) => {
                self.processed = self.processed + 1;
                Ok(recall)
            },
            Err(e) => Err(e),
        }
    }
}

} // verus!
