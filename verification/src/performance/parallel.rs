//! Settings of the multi-threaded batch operations, and the sequential steps
//! around the work that is spread over threads.

use vstd::prelude::*;
use crate::error::{Error, Result};
use crate::ids::Index64;
use crate::performance::batch::BatchResult;

verus! {

/// The values among the first `n` outcomes that succeeded, in order.
pub open spec fn gathered_items(rs: Seq<Result<Index64>>, n: int) -> Seq<Index64>
    decreases n,
{
    if n <= 0 {
        Seq::empty()
    } else {
        match rs[n - 1] {
            Ok(k) => gathered_items(rs, n - 1).push(k),
            Err(_) => gathered_items(rs, n - 1),
        }
    }
}

/// The position and error of each of the first `n` outcomes that failed, in order.
pub open spec fn gathered_errors(rs: Seq<Result<Index64>>, n: int) -> Seq<(usize, Error)>
    decreases n,
{
    if n <= 0 {
        Seq::empty()
    } else {
        match rs[n - 1] {
            Ok(_) => gathered_errors(rs, n - 1),
            Err(e) => gathered_errors(rs, n - 1).push(((n - 1) as usize, e)),
        }
    }
}

/// Builds many Index64 values on several threads.
pub struct ParallelBatchIndexBuilder {
    chunk_size: usize,
}

impl ParallelBatchIndexBuilder {
    /// A builder with the default chunk size of 1024.
    pub fn new() -> (r: Self)
        ensures
            r.chunk_size() == 1024,
    {
        Self { chunk_size: 1024 }
    }

    /// Number of inputs that one task handles.
    pub closed spec fn chunk_size(&self) -> usize {
        self.chunk_size
    }

    /// Number of inputs that one task handles.
    pub fn get_chunk_size(&self) -> (r: usize)
        ensures
            r == self.chunk_size(),
    {
        self.chunk_size
    }

    /// The same builder with another chunk size.
    pub fn with_chunk_size(self, size: usize) -> (r: Self)
        ensures
            r.chunk_size() == size,
    {
        Self { chunk_size: size }
    }

    /// Sorts the per-input outcomes, in input order, into the values built
    /// and the position and error of each input that failed.
    pub fn gather(results: Vec<Result<Index64>>) -> (r: BatchResult<Index64>)
        ensures
            r.items@ == gathered_items(results@, results@.len() as int),
            r.errors@ == gathered_errors(results@, results@.len() as int),
    {
        let ghost all = results@;
        let n = results.len();
        let mut rest = results;
        let mut reversed: Vec<Result<Index64>> = Vec::new();
        while rest.len() > 0
            invariant
                n == all.len(),
                rest@ == all.subrange(0, rest@.len() as int),
                reversed@.len() + rest@.len() == n,
                forall|j: int| 0 <= j < reversed@.len() ==> #[trigger] reversed@[j] == all[n - 1 - j],
            decreases rest@.len(),
        {
            let item = rest.pop().unwrap();
            reversed.push(item);
        }
        let mut out = BatchResult::with_capacity(n);
        let mut i: usize = 0;
        while i < n
            invariant
                n == all.len(),
                i <= n,
                reversed@.len() == n - i,
                forall|j: int| 0 <= j < reversed@.len() ==> #[trigger] reversed@[j] == all[n - 1 - j],
                out.items@ == gathered_items(all, i as int),
                out.errors@ == gathered_errors(all, i as int),
            decreases n - i,
        {
            let item = reversed.pop().unwrap();
            assert(item == all[i as int]);
            match item {
                Ok(k) => out.items.push(k),
                Err(e) => out.errors.push((i, e)),
            }
            i = i + 1;
        }
        out
    }
}

impl Default for ParallelBatchIndexBuilder {
    fn default() -> (r: Self)
        ensures
            r.chunk_size() == 1024,
    {
        Self::new()
    }
}

/// Computes the neighbours of many routes on several threads.
pub struct ParallelBatchNeighborCalculator {
    chunk_size: usize,
}

impl ParallelBatchNeighborCalculator {
    /// A calculator with the default chunk size of 256.
    pub fn new() -> (r: Self)
        ensures
            r.chunk_size() == 256,
    {
        Self { chunk_size: 256 }
    }

    /// Number of routes that one task handles.
    pub closed spec fn chunk_size(&self) -> usize {
        self.chunk_size
    }

    /// Number of routes that one task handles.
    pub fn get_chunk_size(&self) -> (r: usize)
        ensures
            r == self.chunk_size(),
    {
        self.chunk_size
    }

    /// The same calculator with another chunk size.
    pub fn with_chunk_size(self, size: usize) -> (r: Self)
        ensures
            r.chunk_size() == size,
    {
        Self { chunk_size: size }
    }
}

impl Default for ParallelBatchNeighborCalculator {
    fn default() -> (r: Self)
        ensures
            r.chunk_size() == 256,
    {
        Self::new()
    }
}

/// Whether a batch is large enough for threads to pay off: 500 items or more.
pub fn should_use_parallel(item_count: usize) -> (r: bool)
    ensures
        r == (item_count >= 500),
{
    item_count >= 500
}

} // verus!
