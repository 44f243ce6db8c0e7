//! Data-parallel fan-out over the indices of a collection.

use rayon::iter::{IntoParallelIterator, ParallelIterator};
use vstd::prelude::*;

verus! {

/// Applies `f` to every index below `n` on rayon's worker pool and gathers
/// the results in index order: rayon's `into_par_iter` on a range, `map`
/// and `collect` into a `Vec`. The contract claims what rayon documents of
/// an indexed parallel iterator: `f` is called once for each index, and the
/// result of index `i` stands at place `i` whichever call finished first.
#[verifier::external_body]
pub(crate) fn par_map<U: Send, F: Fn(usize) -> U + Sync + Send>(n: usize, f: F) -> (r: Vec<U>)
    requires
        forall|i: usize| i < n ==> call_requires(f, (i,)),
    ensures
        r@.len() == n,
        forall|i: usize| i < n ==> call_ensures(f, (i,), #[trigger] r@[i as int]),
{
    (0..n).into_par_iter().map(f).collect()
}

} // verus!
