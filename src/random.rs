//! The random draws the simulation makes, from `rand`'s thread-local
//! generator. Nothing is promised of a draw beyond its range.

use rand::seq::SliceRandom;
use rand::Rng;
use vstd::prelude::*;

verus! {

/// Relies on `rand::Rng::gen_range` over `0..n` on `rand::thread_rng()`:
/// a value in that range (the call panics on an empty range, which
/// `requires` rules out).
#[verifier::external_body]
pub(crate) fn random_below(n: usize) -> (r: usize)
    requires
        n > 0,
    ensures
        r < n,
{
    rand::thread_rng().gen_range(0..n)
}

/// Relies on `rand::seq::SliceRandom::shuffle` on `rand::thread_rng()`: the
/// same cells, each as often as before, in some order.
#[verifier::external_body]
pub(crate) fn shuffled(cells: Vec<(i32, i32)>) -> (r: Vec<(i32, i32)>)
    ensures
        r@.to_multiset() == cells@.to_multiset(),
{
    let mut cells = cells;
    cells.shuffle(&mut rand::thread_rng());
    cells
}

} // verus!
