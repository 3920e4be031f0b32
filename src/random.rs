//! The draws the algorithm takes from the thread-local random generator.
use rand::Rng;
use vstd::prelude::*;

verus! {

/// Relies on `rand::Rng::gen_range` on `rand::thread_rng()`: a uniform draw in
/// `[low, high)`, which panics when `low >= high` (hence `n > 0`).
#[verifier::external_body]
pub(crate) fn draw_below(n: usize) -> (r: usize)
    requires
        n > 0,
    ensures
        r < n,
{
    rand::thread_rng().gen_range(0, n)
}

/// Relies on `rand::random` for a `bool`: a fair coin, of which nothing is promised.
#[verifier::external_body]
pub(crate) fn random_gene() -> (r: bool) {
    rand::random::<bool>()
}

} // verus!
