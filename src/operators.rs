//! Genetic operators: single-point crossover and per-gene mutation.
//!
//! Probabilities are integers in parts of `RATE_SCALE`: an event of rate `r`
//! happens when a uniform draw in `[0, RATE_SCALE)` falls below `r`, so a rate
//! of 0 never fires and a rate of `RATE_SCALE` always does.
use crate::random::draw_below;
use vstd::prelude::*;

verus! {

/// The denominator of every rate.
pub const RATE_SCALE: usize = 1000000;

/// First child of a crossover at `k`: `mum` before `k`, `dad` from `k` on.
pub open spec fn cross_first(mum: Seq<bool>, dad: Seq<bool>, k: int) -> Seq<bool> {
    mum.take(k) + dad.skip(k)
}

/// Second child of a crossover at `k`: `dad` before `k`, `mum` from `k` on.
pub open spec fn cross_second(mum: Seq<bool>, dad: Seq<bool>, k: int) -> Seq<bool> {
    dad.take(k) + mum.skip(k)
}

/// The two children of a crossover of `mum` and `dad` at point `k`.
pub fn crossover_at(mum: &Vec<bool>, dad: &Vec<bool>, k: usize) -> (r: (Vec<bool>, Vec<bool>))
    requires
        mum.len() == dad.len(),
        k <= mum.len(),
    ensures
        r.0@ == cross_first(mum@, dad@, k as int),
        r.1@ == cross_second(mum@, dad@, k as int),
        r.0.len() == mum.len(),
        r.1.len() == mum.len(),
{
    let len = mum.len();
    let mut child1: Vec<bool> = Vec::with_capacity(len);
    let mut child2: Vec<bool> = Vec::with_capacity(len);
    let mut i: usize = 0;
    while i < len
        invariant
            len == mum.len(),
            len == dad.len(),
            k <= len,
            i <= len,
            child1@ == cross_first(mum@, dad@, k as int).take(i as int),
            child2@ == cross_second(mum@, dad@, k as int).take(i as int),
        decreases len - i,
    {
        if i < k {
            child1.push(mum[i]);
            child2.push(dad[i]);
        } else {
            child1.push(dad[i]);
            child2.push(mum[i]);
        }
        i = i + 1;
        assert(child1@ =~= cross_first(mum@, dad@, k as int).take(i as int));
        assert(child2@ =~= cross_second(mum@, dad@, k as int).take(i as int));
    }
    assert(child1@ =~= cross_first(mum@, dad@, k as int));
    assert(child2@ =~= cross_second(mum@, dad@, k as int));
    (child1, child2)
}

/// Single-point crossover at a uniformly drawn point in `[0, len)`.
pub fn crossover(mum: &Vec<bool>, dad: &Vec<bool>) -> (r: (Vec<bool>, Vec<bool>))
    requires
        mum.len() == dad.len(),
        mum.len() > 0,
    ensures
        r.0.len() == mum.len(),
        r.1.len() == mum.len(),
        exists|k: int|
            0 <= k < mum.len() && r.0@ == cross_first(mum@, dad@, k) && r.1@ == cross_second(
                mum@,
                dad@,
                k,
            ),
{
    let k = draw_below(mum.len());
    crossover_at(mum, dad, k)
}

/// `genes` after mutation with `draws`: each gene whose draw falls below
/// `rate` is flipped, the others are kept.
pub open spec fn mutated(genes: Seq<bool>, draws: Seq<usize>, rate: usize) -> Seq<bool> {
    Seq::new(genes.len(), |i: int| if draws[i] < rate { !genes[i] } else { genes[i] })
}

/// `after` is `before` mutated at `rate` by some admissible draws.
pub open spec fn is_mutation_of(before: Seq<bool>, after: Seq<bool>, rate: usize) -> bool {
    exists|draws: Seq<usize>|
        draws.len() == before.len() && (forall|i: int|
            0 <= i < draws.len() ==> #[trigger] draws[i] < RATE_SCALE) && after == mutated(
            before,
            draws,
            rate,
        )
}

/// Flips, in place, each gene whose draw falls below `rate`.
pub fn mutate_with_draws(individual: &mut Vec<bool>, draws: &Vec<usize>, rate: usize)
    requires
        draws.len() == old(individual).len(),
    ensures
        final(individual)@ == mutated(old(individual)@, draws@, rate),
{
    let mut i: usize = 0;
    while i < individual.len()
        invariant
            draws.len() == individual.len(),
            individual.len() == old(individual).len(),
            i <= individual.len(),
            forall|j: int|
                0 <= j < i ==> individual@[j] == mutated(old(individual)@, draws@, rate)[j],
            forall|j: int| i <= j < individual.len() ==> individual@[j] == old(individual)@[j],
        decreases individual.len() - i,
    {
        if draws[i] < rate {
            let flipped = !individual[i];
            individual.set(i, flipped);
        }
        i = i + 1;
    }
    assert(individual@ =~= mutated(old(individual)@, draws@, rate));
}

/// Mutates `individual` in place: each gene flips independently with
/// probability `rate / RATE_SCALE`.
pub fn mutate(individual: &mut Vec<bool>, rate: usize)
    ensures
        is_mutation_of(old(individual)@, final(individual)@, rate),
        final(individual).len() == old(individual).len(),
        rate == 0 ==> final(individual)@ == old(individual)@,
        rate >= RATE_SCALE ==> forall|i: int|
            0 <= i < old(individual).len() ==> final(individual)@[i] == !old(individual)@[i],
{
    let mut draws: Vec<usize> = Vec::with_capacity(individual.len());
    let mut i: usize = 0;
    while i < individual.len()
        invariant
            i <= individual.len(),
            draws.len() == i,
            forall|j: int| 0 <= j < i ==> #[trigger] draws@[j] < RATE_SCALE,
        decreases individual.len() - i,
    {
        let d = draw_below(RATE_SCALE);
        draws.push(d);
        i = i + 1;
    }
    let ghost before = individual@;
    mutate_with_draws(individual, &draws, rate);
    proof {
        lemma_mutation_extremes(before, draws@);
    }
}

/// A rate of zero never changes an individual; a rate of `RATE_SCALE` flips
/// every gene, whatever the draws.
pub proof fn lemma_mutation_extremes(genes: Seq<bool>, draws: Seq<usize>)
    requires
        draws.len() == genes.len(),
        forall|i: int| 0 <= i < draws.len() ==> #[trigger] draws[i] < RATE_SCALE,
    ensures
        mutated(genes, draws, 0) == genes,
        forall|i: int|
            0 <= i < genes.len() ==> #[trigger] mutated(genes, draws, RATE_SCALE as usize)[i]
                == !genes[i],
{
    assert(mutated(genes, draws, 0) =~= genes);
}

/// Crossover at the extremes: at point 0 the first child is `dad` and the
/// second `mum`; at the full length the first child is `mum` and the second
/// `dad`; at the last position only the final gene is exchanged.
pub proof fn lemma_crossover_boundaries(mum: Seq<bool>, dad: Seq<bool>)
    requires
        mum.len() == dad.len(),
    ensures
        cross_first(mum, dad, 0) == dad,
        cross_second(mum, dad, 0) == mum,
        cross_first(mum, dad, mum.len() as int) == mum,
        cross_second(mum, dad, mum.len() as int) == dad,
        mum.len() > 0 ==> cross_first(mum, dad, mum.len() - 1) == mum.drop_last().push(
            dad.last(),
        ),
        mum.len() > 0 ==> cross_second(mum, dad, mum.len() - 1) == dad.drop_last().push(
            mum.last(),
        ),
{
    assert(cross_first(mum, dad, 0) =~= dad);
    assert(cross_second(mum, dad, 0) =~= mum);
    assert(cross_first(mum, dad, mum.len() as int) =~= mum);
    assert(cross_second(mum, dad, mum.len() as int) =~= dad);
    if mum.len() > 0 {
        assert(cross_first(mum, dad, mum.len() - 1) =~= mum.drop_last().push(dad.last()));
        assert(cross_second(mum, dad, mum.len() - 1) =~= dad.drop_last().push(mum.last()));
    }
}

/// Both children of a crossover at any admissible point have the parents'
/// length.
pub proof fn lemma_crossover_lengths(mum: Seq<bool>, dad: Seq<bool>, k: int)
    requires
        mum.len() == dad.len(),
        0 <= k <= mum.len(),
    ensures
        cross_first(mum, dad, k).len() == mum.len(),
        cross_second(mum, dad, k).len() == dad.len(),
{
}

} // verus!
