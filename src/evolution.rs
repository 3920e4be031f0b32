//! Random initialisation and the generational step.
use crate::operators::{
    crossover, cross_first, cross_second, is_mutation_of, lemma_mutation_extremes, mutate, mutated,
    RATE_SCALE,
};
use crate::random::{draw_below, random_gene};
use crate::selection::{
    lemma_selectable_scored, lemma_selectable_sole, select, selectable, total, total_fitness,
};
use vstd::prelude::*;

verus! {

/// Every individual of `population` has `len` genes.
pub open spec fn uniform(population: Seq<Vec<bool>>, len: nat) -> bool {
    forall|i: int| 0 <= i < population.len() ==> (#[trigger] population[i])@.len() == len
}

/// `(c1, c2)` is what recombination may make of `mum` and `dad` at
/// `crossover_rate`: clones when the crossover draw does not fire (possible
/// only below `RATE_SCALE`), a crossover at a point in `[0, len)` when it
/// does (possible only above 0).
pub open spec fn recombined(
    mum: Seq<bool>,
    dad: Seq<bool>,
    c1: Seq<bool>,
    c2: Seq<bool>,
    crossover_rate: usize,
) -> bool {
    ||| crossover_rate < RATE_SCALE && c1 == mum && c2 == dad
    ||| crossover_rate > 0 && exists|k: int|
        0 <= k < mum.len() && c1 == cross_first(mum, dad, k) && c2 == cross_second(mum, dad, k)
}

/// `(c1, c2)` is a pair of children that one reproduction step can produce
/// from `population` scored by `fitness`: two selectable parents, recombined,
/// then each child mutated.
pub open spec fn is_offspring(
    population: Seq<Vec<bool>>,
    fitness: Seq<usize>,
    crossover_rate: usize,
    mutation_rate: usize,
    c1: Seq<bool>,
    c2: Seq<bool>,
) -> bool {
    exists|i1: int, i2: int, p1: Seq<bool>, p2: Seq<bool>|
        0 <= i1 < population.len() && 0 <= i2 < population.len() && selectable(fitness, i1)
            && selectable(fitness, i2) && #[trigger] recombined(
            population[i1]@,
            population[i2]@,
            p1,
            p2,
            crossover_rate,
        ) && is_mutation_of(p1, c1, mutation_rate) && is_mutation_of(p2, c2, mutation_rate)
}

/// An individual of `size` random genes.
pub fn random_individual(size: usize) -> (r: Vec<bool>)
    ensures
        r.len() == size,
{
    let mut individual: Vec<bool> = Vec::with_capacity(size);
    let mut i: usize = 0;
    while i < size
        invariant
            i <= size,
            individual.len() == i,
        decreases size - i,
    {
        individual.push(random_gene());
        i = i + 1;
    }
    individual
}

/// A population of `pop_size` random individuals of `chromosome_length` genes.
pub fn random_population(pop_size: usize, chromosome_length: usize) -> (r: Vec<Vec<bool>>)
    ensures
        r.len() == pop_size,
        uniform(r@, chromosome_length as nat),
{
    let mut pop: Vec<Vec<bool>> = Vec::with_capacity(pop_size);
    let mut i: usize = 0;
    while i < pop_size
        invariant
            i <= pop_size,
            pop.len() == i,
            uniform(pop@, chromosome_length as nat),
        decreases pop_size - i,
    {
        pop.push(random_individual(chromosome_length));
        i = i + 1;
    }
    pop
}

/// Builds the next generation: `population.len() / 2` times, selects two
/// parents, recombines them (crossover when a draw falls below
/// `crossover_rate`, clones otherwise), mutates both children at
/// `mutation_rate` and appends them. An odd population loses its last slot:
/// the next generation has `2 * (population.len() / 2)` individuals.
pub fn evolve(
    population: &Vec<Vec<bool>>,
    fitness: &Vec<usize>,
    crossover_rate: usize,
    mutation_rate: usize,
) -> (r: Vec<Vec<bool>>)
    requires
        fitness.len() == population.len(),
        total(fitness@) <= usize::MAX,
        population.len() > 0 ==> population[0].len() > 0,
        population.len() > 0 ==> uniform(population@, population[0]@.len()),
    ensures
        r.len() == 2 * (population.len() / 2),
        population.len() > 0 ==> uniform(r@, population[0]@.len()),
        is_next_generation(population@, fitness@, crossover_rate, mutation_rate, r@),
{
    let n = population.len();
    let num_pairs = n / 2;
    let mut next: Vec<Vec<bool>> = Vec::with_capacity(n);
    if num_pairs == 0 {
        return next;
    }
    let len = population[0].len();
    let total_score = total_fitness(fitness).unwrap();
    let mut j: usize = 0;
    while j < num_pairs
        invariant
            n == population.len(),
            n == fitness.len(),
            num_pairs == n / 2,
            num_pairs > 0,
            len == population[0].len(),
            len > 0,
            uniform(population@, len as nat),
            total_score == total(fitness@),
            j <= num_pairs,
            next.len() == 2 * j,
            uniform(next@, len as nat),
            forall|t: int|
                0 <= t < j ==> is_offspring(
                    population@,
                    fitness@,
                    crossover_rate,
                    mutation_rate,
                    #[trigger] next@[2 * t]@,
                    next@[2 * t + 1]@,
                ),
        decreases num_pairs - j,
    {
        let (i1, i2) = select(fitness, total_score);
        let mum = &population[i1];
        let dad = &population[i2];
        assert(mum.len() == len && dad.len() == len);
        let draw = draw_below(RATE_SCALE);
        let (mut child1, mut child2) = if draw < crossover_rate {
            crossover(mum, dad)
        } else {
            let c1 = mum.clone();
            let c2 = dad.clone();
            assert(c1@ =~= mum@);
            assert(c2@ =~= dad@);
            (c1, c2)
        };
        let ghost p1 = child1@;
        let ghost p2 = child2@;
        assert(recombined(mum@, dad@, p1, p2, crossover_rate));
        mutate(&mut child1, mutation_rate);
        mutate(&mut child2, mutation_rate);
        assert(is_offspring(population@, fitness@, crossover_rate, mutation_rate, child1@, child2@));
        let ghost prev = next@;
        next.push(child1);
        next.push(child2);
        j = j + 1;
        assert forall|t: int|
            0 <= t < j implies is_offspring(
            population@,
            fitness@,
            crossover_rate,
            mutation_rate,
            #[trigger] next@[2 * t]@,
            next@[2 * t + 1]@,
        ) by {
            if t < j - 1 {
                assert(next@[2 * t] == prev[2 * t]);
                assert(next@[2 * t + 1] == prev[2 * t + 1]);
            }
        }
    }
    next
}

/// Without mutation, a child of a recombination carries at position `i` the
/// gene that both parents carry there.
pub proof fn lemma_recombined_gene(
    mum: Seq<bool>,
    dad: Seq<bool>,
    p1: Seq<bool>,
    p2: Seq<bool>,
    crossover_rate: usize,
    i: int,
    b: bool,
)
    requires
        mum.len() == dad.len(),
        0 <= i < mum.len(),
        mum[i] == b,
        dad[i] == b,
        recombined(mum, dad, p1, p2, crossover_rate),
    ensures
        p1.len() == mum.len(),
        p2.len() == mum.len(),
        p1[i] == b,
        p2[i] == b,
{
    if !(crossover_rate < RATE_SCALE && p1 == mum && p2 == dad) {
        let k = choose|k: int|
            0 <= k < mum.len() && p1 == cross_first(mum, dad, k) && p2 == cross_second(
                mum,
                dad,
                k,
            );
        if i < k {
            assert(p1[i] == mum[i]);
            assert(p2[i] == dad[i]);
        } else {
            assert(p1[i] == dad[i]);
            assert(p2[i] == mum[i]);
        }
    }
}

/// Mutation at rate zero keeps every individual.
pub proof fn lemma_mutation_rate_zero(before: Seq<bool>, after: Seq<bool>)
    requires
        is_mutation_of(before, after, 0),
    ensures
        after == before,
{
    let d = choose|d: Seq<usize>|
        d.len() == before.len() && (forall|i: int| 0 <= i < d.len() ==> #[trigger] d[i] < RATE_SCALE)
            && after == mutated(before, d, 0);
    lemma_mutation_extremes(before, d);
}

/// On a positive total and without mutation, every gene of a child comes from
/// individuals with a non-zero score: where all of them carry `b` at position
/// `i`, so do both children.
pub proof fn lemma_offspring_gene(
    population: Seq<Vec<bool>>,
    fitness: Seq<usize>,
    crossover_rate: usize,
    len: nat,
    c1: Seq<bool>,
    c2: Seq<bool>,
    i: int,
    b: bool,
)
    requires
        fitness.len() == population.len(),
        total(fitness) > 0,
        uniform(population, len),
        0 <= i < len,
        forall|k: int| 0 <= k < population.len() && fitness[k] > 0 ==> #[trigger] population[k]@[i] == b,
        is_offspring(population, fitness, crossover_rate, 0, c1, c2),
    ensures
        c1[i] == b,
        c2[i] == b,
{
    let (i1, i2, p1, p2) = choose|i1: int, i2: int, p1: Seq<bool>, p2: Seq<bool>|
        0 <= i1 < population.len() && 0 <= i2 < population.len() && selectable(fitness, i1)
            && selectable(fitness, i2) && #[trigger] recombined(
            population[i1]@,
            population[i2]@,
            p1,
            p2,
            crossover_rate,
        ) && is_mutation_of(p1, c1, 0) && is_mutation_of(p2, c2, 0);
    lemma_selectable_scored(fitness, i1);
    lemma_selectable_scored(fitness, i2);
    assert(population[i1]@[i] == b);
    assert(population[i2]@[i] == b);
    lemma_recombined_gene(population[i1]@, population[i2]@, p1, p2, crossover_rate, i, b);
    lemma_mutation_rate_zero(p1, c1);
    lemma_mutation_rate_zero(p2, c2);
}

/// When only the individual at `k` has a non-zero score and nothing mutates,
/// both children are copies of it.
pub proof fn lemma_offspring_sole(
    population: Seq<Vec<bool>>,
    fitness: Seq<usize>,
    crossover_rate: usize,
    k: int,
    c1: Seq<bool>,
    c2: Seq<bool>,
)
    requires
        fitness.len() == population.len(),
        0 <= k < population.len(),
        fitness[k] > 0,
        forall|j: int| 0 <= j < fitness.len() && j != k ==> fitness[j] == 0,
        is_offspring(population, fitness, crossover_rate, 0, c1, c2),
    ensures
        c1 == population[k]@,
        c2 == population[k]@,
{
    let (i1, i2, p1, p2) = choose|i1: int, i2: int, p1: Seq<bool>, p2: Seq<bool>|
        0 <= i1 < population.len() && 0 <= i2 < population.len() && selectable(fitness, i1)
            && selectable(fitness, i2) && #[trigger] recombined(
            population[i1]@,
            population[i2]@,
            p1,
            p2,
            crossover_rate,
        ) && is_mutation_of(p1, c1, 0) && is_mutation_of(p2, c2, 0);
    lemma_selectable_sole(fitness, k, i1);
    lemma_selectable_sole(fitness, k, i2);
    let g = population[k]@;
    if !(crossover_rate < RATE_SCALE && p1 == g && p2 == g) {
        let x = choose|x: int|
            0 <= x < g.len() && p1 == cross_first(g, g, x) && p2 == cross_second(g, g, x);
        assert(cross_first(g, g, x) =~= g);
        assert(cross_second(g, g, x) =~= g);
    }
    lemma_mutation_rate_zero(p1, c1);
    lemma_mutation_rate_zero(p2, c2);
}

/// What `evolve` states of a next generation `next` built from `population`.
pub open spec fn is_next_generation(
    population: Seq<Vec<bool>>,
    fitness: Seq<usize>,
    crossover_rate: usize,
    mutation_rate: usize,
    next: Seq<Vec<bool>>,
) -> bool {
    &&& next.len() == 2 * (population.len() / 2)
    &&& forall|j: int|
        0 <= j < population.len() / 2 ==> is_offspring(
            population,
            fitness,
            crossover_rate,
            mutation_rate,
            #[trigger] next[2 * j]@,
            next[2 * j + 1]@,
        )
}

/// On a positive total and without mutation, a gene that every individual
/// with a non-zero score carries at position `i` is carried there by the
/// whole next generation.
pub proof fn lemma_next_generation_gene(
    population: Seq<Vec<bool>>,
    fitness: Seq<usize>,
    crossover_rate: usize,
    len: nat,
    next: Seq<Vec<bool>>,
    i: int,
    b: bool,
)
    requires
        fitness.len() == population.len(),
        total(fitness) > 0,
        uniform(population, len),
        0 <= i < len,
        forall|k: int| 0 <= k < population.len() && fitness[k] > 0 ==> #[trigger] population[k]@[i] == b,
        is_next_generation(population, fitness, crossover_rate, 0, next),
    ensures
        forall|m: int| 0 <= m < next.len() ==> (#[trigger] next[m])@[i] == b,
{
    assert forall|m: int| 0 <= m < next.len() implies (#[trigger] next[m])@[i] == b by {
        let j = m / 2;
        assert(0 <= j < population.len() / 2);
        lemma_offspring_gene(
            population,
            fitness,
            crossover_rate,
            len,
            next[2 * j]@,
            next[2 * j + 1]@,
            i,
            b,
        );
    }
}

/// When only the individual at `k` has a non-zero score and nothing mutates,
/// the whole next generation is made of copies of it.
pub proof fn lemma_next_generation_sole(
    population: Seq<Vec<bool>>,
    fitness: Seq<usize>,
    crossover_rate: usize,
    k: int,
    next: Seq<Vec<bool>>,
)
    requires
        fitness.len() == population.len(),
        0 <= k < population.len(),
        fitness[k] > 0,
        forall|j: int| 0 <= j < fitness.len() && j != k ==> fitness[j] == 0,
        is_next_generation(population, fitness, crossover_rate, 0, next),
    ensures
        forall|m: int| 0 <= m < next.len() ==> (#[trigger] next[m])@ == population[k]@,
{
    assert forall|m: int| 0 <= m < next.len() implies (#[trigger] next[m])@ == population[k]@ by {
        let j = m / 2;
        assert(0 <= j < population.len() / 2);
        lemma_offspring_sole(population, fitness, crossover_rate, k, next[2 * j]@, next[2 * j + 1]@);
    }
}

} // verus!
