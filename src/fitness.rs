//! Fitness evaluation and the convergence test.
use vstd::prelude::*;

verus! {

/// Number of genes equal to `true`.
pub open spec fn count_true(genes: Seq<bool>) -> nat
    decreases genes.len(),
{
    if genes.len() == 0 {
        0
    } else {
        count_true(genes.drop_last()) + if genes.last() { 1nat } else { 0nat }
    }
}

/// A scoring function over individuals.
pub trait Scorer {
    /// The score of an individual, as a mathematical value.
    spec fn spec_score(&self, genes: Seq<bool>) -> nat;

    fn score(&self, individual: &Vec<bool>) -> (r: usize)
        ensures
            r as nat == self.spec_score(individual@),
    ;
}

/// The built-in fitness: how many genes are set.
pub struct CountOnes;

impl Scorer for CountOnes {
    open spec fn spec_score(&self, genes: Seq<bool>) -> nat {
        count_true(genes)
    }

    fn score(&self, individual: &Vec<bool>) -> (r: usize) {
        let mut n: usize = 0;
        let mut i: usize = 0;
        while i < individual.len()
            invariant
                i <= individual.len(),
                n as nat == count_true(individual@.take(i as int)),
                n <= i,
            decreases individual.len() - i,
        {
            proof {
                assert(individual@.take(i as int + 1).drop_last() =~= individual@.take(i as int));
            }
            if individual[i] {
                n = n + 1;
            }
            i = i + 1;
        }
        assert(individual@.take(i as int) =~= individual@);
        n
    }
}

/// `scores` holds, index for index, the score of each individual of `population`.
pub open spec fn is_fitness_of<S: Scorer>(
    scorer: &S,
    population: Seq<Vec<bool>>,
    scores: Seq<usize>,
) -> bool {
    &&& scores.len() == population.len()
    &&& forall|i: int|
        0 <= i < population.len() ==> scores[i] as nat == scorer.spec_score(#[trigger] population[i]@)
}

/// Scores every individual of `population` with `scorer`, keeping the order.
pub fn evaluate<S: Scorer>(population: &Vec<Vec<bool>>, scorer: &S) -> (r: Vec<usize>)
    ensures
        is_fitness_of(scorer, population@, r@),
{
    let mut scores: Vec<usize> = Vec::with_capacity(population.len());
    let mut i: usize = 0;
    while i < population.len()
        invariant
            i <= population.len(),
            is_fitness_of(scorer, population@.take(i as int), scores@),
        decreases population.len() - i,
    {
        let s = scorer.score(&population[i]);
        scores.push(s);
        i = i + 1;
        assert(is_fitness_of(scorer, population@.take(i as int), scores@)) by {
            assert forall|j: int| 0 <= j < i implies scores@[j] as nat == scorer.spec_score(
                #[trigger] population@.take(i as int)[j]@,
            ) by {
                if j < i - 1 {
                    assert(population@.take(i as int)[j] == population@.take(i - 1)[j]);
                }
            }
        }
    }
    assert(population@.take(i as int) =~= population@);
    scores
}

/// The largest score equals `target`.
pub open spec fn converged(scores: Seq<usize>, target: usize) -> bool {
    &&& exists|i: int| 0 <= i < scores.len() && scores[i] == target
    &&& forall|i: int| 0 <= i < scores.len() ==> scores[i] <= target
}

/// Whether the best score of a generation has reached `target`.
pub fn solved(scores: &Vec<usize>, target: usize) -> (r: bool)
    ensures
        r == converged(scores@, target),
{
    let mut found = false;
    let mut i: usize = 0;
    while i < scores.len()
        invariant
            i <= scores.len(),
            forall|j: int| 0 <= j < i ==> scores@[j] <= target,
            found == exists|j: int| 0 <= j < i && scores@[j] == target,
        decreases scores.len() - i,
    {
        if scores[i] > target {
            return false;
        }
        if scores[i] == target {
            found = true;
        }
        i = i + 1;
    }
    found
}

/// No bitstring scores more than its length.
pub proof fn lemma_count_le_len(genes: Seq<bool>)
    ensures
        count_true(genes) <= genes.len(),
    decreases genes.len(),
{
    if genes.len() > 0 {
        lemma_count_le_len(genes.drop_last());
    }
}

/// A bitstring with every gene set scores its own length.
pub proof fn lemma_count_all_true(genes: Seq<bool>)
    requires
        forall|i: int| 0 <= i < genes.len() ==> genes[i],
    ensures
        count_true(genes) == genes.len(),
    decreases genes.len(),
{
    if genes.len() > 0 {
        lemma_count_all_true(genes.drop_last());
    }
}

/// Scoring is a function of the population: two evaluations of the same
/// population with the same scorer give the same scores.
pub proof fn lemma_evaluate_idempotent<S: Scorer>(
    scorer: &S,
    population: Seq<Vec<bool>>,
    first: Seq<usize>,
    second: Seq<usize>,
)
    requires
        is_fitness_of(scorer, population, first),
        is_fitness_of(scorer, population, second),
    ensures
        first == second,
{
    assert forall|i: int| 0 <= i < first.len() implies first[i] == second[i] by {
        assert(first[i] as nat == scorer.spec_score(population[i]@));
        assert(second[i] as nat == scorer.spec_score(population[i]@));
    }
    assert(first =~= second);
}

/// In a non-empty population where every individual has `len` genes, all set,
/// the built-in fitness gives `len` to each individual and the convergence
/// test against `len` succeeds at once.
pub proof fn lemma_all_ones_converged(population: Seq<Vec<bool>>, len: usize, scores: Seq<usize>)
    requires
        population.len() > 0,
        forall|i: int| 0 <= i < population.len() ==> (#[trigger] population[i])@.len() == len,
        forall|i: int, j: int|
            0 <= i < population.len() && 0 <= j < len ==> #[trigger] population[i]@[j],
        is_fitness_of(&CountOnes, population, scores),
    ensures
        forall|i: int| 0 <= i < scores.len() ==> scores[i] == len,
        converged(scores, len),
{
    assert forall|i: int| 0 <= i < scores.len() implies scores[i] == len by {
        let g = population[i]@;
        assert forall|j: int| 0 <= j < g.len() implies g[j] by {
            assert(population[i]@[j]);
        }
        lemma_count_all_true(g);
    }
    assert(scores[0] == len);
}

} // verus!
