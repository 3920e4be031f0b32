//! One run of the algorithm, from a random population to convergence or to a
//! generation cap.
use crate::evolution::{evolve, random_population, uniform};
use crate::fitness::{converged, evaluate, is_fitness_of, lemma_count_le_len, solved, CountOnes};
use crate::selection::{lemma_total_bounded, total};
use vstd::prelude::*;

verus! {

/// How a run ended, with the last generation and its scores.
pub enum RunOutcome {
    /// The best individual reached the optimum at `generation`.
    Solved { generation: usize, population: Vec<Vec<bool>>, fitness: Vec<usize> },
    /// The cap was reached without the optimum.
    Exhausted { generation: usize, population: Vec<Vec<bool>>, fitness: Vec<usize> },
}

/// Size of the population at `generation`: odd sizes lose one slot from the
/// first reproduction on.
pub open spec fn size_at(pop_size: usize, generation: usize) -> nat {
    if generation == 0 {
        pop_size as nat
    } else {
        2 * (pop_size / 2) as nat
    }
}

/// What the last generation of a run satisfies, whichever way it ended.
pub open spec fn final_generation(
    pop_size: usize,
    chromosome_length: usize,
    generation: usize,
    population: Seq<Vec<bool>>,
    fitness: Seq<usize>,
) -> bool {
    &&& population.len() == size_at(pop_size, generation)
    &&& uniform(population, chromosome_length as nat)
    &&& is_fitness_of(&CountOnes, population, fitness)
}

/// Evolves a random population of `pop_size` individuals of
/// `chromosome_length` genes, scored by the number of set genes, until some
/// individual has every gene set or `max_generations` reproductions have
/// taken place.
pub fn run(
    pop_size: usize,
    chromosome_length: usize,
    crossover_rate: usize,
    mutation_rate: usize,
    max_generations: usize,
) -> (r: RunOutcome)
    requires
        chromosome_length > 0,
        pop_size * chromosome_length <= usize::MAX,
    ensures
        match r {
            RunOutcome::Solved { generation, population, fitness } => {
                &&& generation <= max_generations
                &&& converged(fitness@, chromosome_length)
                &&& final_generation(
                    pop_size,
                    chromosome_length,
                    generation,
                    population@,
                    fitness@,
                )
            },
            RunOutcome::Exhausted { generation, population, fitness } => {
                &&& generation == max_generations
                &&& !converged(fitness@, chromosome_length)
                &&& final_generation(
                    pop_size,
                    chromosome_length,
                    generation,
                    population@,
                    fitness@,
                )
            },
        },
{
    let mut generation: usize = 0;
    let mut population = random_population(pop_size, chromosome_length);
    loop
        invariant
            chromosome_length > 0,
            pop_size * chromosome_length <= usize::MAX,
            generation <= max_generations,
            population.len() == size_at(pop_size, generation),
            uniform(population@, chromosome_length as nat),
        decreases max_generations - generation,
    {
        let fitness = evaluate(&population, &CountOnes);
        if solved(&fitness, chromosome_length) {
            return RunOutcome::Solved { generation, population, fitness };
        }
        if generation == max_generations {
            return RunOutcome::Exhausted { generation, population, fitness };
        }
        proof {
            assert forall|i: int| 0 <= i < fitness.len() implies fitness@[i]
                <= chromosome_length as nat by {
                lemma_count_le_len(population@[i]@);
            }
            lemma_total_bounded(fitness@, chromosome_length as nat);
            let n = population.len();
            assert(n * chromosome_length <= pop_size * chromosome_length) by (nonlinear_arith)
                requires
                    n <= pop_size,
            ;
        }
        population = evolve(&population, &fitness, crossover_rate, mutation_rate);
        generation = generation + 1;
    }
}

} // verus!
