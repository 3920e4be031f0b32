use genetic::driver::{run, RunOutcome};
use genetic::evolution::{evolve, random_individual, random_population};
use genetic::fitness::{evaluate, solved, CountOnes, Scorer};
use genetic::operators::{crossover, crossover_at, mutate, mutate_with_draws, RATE_SCALE};
use genetic::selection::{pick_index, select, spin_index, total_fitness};

fn bits(s: &str) -> Vec<bool> {
    s.chars().map(|c| c == '1').collect()
}

#[test]
fn initializer_gives_configured_lengths() {
    let pop = random_population(6, 9);
    assert_eq!(pop.len(), 6);
    for ind in &pop {
        assert_eq!(ind.len(), 9);
    }
    assert_eq!(random_population(0, 9).len(), 0);
    assert_eq!(random_individual(0).len(), 0);
}

#[test]
fn random_genes_are_not_constant() {
    let ind = random_individual(256);
    assert!(ind.iter().any(|b| *b));
    assert!(ind.iter().any(|b| !*b));
}

#[test]
fn count_ones_scores_set_genes() {
    assert_eq!(CountOnes.score(&bits("10110")), 3);
    assert_eq!(CountOnes.score(&bits("")), 0);
    assert_eq!(CountOnes.score(&bits("0000")), 0);
}

#[test]
fn scenario_four_individuals_of_three_genes() {
    let pop = vec![bits("111"), bits("000"), bits("100"), bits("011")];
    let scores = evaluate(&pop, &CountOnes);
    assert_eq!(scores, vec![3, 0, 1, 2]);
    assert!(solved(&scores, 3));
}

#[test]
fn all_ones_population_converges_at_once() {
    let pop = vec![bits("11111"); 4];
    let scores = evaluate(&pop, &CountOnes);
    assert_eq!(scores, vec![5, 5, 5, 5]);
    assert!(solved(&scores, 5));
}

#[test]
fn evaluation_is_repeatable() {
    let pop = vec![bits("1010"), bits("0111"), bits("0000")];
    let a = evaluate(&pop, &CountOnes);
    let b = evaluate(&pop, &CountOnes);
    assert_eq!(a, b);
    assert_eq!(a, vec![2, 3, 0]);
}

#[test]
fn solved_needs_the_target_as_maximum() {
    assert!(!solved(&vec![1, 2, 2], 3));
    assert!(!solved(&vec![], 3));
    assert!(!solved(&vec![4, 3], 3));
    assert!(solved(&vec![0, 3, 1], 3));
}

#[test]
fn spin_stops_where_running_sum_reaches_draw() {
    let f = vec![3, 1, 1, 2];
    assert_eq!(spin_index(&f, 4), 1);
    assert_eq!(spin_index(&f, 0), 0);
    assert_eq!(spin_index(&f, 3), 0);
    assert_eq!(spin_index(&f, 5), 2);
    assert_eq!(spin_index(&f, 6), 3);
    assert_eq!(spin_index(&f, 7), 3);
    assert_eq!(spin_index(&f, 8), 4);
    assert_eq!(spin_index(&vec![], 0), 0);
}

#[test]
fn spin_does_not_overflow() {
    let f = vec![usize::MAX - 1, usize::MAX - 1, 5];
    assert_eq!(spin_index(&f, usize::MAX), 1);
}

#[test]
fn total_fitness_sums_or_reports_overflow() {
    assert_eq!(total_fitness(&vec![3, 1, 1, 2]), Some(7));
    assert_eq!(total_fitness(&vec![]), Some(0));
    assert_eq!(total_fitness(&vec![usize::MAX, 1]), None);
}

#[test]
fn pick_index_spins_or_falls_back_to_uniform() {
    let f = vec![3, 1, 1, 2];
    let picks: Vec<usize> = (0..7).map(|d| pick_index(&f, 7, d)).collect();
    assert_eq!(picks, vec![0, 0, 0, 1, 2, 3, 3]);
    let zeros = vec![0, 0, 0];
    assert_eq!(pick_index(&zeros, 0, 2), 2);
}

#[test]
fn selection_stays_in_range() {
    let f = vec![3, 1, 1, 2];
    for _ in 0..200 {
        let (a, b) = select(&f, 7);
        assert!(a < 4 && b < 4);
    }
    let zeros = vec![0, 0, 0];
    for _ in 0..200 {
        let (a, b) = select(&zeros, 0);
        assert!(a < 3 && b < 3);
    }
}

#[test]
fn sole_nonzero_individual_is_always_selected() {
    let first = vec![4, 0, 0];
    for _ in 0..200 {
        assert_eq!(select(&first, 4), (0, 0));
    }
    let middle = vec![0, 4, 0];
    for d in 0..4 {
        assert_eq!(pick_index(&middle, 4, d), 1);
    }
    for _ in 0..200 {
        assert_eq!(select(&middle, 4), (1, 1));
    }
}

#[test]
fn zero_scores_are_never_selected_on_a_positive_total() {
    let f = vec![0, 3, 0, 2, 0];
    for d in 0..5 {
        let i = pick_index(&f, 5, d);
        assert!(f[i] > 0);
    }
    for _ in 0..200 {
        let (a, b) = select(&f, 5);
        assert!(f[a] > 0 && f[b] > 0);
    }
}

#[test]
fn crossover_at_boundaries() {
    let mum = bits("1111");
    let dad = bits("0000");
    assert_eq!(crossover_at(&mum, &dad, 0), (dad.clone(), mum.clone()));
    assert_eq!(crossover_at(&mum, &dad, 4), (mum.clone(), dad.clone()));
    assert_eq!(crossover_at(&mum, &dad, 3), (bits("1110"), bits("0001")));
    assert_eq!(crossover_at(&mum, &dad, 2), (bits("1100"), bits("0011")));
}

#[test]
fn crossover_keeps_lengths_and_genes() {
    let mum = bits("111111");
    let dad = bits("000000");
    for _ in 0..100 {
        let (c1, c2) = crossover(&mum, &dad);
        assert_eq!(c1.len(), 6);
        assert_eq!(c2.len(), 6);
        let k = c1.iter().take_while(|b| **b).count();
        assert!(k < 6);
        assert_eq!((c1.clone(), c2.clone()), crossover_at(&mum, &dad, k));
    }
}

#[test]
fn mutation_at_rate_zero_changes_nothing() {
    let mut ind = bits("1011001");
    mutate(&mut ind, 0);
    assert_eq!(ind, bits("1011001"));
}

#[test]
fn mutation_at_full_rate_flips_every_gene() {
    let mut ind = bits("1011001");
    mutate(&mut ind, RATE_SCALE);
    assert_eq!(ind, bits("0100110"));
}

#[test]
fn mutation_with_given_draws() {
    let mut ind = bits("1100");
    mutate_with_draws(&mut ind, &vec![5, 500, 9, 1000], 10);
    assert_eq!(ind, bits("0110"));
}

#[test]
fn evolve_keeps_even_sizes_and_drops_odd_slot() {
    let pop = vec![bits("1010"), bits("0101"), bits("1100"), bits("0011"), bits("1111")];
    let f = evaluate(&pop, &CountOnes);
    let next = evolve(&pop, &f, 700000, 1000);
    assert_eq!(next.len(), 4);
    for ind in &next {
        assert_eq!(ind.len(), 4);
    }
    let even = evolve(&next, &evaluate(&next, &CountOnes), 700000, 1000);
    assert_eq!(even.len(), 4);
    assert_eq!(evolve(&vec![bits("1")], &vec![1], 0, 0).len(), 0);
}

#[test]
fn evolve_without_crossover_or_mutation_copies_parents() {
    let pop = vec![bits("110"), bits("000"), bits("000"), bits("000")];
    let f = evaluate(&pop, &CountOnes);
    let next = evolve(&pop, &f, 0, 0);
    assert_eq!(next, vec![bits("110"); 4]);
}

#[test]
fn run_reports_a_consistent_outcome() {
    match run(20, 8, 700000, 1000, 2000) {
        RunOutcome::Solved { generation, population, fitness } => {
            assert!(generation <= 2000);
            assert_eq!(population.len(), 20);
            assert_eq!(fitness, evaluate(&population, &CountOnes));
            assert!(fitness.iter().any(|f| *f == 8));
        }
        RunOutcome::Exhausted { generation, fitness, .. } => {
            assert_eq!(generation, 2000);
            assert!(fitness.iter().all(|f| *f < 8));
        }
    }
}

#[test]
fn run_with_no_generations_allowed_stops_at_zero() {
    match run(3, 30, 700000, 1000, 0) {
        RunOutcome::Solved { generation, population, .. } => {
            assert_eq!(generation, 0);
            assert_eq!(population.len(), 3);
        }
        RunOutcome::Exhausted { generation, population, fitness } => {
            assert_eq!(generation, 0);
            assert_eq!(population.len(), 3);
            assert_eq!(fitness.len(), 3);
        }
    }
}

#[test]
fn evolve_with_one_scored_individual_copies_it() {
    let pop = vec![bits("000"), bits("000"), bits("010"), bits("000")];
    let f = evaluate(&pop, &CountOnes);
    let next = evolve(&pop, &f, 700000, 0);
    assert_eq!(next, vec![bits("010"); 4]);
}
