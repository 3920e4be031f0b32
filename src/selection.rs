//! Fitness-proportional ("roulette-wheel") selection.
use crate::random::draw_below;
use vstd::prelude::*;

verus! {

/// Sum of all scores.
pub open spec fn total(scores: Seq<usize>) -> nat
    decreases scores.len(),
{
    if scores.len() == 0 {
        0
    } else {
        scores[0] as nat + total(scores.drop_first())
    }
}

/// The first index at which the running sum of `scores` reaches `target`, or
/// the length when it never does.
pub open spec fn spin(scores: Seq<usize>, target: int) -> nat
    decreases scores.len(),
{
    if scores.len() == 0 {
        0
    } else if scores[0] >= target {
        0
    } else {
        1 + spin(scores.drop_first(), target - scores[0])
    }
}

/// The sum of a suffix never exceeds the sum of the whole.
pub proof fn lemma_total_suffix(scores: Seq<usize>, k: int)
    requires
        0 <= k <= scores.len(),
    ensures
        total(scores.skip(k)) <= total(scores),
    decreases k,
{
    if k == 0 {
        assert(scores.skip(0) =~= scores);
    } else {
        lemma_total_suffix(scores, k - 1);
        assert(scores.skip(k - 1).drop_first() =~= scores.skip(k));
    }
}

/// Scores bounded by `bound` sum to at most `len * bound`.
pub proof fn lemma_total_bounded(scores: Seq<usize>, bound: nat)
    requires
        forall|i: int| 0 <= i < scores.len() ==> scores[i] <= bound,
    ensures
        total(scores) <= scores.len() * bound,
    decreases scores.len(),
{
    if scores.len() > 0 {
        let rest = scores.drop_first();
        lemma_total_bounded(rest, bound);
        assert(scores.len() * bound == rest.len() * bound + bound) by (nonlinear_arith)
            requires
                scores.len() == rest.len() + 1,
        ;
    }
}

/// The sum of all scores, when it fits in a `usize`; `None` otherwise.
pub fn total_fitness(fitness: &Vec<usize>) -> (r: Option<usize>)
    ensures
        r == (if total(fitness@) <= usize::MAX {
            Some(total(fitness@) as usize)
        } else {
            None::<usize>
        }),
{
    let mut acc: usize = 0;
    let mut i: usize = fitness.len();
    while i > 0
        invariant
            i <= fitness.len(),
            acc as nat == total(fitness@.skip(i as int)),
        decreases i,
    {
        assert(fitness@.skip(i - 1).drop_first() =~= fitness@.skip(i as int));
        proof {
            lemma_total_suffix(fitness@, i - 1);
        }
        match acc.checked_add(fitness[i - 1]) {
            Some(s) => acc = s,
            None => return None,
        }
        i = i - 1;
    }
    assert(fitness@.skip(0) =~= fitness@);
    Some(acc)
}

/// Walks `fitness`, accumulating a running sum, and returns the first index at
/// which the sum reaches `max`; the length of `fitness` if it never does.
pub fn spin_index(fitness: &Vec<usize>, max: usize) -> (r: usize)
    ensures
        r as nat == spin(fitness@, max as int),
        r <= fitness.len(),
{
    let mut sum: usize = 0;
    let mut i: usize = 0;
    assert(fitness@.skip(0) =~= fitness@);
    while i < fitness.len()
        invariant
            i <= fitness.len(),
            sum <= max,
            spin(fitness@, max as int) == i + spin(fitness@.skip(i as int), max - sum),
        decreases fitness.len() - i,
    {
        assert(fitness@.skip(i as int).drop_first() =~= fitness@.skip(i + 1));
        if fitness[i] >= max - sum {
            return i;
        }
        sum = sum + fitness[i];
        i = i + 1;
    }
    i
}

/// The range `[0, draw_bound)` of a selection draw: the total score, or, when
/// every score is zero, the number of individuals.
pub open spec fn draw_bound(scores: Seq<usize>) -> nat {
    if total(scores) == 0 {
        scores.len()
    } else {
        total(scores)
    }
}

/// The index that one draw selects. On a positive total, the draw `d` in
/// `[0, total)` spins the wheel at `d + 1`, so that the targets cover
/// `[1, total]` and each index is reached by exactly as many draws as its
/// score. On a zero total, the draw itself (a uniform choice).
pub open spec fn picked(scores: Seq<usize>, draw: int) -> int {
    if total(scores) == 0 {
        draw
    } else {
        spin(scores, draw + 1) as int
    }
}

/// `index` is one that some admissible draw selects.
pub open spec fn selectable(scores: Seq<usize>, index: int) -> bool {
    exists|d: int| 0 <= d < draw_bound(scores) && picked(scores, d) == index
}

/// A spin for a target in `[1, total]` stops inside the sequence, on an
/// index with a non-zero score.
pub proof fn lemma_spin_hits_scored(scores: Seq<usize>, target: int)
    requires
        1 <= target <= total(scores),
    ensures
        spin(scores, target) < scores.len(),
        scores[spin(scores, target) as int] > 0,
    decreases scores.len(),
{
    if scores.len() > 0 && scores[0] < target {
        lemma_spin_hits_scored(scores.drop_first(), target - scores[0]);
    }
}

/// Every admissible draw selects an index of the population, and, on a
/// positive total, one with a non-zero score.
pub proof fn lemma_selection_in_range(scores: Seq<usize>, draw: int)
    requires
        0 <= draw < draw_bound(scores),
    ensures
        0 <= picked(scores, draw) < scores.len(),
        total(scores) > 0 ==> scores[picked(scores, draw)] > 0,
{
    if total(scores) > 0 {
        lemma_spin_hits_scored(scores, draw + 1);
    }
}

/// A selectable index lies in the population and, on a positive total, has a
/// non-zero score.
pub proof fn lemma_selectable_scored(scores: Seq<usize>, index: int)
    requires
        selectable(scores, index),
    ensures
        0 <= index < scores.len(),
        total(scores) > 0 ==> scores[index] > 0,
{
    let d = choose|d: int| 0 <= d < draw_bound(scores) && picked(scores, d) == index;
    lemma_selection_in_range(scores, d);
}

/// When only the score at `k` is non-zero, the total is that score.
pub proof fn lemma_total_sole(scores: Seq<usize>, k: int)
    requires
        0 <= k < scores.len(),
        forall|j: int| 0 <= j < scores.len() && j != k ==> scores[j] == 0,
    ensures
        total(scores) == scores[k],
    decreases scores.len(),
{
    if k > 0 {
        lemma_total_sole(scores.drop_first(), k - 1);
    } else {
        lemma_total_zero(scores.drop_first());
    }
}

/// A sequence of zeros sums to zero.
pub proof fn lemma_total_zero(scores: Seq<usize>)
    requires
        forall|j: int| 0 <= j < scores.len() ==> scores[j] == 0,
    ensures
        total(scores) == 0,
    decreases scores.len(),
{
    if scores.len() > 0 {
        lemma_total_zero(scores.drop_first());
    }
}

/// When only the score at `k` is non-zero, every target in `[1, scores[k]]`
/// spins to `k`.
pub proof fn lemma_spin_sole(scores: Seq<usize>, k: int, target: int)
    requires
        0 <= k < scores.len(),
        forall|j: int| 0 <= j < scores.len() && j != k ==> scores[j] == 0,
        1 <= target <= scores[k],
    ensures
        spin(scores, target) == k,
    decreases k,
{
    if k > 0 {
        lemma_spin_sole(scores.drop_first(), k - 1, target);
    }
}

/// When only the individual at `k` has a non-zero score, every admissible
/// draw selects it.
pub proof fn lemma_selection_sole(scores: Seq<usize>, k: int, draw: int)
    requires
        0 <= k < scores.len(),
        scores[k] > 0,
        forall|j: int| 0 <= j < scores.len() && j != k ==> scores[j] == 0,
        0 <= draw < draw_bound(scores),
    ensures
        picked(scores, draw) == k,
{
    lemma_total_sole(scores, k);
    lemma_spin_sole(scores, k, draw + 1);
}

/// When only the individual at `k` has a non-zero score, it is the only
/// selectable one.
pub proof fn lemma_selectable_sole(scores: Seq<usize>, k: int, index: int)
    requires
        0 <= k < scores.len(),
        scores[k] > 0,
        forall|j: int| 0 <= j < scores.len() && j != k ==> scores[j] == 0,
        selectable(scores, index),
    ensures
        index == k,
{
    let d = choose|d: int| 0 <= d < draw_bound(scores) && picked(scores, d) == index;
    lemma_selection_sole(scores, k, d);
}

/// The index that `draw` selects, given the total of `fitness`.
pub fn pick_index(fitness: &Vec<usize>, total_score: usize, draw: usize) -> (r: usize)
    requires
        total_score == total(fitness@),
        draw < draw_bound(fitness@),
    ensures
        r == picked(fitness@, draw as int),
        r < fitness.len(),
        total(fitness@) > 0 ==> fitness@[r as int] > 0,
{
    proof {
        lemma_selection_in_range(fitness@, draw as int);
    }
    if total_score == 0 {
        draw
    } else {
        spin_index(fitness, draw + 1)
    }
}

/// Draws two parents independently, in proportion to their scores (uniformly
/// when every score is zero), and returns their indices. Both may be the same.
pub fn select(fitness: &Vec<usize>, total_score: usize) -> (r: (usize, usize))
    requires
        fitness.len() > 0,
        total_score == total(fitness@),
    ensures
        r.0 < fitness.len(),
        r.1 < fitness.len(),
        selectable(fitness@, r.0 as int),
        selectable(fitness@, r.1 as int),
        total(fitness@) > 0 ==> fitness@[r.0 as int] > 0 && fitness@[r.1 as int] > 0,
{
    let bound = if total_score == 0 {
        fitness.len()
    } else {
        total_score
    };
    let d1 = draw_below(bound);
    let d2 = draw_below(bound);
    let i1 = pick_index(fitness, total_score, d1);
    let i2 = pick_index(fitness, total_score, d2);
    (i1, i2)
}

} // verus!
