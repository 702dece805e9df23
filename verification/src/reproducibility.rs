//! Runs of the three operators, one after the other.
use crate::arm::Arm;
use crate::crossover::crossed;
use crate::generation::lemma_generation_is_reproducible;
use crate::genetic::GeneticAlgorithm;
use crate::population::coordinates_of;
use crate::population::lemma_fresh_populations_agree;
use crate::population::views_of;
use vstd::prelude::*;

verus! {

/// The three populations of one run: the one that is generated, the one that
/// recombination makes of it, and the one that mutation makes of that.
pub struct Run {
    pub generated: Seq<Arm>,
    pub crossed: Seq<Arm>,
    pub mutated: Seq<Arm>,
}

/// `run` is a run of `ga` from `seed`, with the pairs cut at `loci` and the
/// coordinates moved by `moves`.
pub open spec fn runs(
    ga: GeneticAlgorithm,
    seed: u64,
    loci: Seq<Option<usize>>,
    moves: Seq<Seq<Option<i32>>>,
    run: Run,
) -> bool {
    &&& ga.generated(seed, run.generated)
    &&& views_of(run.crossed) == crossed(views_of(run.generated), loci)
    &&& ga.mutated(moves, run.crossed, run.mutated)
}

/// Reproducible runs: two runs that generate from the same seed, recombine
/// by the same loci and perturb by the same moves end with the same
/// population, whatever else differs between the two engines.
pub proof fn lemma_run_is_reproducible(
    one: GeneticAlgorithm,
    other: GeneticAlgorithm,
    seed: u64,
    loci: Seq<Option<usize>>,
    moves: Seq<Seq<Option<i32>>>,
    first: Run,
    second: Run,
)
    requires
        one.population_size == other.population_size,
        one.lower_bound@ == other.lower_bound@,
        one.upper_bound@ == other.upper_bound@,
        runs(one, seed, loci, moves, first),
        runs(other, seed, loci, moves, second),
    ensures
        views_of(first.generated) == views_of(second.generated),
        views_of(first.crossed) == views_of(second.crossed),
        views_of(first.mutated) == views_of(second.mutated),
{
    lemma_generation_is_reproducible(one, other, seed, first.generated, second.generated);
    assert(views_of(first.crossed) == views_of(second.crossed));
    assert(coordinates_of(first.crossed) =~= coordinates_of(second.crossed)) by {
        assert(views_of(first.crossed).len() == first.crossed.len());
        assert(views_of(second.crossed).len() == second.crossed.len());
        assert forall|i: int| 0 <= i < first.crossed.len() implies coordinates_of(
            first.crossed,
        )[i] == coordinates_of(second.crossed)[i] by {
            assert(views_of(first.crossed)[i] == first.crossed[i]@);
            assert(views_of(second.crossed)[i] == second.crossed[i]@);
        }
    }
    lemma_fresh_populations_agree(first.mutated, second.mutated);
}

} // verus!
