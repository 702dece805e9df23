//! Recombining a population pair by pair.
use crate::arm::Arm;
use crate::arm::ArmView;
use crate::arm::fresh;
use crate::binary64::Binary64;
use crate::genetic::GeneticAlgorithm;
use crate::population::views_of;
use crate::stream::draw_index;
use crate::stream::index_between;
use crate::stream::stream_state;
use rand::rngs::StdRng;
use vstd::prelude::*;

verus! {

/// The vector that starts as `head` does, up to `locus`, and goes on as
/// `tail` does from there.
pub open spec fn spliced(head: Seq<i32>, tail: Seq<i32>, locus: int) -> Seq<i32> {
    head.take(locus) + tail.skip(locus)
}

/// The population after recombination. Candidates 0 and 1 are a pair, 2 and 3
/// the next, and `loci` holds one entry for each pair: a pair with a locus
/// gives way to its two children, which have not been evaluated; a pair
/// without one is carried over as it is.
pub open spec fn crossed(population: Seq<ArmView>, loci: Seq<Option<usize>>) -> Seq<ArmView> {
    Seq::new(
        population.len(),
        |i: int|
            {
                let mate = if i % 2 == 0 {
                    i + 1
                } else {
                    i - 1
                };
                match loci[i / 2] {
                    Some(locus) => fresh(
                        spliced(
                            population[i].coordinates,
                            population[mate].coordinates,
                            locus as int,
                        ),
                    ),
                    None => population[i],
                }
            },
    )
}

impl GeneticAlgorithm {
    /// Whether a pair is recombined, given the number drawn for it from the
    /// half-open interval from 0 to 1: where the number is below the
    /// crossover rate, and a candidate has more than one coordinate.
    pub fn crossover_triggered(&self, unit: Binary64) -> (triggered: bool)
        ensures
            triggered == (unit.lt_spec(self.crossover_rate) && self.dimension > 1),
    {
        unit.lt(&self.crossover_rate) && self.dimension > 1
    }

    /// The decision on one pair, given the number drawn for it and the state
    /// of the generator: the locus, drawn from 1 to the last index, where the
    /// pair is recombined, and the state of the generator afterwards.
    pub open spec fn cut(&self, unit: Binary64, state: Seq<u8>) -> (Option<usize>, Seq<u8>) {
        if unit.lt_spec(self.crossover_rate) && self.dimension > 1 {
            let draw = index_between(state, 1, (self.dimension - 1) as usize);
            (Some(draw.0), draw.1)
        } else {
            (None, state)
        }
    }

    /// Decides on one pair: where the number drawn for it triggers, the
    /// locus is drawn from `rng`, between the first coordinate and the last;
    /// where it does not, the generator is left alone.
    pub fn draw_cut(&self, unit: Binary64, rng: &mut StdRng) -> (locus: Option<usize>)
        ensures
            (locus, stream_state(*final(rng))) == self.cut(unit, stream_state(*old(rng))),
            locus is Some <==> unit.lt_spec(self.crossover_rate) && self.dimension > 1,
            locus matches Some(at) ==> 1 <= at < self.dimension,
    {
        if self.crossover_triggered(unit) {
            Some(draw_index(rng, 1, self.dimension - 1))
        } else {
            None
        }
    }

    /// Each locus of `loci` cuts a candidate in two parts that are not empty.
    pub open spec fn cuts(&self, loci: Seq<Option<usize>>) -> bool {
        forall|p: int|
            0 <= p < loci.len() ==> ((#[trigger] loci[p]) matches Some(locus) ==> 1 <= locus
                < self.dimension)
    }

    /// Recombines a population pair by pair: candidates 0 and 1, then 2 and
    /// 3, and so on. `loci` says for each pair where it is cut, if it is. The
    /// first child of a cut pair has the coordinates of the first parent
    /// before the locus and those of the second from the locus on, the second
    /// child the reverse; neither has been evaluated. A pair that is not cut
    /// is copied, statistics included.
    pub fn crossover(&self, loci: &Vec<Option<usize>>, population: &Vec<Arm>) -> (offspring: Vec<
        Arm,
    >)
        requires
            population.len() == 2 * loci.len(),
            forall|i: int|
                0 <= i < population.len() ==> (#[trigger] population[i])@.coordinates.len()
                    == self.dimension,
            self.cuts(loci@),
        ensures
            views_of(offspring@) == crossed(views_of(population@), loci@),
            offspring.len() == population.len(),
    {
        let mut offspring: Vec<Arm> = Vec::new();
        let mut p: usize = 0;
        while p < loci.len()
            invariant
                population.len() == 2 * loci.len(),
                0 <= p <= loci.len(),
                offspring.len() == 2 * p,
                forall|i: int|
                    0 <= i < population.len() ==> (#[trigger] population[i])@.coordinates.len()
                        == self.dimension,
                self.cuts(loci@),
                forall|i: int|
                    0 <= i < 2 * p ==> (#[trigger] offspring[i])@ == crossed(
                        views_of(population@),
                        loci@,
                    )[i],
            decreases loci.len() - p,
        {
            let first = &population[2 * p];
            let second = &population[2 * p + 1];
            proof {
                assert(views_of(population@)[2 * p] == first@);
                assert(views_of(population@)[2 * p + 1] == second@);
                assert(loci@[(2 * p) / 2] == loci@[p as int]);
                assert(loci@[(2 * p + 1) / 2] == loci@[p as int]);
            }
            match loci[p] {
                Some(locus) => {
                    let children = recombine(first, second, locus);
                    offspring.push(children.0);
                    offspring.push(children.1);
                },
                None => {
                    offspring.push(first.clone());
                    offspring.push(second.clone());
                },
            }
            p += 1;
        }
        assert(views_of(offspring@) =~= crossed(views_of(population@), loci@));
        offspring
    }
}

/// The two children of a pair that is cut at `locus`, neither evaluated: the
/// first starts as `first` and goes on as `second`, the second the reverse.
pub fn recombine(first: &Arm, second: &Arm, locus: usize) -> (children: (Arm, Arm))
    requires
        first@.coordinates.len() == second@.coordinates.len(),
        locus <= first@.coordinates.len(),
    ensures
        children.0@ == fresh(spliced(first@.coordinates, second@.coordinates, locus as int)),
        children.1@ == fresh(spliced(second@.coordinates, first@.coordinates, locus as int)),
{
    let a = first.get_action_vector();
    let b = second.get_action_vector();
    let one = splice(a, b, locus);
    let other = splice(b, a, locus);
    (Arm::new(one.as_slice()), Arm::new(other.as_slice()))
}

/// The vector that starts as `head` does, up to `locus`, and goes on as
/// `tail` does from there.
pub fn splice(head: &[i32], tail: &[i32], locus: usize) -> (vector: Vec<i32>)
    requires
        head@.len() == tail@.len(),
        locus <= head@.len(),
    ensures
        vector@ == spliced(head@, tail@, locus as int),
{
    let mut vector: Vec<i32> = Vec::new();
    let mut i: usize = 0;
    while i < head.len()
        invariant
            head@.len() == tail@.len(),
            locus <= head@.len(),
            0 <= i <= head.len(),
            vector.len() == i,
            forall|j: int|
                0 <= j < i ==> (#[trigger] vector@[j]) == (if j < locus {
                    head@[j]
                } else {
                    tail@[j]
                }),
        decreases head.len() - i,
    {
        if i < locus {
            vector.push(head[i]);
        } else {
            vector.push(tail[i]);
        }
        i += 1;
    }
    assert(vector@ =~= spliced(head@, tail@, locus as int));
    vector
}

/// With a single coordinate no pair can be cut: recombination hands the
/// population back as it is.
pub proof fn lemma_single_coordinate_is_carried_over(
    ga: GeneticAlgorithm,
    loci: Seq<Option<usize>>,
    population: Seq<ArmView>,
)
    requires
        ga.dimension <= 1,
        ga.cuts(loci),
        population.len() == 2 * loci.len(),
    ensures
        crossed(population, loci) == population,
{
    assert forall|i: int| 0 <= i < population.len() implies crossed(population, loci)[i]
        == population[i] by {
        assert(loci[i / 2] is None);
    }
    assert(crossed(population, loci) =~= population);
}

/// A pair without a locus is carried over with its statistics; a cut pair
/// gives way to two candidates that have not been evaluated, each with its
/// own start and its mate's end.
pub proof fn lemma_crossed_pair(population: Seq<ArmView>, loci: Seq<Option<usize>>, pair: int)
    requires
        population.len() == 2 * loci.len(),
        0 <= pair < loci.len(),
    ensures
        crossed(population, loci).len() == population.len(),
        loci[pair] is None ==> crossed(population, loci)[2 * pair] == population[2 * pair]
            && crossed(population, loci)[2 * pair + 1] == population[2 * pair + 1],
        loci[pair] matches Some(locus) ==> crossed(population, loci)[2 * pair] == fresh(
            spliced(
                population[2 * pair].coordinates,
                population[2 * pair + 1].coordinates,
                locus as int,
            ),
        ) && crossed(population, loci)[2 * pair + 1] == fresh(
            spliced(
                population[2 * pair + 1].coordinates,
                population[2 * pair].coordinates,
                locus as int,
            ),
        ),
{
    assert((2 * pair) / 2 == pair);
    assert((2 * pair + 1) / 2 == pair);
}

/// A child starts as its own parent does. It differs from that parent
/// exactly where the two parents differ from the locus on.
pub proof fn lemma_child_and_parent(own: Seq<i32>, mate: Seq<i32>, locus: int)
    requires
        own.len() == mate.len(),
        0 <= locus <= own.len(),
    ensures
        spliced(own, mate, locus).len() == own.len(),
        forall|i: int| 0 <= i < locus ==> spliced(own, mate, locus)[i] == own[i],
        forall|i: int| locus <= i < own.len() ==> spliced(own, mate, locus)[i] == mate[i],
        spliced(own, mate, locus) == own <==> own.skip(locus) == mate.skip(locus),
{
    let child = spliced(own, mate, locus);
    if child == own {
        assert forall|i: int| 0 <= i < own.len() - locus implies own.skip(locus)[i] == mate.skip(
            locus,
        )[i] by {
            assert(child[locus + i] == mate[locus + i]);
        }
        assert(own.skip(locus) =~= mate.skip(locus));
    }
    if own.skip(locus) == mate.skip(locus) {
        assert forall|i: int| 0 <= i < own.len() implies child[i] == own[i] by {
            if i >= locus {
                assert(own.skip(locus)[i - locus] == mate.skip(locus)[i - locus]);
            }
        }
        assert(child =~= own);
    }
}

} // verus!
