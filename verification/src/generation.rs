//! Making a new population from a seed.
use crate::arm::Arm;
use crate::genetic::GeneticAlgorithm;
use crate::genetic::within;
use crate::population::all_fresh;
use crate::population::coordinates_of;
use crate::population::enlist;
use crate::population::enlisted;
use crate::population::lemma_enlisted_population;
use crate::population::lemma_fresh_populations_agree;
use crate::population::views_of;
use crate::stream::between;
use crate::stream::draw_between;
use crate::stream::seeded;
use crate::stream::seeded_state;
use crate::stream::stream_state;
use rand::rngs::StdRng;
use vstd::prelude::*;

verus! {

/// The most candidate vectors that one population is drawn from. Drawing
/// stops there, with the candidates found, where the bounds hold fewer points
/// than the population asks for.
pub const ATTEMPT_LIMIT: u64 = 0xFFFF_FFFF_FFFF_FFFF;

/// The first `count` coordinates drawn from a generator in `state`, one after
/// the other and each within its bounds, and the state after the last draw.
pub open spec fn drawn(state: Seq<u8>, lower: Seq<i32>, upper: Seq<i32>, count: nat) -> (
    Seq<i32>,
    Seq<u8>,
)
    decreases count,
{
    if count == 0 {
        (Seq::empty(), state)
    } else {
        let before = drawn(state, lower, upper, (count - 1) as nat);
        let draw = between(before.1, lower[count - 1], upper[count - 1]);
        (before.0.push(draw.0), draw.1)
    }
}

/// The population that grows out of `chosen` by drawing candidate vectors
/// from a generator in `state`: a vector that is already there is passed
/// over, and drawing ends when `size` vectors are there or `attempts` vectors
/// have been drawn.
pub open spec fn populated(
    state: Seq<u8>,
    lower: Seq<i32>,
    upper: Seq<i32>,
    size: nat,
    chosen: Seq<Seq<i32>>,
    attempts: nat,
) -> Seq<Seq<i32>>
    decreases attempts,
{
    if chosen.len() >= size || attempts == 0 {
        chosen
    } else {
        let candidate = drawn(state, lower, upper, lower.len());
        populated(
            candidate.1,
            lower,
            upper,
            size,
            enlisted(chosen, candidate.0),
            (attempts - 1) as nat,
        )
    }
}

impl GeneticAlgorithm {
    /// `population` is what `generate_new_population` makes of `seed`: the
    /// first distinct vectors of the stream that the seed gives, each a
    /// candidate that has not been evaluated.
    pub open spec fn generated(&self, seed: u64, population: Seq<Arm>) -> bool {
        &&& coordinates_of(population) == populated(
            seeded_state(seed),
            self.lower_bound@,
            self.upper_bound@,
            self.population_size as nat,
            Seq::empty(),
            ATTEMPT_LIMIT as nat,
        )
        &&& all_fresh(population)
    }

    /// A new population of `population_size` distinct candidates, each
    /// coordinate drawn from its bounds by the stream of `seed`. A vector
    /// that the population holds already is passed over, and another is
    /// drawn in its place. Fewer candidates come back only where
    /// `ATTEMPT_LIMIT` vectors did not hold enough distinct ones.
    pub fn generate_new_population(&self, seed: u64) -> (individuals: Vec<Arm>)
        requires
            self.bounded(),
        ensures
            self.generated(seed, individuals@),
            individuals.len() <= self.population_size,
            coordinates_of(individuals@).no_duplicates(),
            forall|i: int|
                0 <= i < individuals.len() ==> within(
                    (#[trigger] individuals[i])@.coordinates,
                    self.lower_bound@,
                    self.upper_bound@,
                ),
    {
        let mut individuals: Vec<Arm> = Vec::new();
        let mut rng = seeded(seed);
        let mut attempts: u64 = ATTEMPT_LIMIT;
        assert(coordinates_of(individuals@) =~= Seq::<Seq<i32>>::empty());
        while individuals.len() < self.population_size && attempts > 0
            invariant
                self.bounded(),
                individuals.len() <= self.population_size,
                all_fresh(individuals@),
                coordinates_of(individuals@).no_duplicates(),
                forall|i: int|
                    0 <= i < individuals.len() ==> within(
                        (#[trigger] individuals[i])@.coordinates,
                        self.lower_bound@,
                        self.upper_bound@,
                    ),
                populated(
                    seeded_state(seed),
                    self.lower_bound@,
                    self.upper_bound@,
                    self.population_size as nat,
                    Seq::empty(),
                    ATTEMPT_LIMIT as nat,
                ) == populated(
                    stream_state(rng),
                    self.lower_bound@,
                    self.upper_bound@,
                    self.population_size as nat,
                    coordinates_of(individuals@),
                    attempts as nat,
                ),
            decreases attempts,
        {
            let candidate = self.draw_candidate(&mut rng);
            let ghost before = individuals@;
            enlist(&mut individuals, candidate.as_slice());
            attempts = attempts - 1;
            proof {
                lemma_enlisted_population(before, individuals@, candidate@);
            }
        }
        individuals
    }

    /// One candidate vector: each coordinate drawn from its bounds, the first
    /// coordinate first.
    fn draw_candidate(&self, rng: &mut StdRng) -> (candidate: Vec<i32>)
        requires
            self.bounded(),
        ensures
            within(candidate@, self.lower_bound@, self.upper_bound@),
            (candidate@, stream_state(*final(rng))) == drawn(
                stream_state(*old(rng)),
                self.lower_bound@,
                self.upper_bound@,
                self.dimension as nat,
            ),
    {
        let mut candidate: Vec<i32> = Vec::new();
        let mut j: usize = 0;
        while j < self.dimension
            invariant
                self.bounded(),
                0 <= j <= self.dimension,
                candidate.len() == j,
                forall|i: int|
                    0 <= i < j ==> self.lower_bound@[i] <= (#[trigger] candidate@[i])
                        <= self.upper_bound@[i],
                (candidate@, stream_state(*rng)) == drawn(
                    stream_state(*old(rng)),
                    self.lower_bound@,
                    self.upper_bound@,
                    j as nat,
                ),
            decreases self.dimension - j,
        {
            let value = draw_between(rng, self.lower_bound[j], self.upper_bound[j]);
            candidate.push(value);
            j += 1;
        }
        candidate
    }
}

/// Reproducible generation: two engines with the same population size and
/// the same bounds make the same population of one seed, whatever their
/// rates and however often they are asked.
pub proof fn lemma_generation_is_reproducible(
    one: GeneticAlgorithm,
    other: GeneticAlgorithm,
    seed: u64,
    first: Seq<Arm>,
    second: Seq<Arm>,
)
    requires
        one.population_size == other.population_size,
        one.lower_bound@ == other.lower_bound@,
        one.upper_bound@ == other.upper_bound@,
        one.generated(seed, first),
        other.generated(seed, second),
    ensures
        coordinates_of(first) == coordinates_of(second),
        views_of(first) == views_of(second),
{
    lemma_fresh_populations_agree(first, second);
}

/// The candidates of a generated population are distinct, and there are no
/// more of them than the engine asks for.
pub proof fn lemma_generated_population(ga: GeneticAlgorithm, seed: u64, population: Seq<Arm>)
    requires
        ga.generated(seed, population),
    ensures
        population.len() <= ga.population_size,
        coordinates_of(population).no_duplicates(),
{
    lemma_populated(
        seeded_state(seed),
        ga.lower_bound@,
        ga.upper_bound@,
        ga.population_size as nat,
        Seq::empty(),
        ATTEMPT_LIMIT as nat,
    );
    assert(coordinates_of(population).len() == population.len());
}

/// Growing a population keeps it distinct, and never takes it beyond the
/// size asked for.
pub proof fn lemma_populated(
    state: Seq<u8>,
    lower: Seq<i32>,
    upper: Seq<i32>,
    size: nat,
    chosen: Seq<Seq<i32>>,
    attempts: nat,
)
    requires
        chosen.len() <= size,
        chosen.no_duplicates(),
    ensures
        populated(state, lower, upper, size, chosen, attempts).len() <= size,
        populated(state, lower, upper, size, chosen, attempts).no_duplicates(),
    decreases attempts,
{
    if chosen.len() < size && attempts > 0 {
        let candidate = drawn(state, lower, upper, lower.len());
        lemma_populated(
            candidate.1,
            lower,
            upper,
            size,
            enlisted(chosen, candidate.0),
            (attempts - 1) as nat,
        );
    }
}

} // verus!
