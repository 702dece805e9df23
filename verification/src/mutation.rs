//! Perturbing a population.
use crate::arm::Arm;
use crate::binary64::Binary64;
use crate::binary64::ONE_BITS;
use crate::binary64::steps;
use crate::genetic::GeneticAlgorithm;
use crate::genetic::bounds_fit;
use crate::genetic::within;
use crate::population::all_fresh;
use crate::population::coordinates_of;
use crate::population::enlist;
use crate::population::enlisted;
use crate::population::lemma_enlisted_population;
use vstd::prelude::*;

verus! {

/// `value`, raised to `low` where it lies below it, and then lowered to
/// `high` where it lies above it.
pub open spec fn clamped(value: i32, low: i32, high: i32) -> i32 {
    let raised = if value < low {
        low
    } else {
        value
    };
    if raised > high {
        high
    } else {
        raised
    }
}

/// A coordinate vector after perturbation. `moves` holds one entry for each
/// coordinate: the value that a perturbed coordinate has moved to, which is
/// brought back within the bounds, or nothing for a coordinate that stays.
pub open spec fn moved(
    coordinates: Seq<i32>,
    moves: Seq<Option<i32>>,
    lower: Seq<i32>,
    upper: Seq<i32>,
) -> Seq<i32> {
    Seq::new(
        coordinates.len(),
        |i: int|
            match moves[i] {
                Some(target) => clamped(target, lower[i], upper[i]),
                None => coordinates[i],
            },
    )
}

/// The rows of a table of moves.
pub open spec fn rows_of(moves: Seq<Vec<Option<i32>>>) -> Seq<Seq<Option<i32>>> {
    moves.map_values(|row: Vec<Option<i32>>| row@)
}

/// The perturbed vector of each candidate of a population, given the
/// coordinates of each and one row of moves for each.
pub open spec fn all_moved(
    vectors: Seq<Seq<i32>>,
    moves: Seq<Seq<Option<i32>>>,
    lower: Seq<i32>,
    upper: Seq<i32>,
) -> Seq<Seq<i32>> {
    Seq::new(vectors.len(), |k: int| moved(vectors[k], moves[k], lower, upper))
}

/// The vectors of `vectors` in their order, each only where it stands first.
pub open spec fn without_repeats(vectors: Seq<Seq<i32>>) -> Seq<Seq<i32>>
    decreases vectors.len(),
{
    if vectors.len() == 0 {
        Seq::empty()
    } else {
        enlisted(without_repeats(vectors.drop_last()), vectors.last())
    }
}

impl GeneticAlgorithm {
    /// Whether a coordinate is perturbed, given the number drawn for it from
    /// the half-open interval from 0 to 1: where the number is below the
    /// mutation rate.
    pub fn mutation_triggered(&self, unit: Binary64) -> (triggered: bool)
        ensures
            triggered == unit.lt_spec(self.mutation_rate),
    {
        unit.lt(&self.mutation_rate)
    }

    /// `mutated` is what `mutate` makes of `population` and `moves`: the
    /// perturbed vectors, each where it stands first, as candidates that have
    /// not been evaluated.
    pub open spec fn mutated(
        &self,
        moves: Seq<Seq<Option<i32>>>,
        population: Seq<Arm>,
        mutated: Seq<Arm>,
    ) -> bool {
        &&& coordinates_of(mutated) == without_repeats(
            all_moved(coordinates_of(population), moves, self.lower_bound@, self.upper_bound@),
        )
        &&& all_fresh(mutated)
    }

    /// Perturbs a population. `moves` holds one entry for each coordinate of
    /// each candidate: the value that a perturbed coordinate has moved to, or
    /// nothing for one that stays. A moved coordinate is brought back within
    /// its bounds. Each resulting vector becomes a candidate that has not
    /// been evaluated; a vector that an earlier candidate of this call has
    /// produced is dropped, so the population may shrink.
    pub fn mutate(&self, moves: &Vec<Vec<Option<i32>>>, population: &Vec<Arm>) -> (mutated: Vec<
        Arm,
    >)
        requires
            self.bounded(),
            moves.len() == population.len(),
            forall|k: int|
                0 <= k < population.len() ==> (#[trigger] population[k])@.coordinates.len()
                    == self.dimension,
            forall|k: int| 0 <= k < moves.len() ==> (#[trigger] moves[k])@.len() == self.dimension,
        ensures
            self.mutated(rows_of(moves@), population@, mutated@),
            mutated.len() <= population.len(),
            coordinates_of(mutated@).no_duplicates(),
    {
        let mut mutated: Vec<Arm> = Vec::new();
        let mut k: usize = 0;
        let ghost vectors = all_moved(
            coordinates_of(population@),
            rows_of(moves@),
            self.lower_bound@,
            self.upper_bound@,
        );
        assert(coordinates_of(mutated@) =~= Seq::<Seq<i32>>::empty());
        assert(vectors.take(0) =~= Seq::<Seq<i32>>::empty());
        while k < population.len()
            invariant
                self.bounded(),
                moves.len() == population.len(),
                0 <= k <= population.len(),
                vectors == all_moved(
                    coordinates_of(population@),
                    rows_of(moves@),
                    self.lower_bound@,
                    self.upper_bound@,
                ),
                forall|i: int|
                    0 <= i < population.len() ==> (#[trigger] population[i])@.coordinates.len()
                        == self.dimension,
                forall|i: int|
                    0 <= i < moves.len() ==> (#[trigger] moves[i])@.len() == self.dimension,
                coordinates_of(mutated@) == without_repeats(vectors.take(k as int)),
                all_fresh(mutated@),
                mutated.len() <= k,
                coordinates_of(mutated@).no_duplicates(),
            decreases population.len() - k,
        {
            let vector = self.perturbed(population[k].get_action_vector(), &moves[k]);
            let ghost before = mutated@;
            enlist(&mut mutated, vector.as_slice());
            proof {
                lemma_enlisted_population(before, mutated@, vector@);
                assert(vectors.take(k + 1).drop_last() =~= vectors.take(k as int));
                assert(vectors.take(k + 1).last() == vector@);
            }
            k += 1;
        }
        assert(vectors.take(k as int) =~= vectors);
        mutated
    }

    /// One coordinate vector after perturbation.
    pub fn perturbed(&self, coordinates: &[i32], moves: &Vec<Option<i32>>) -> (vector: Vec<i32>)
        requires
            self.bounded(),
            coordinates@.len() == self.dimension,
            moves@.len() == self.dimension,
        ensures
            vector@ == moved(coordinates@, moves@, self.lower_bound@, self.upper_bound@),
    {
        let mut vector: Vec<i32> = Vec::new();
        let mut i: usize = 0;
        while i < coordinates.len()
            invariant
                self.bounded(),
                coordinates@.len() == self.dimension,
                moves@.len() == self.dimension,
                0 <= i <= coordinates.len(),
                vector.len() == i,
                forall|j: int|
                    0 <= j < i ==> (#[trigger] vector@[j]) == moved(
                        coordinates@,
                        moves@,
                        self.lower_bound@,
                        self.upper_bound@,
                    )[j],
            decreases coordinates.len() - i,
        {
            let value = match moves[i] {
                Some(target) => clamp(target, self.lower_bound[i], self.upper_bound[i]),
                None => coordinates[i],
            };
            vector.push(value);
            i += 1;
        }
        assert(vector@ =~= moved(coordinates@, moves@, self.lower_bound@, self.upper_bound@));
        vector
    }
}

/// `value`, raised to `low` where it lies below it, and then lowered to
/// `high` where it lies above it.
pub fn clamp(value: i32, low: i32, high: i32) -> (inside: i32)
    ensures
        inside == clamped(value, low, high),
        low <= high ==> low <= inside <= high,
{
    let raised = if value < low {
        low
    } else {
        value
    };
    if raised > high {
        high
    } else {
        raised
    }
}

/// With the full rate every number of the half-open interval from 0 to 1
/// triggers.
pub proof fn lemma_full_rate_always_triggers(rate: Binary64, unit: Binary64)
    requires
        rate.bits == ONE_BITS,
        !unit.nan(),
        0 <= unit.value() < steps(ONE_BITS as int),
    ensures
        unit.lt_spec(rate),
{
}

/// With the rate 0 nothing triggers.
pub proof fn lemma_no_rate_never_triggers(rate: Binary64, unit: Binary64)
    requires
        rate.value() == 0,
        unit.unit_spec(),
    ensures
        !unit.lt_spec(rate),
{
}

/// Perturbation keeps the number of coordinates, leaves alone what has no
/// move, and brings each moved coordinate within its bounds. A vector that
/// lay within the bounds, or of which every coordinate is moved, lies within
/// them afterwards.
pub proof fn lemma_moved_within(
    coordinates: Seq<i32>,
    moves: Seq<Option<i32>>,
    lower: Seq<i32>,
    upper: Seq<i32>,
)
    requires
        bounds_fit(coordinates.len() as int, lower, upper),
        moves.len() == coordinates.len(),
    ensures
        moved(coordinates, moves, lower, upper).len() == coordinates.len(),
        forall|i: int|
            0 <= i < coordinates.len() && moves[i] is None ==> (#[trigger] moved(
                coordinates,
                moves,
                lower,
                upper,
            )[i]) == coordinates[i],
        forall|i: int|
            0 <= i < coordinates.len() && moves[i] is Some ==> lower[i] <= (#[trigger] moved(
                coordinates,
                moves,
                lower,
                upper,
            )[i]) <= upper[i],
        within(coordinates, lower, upper) || (forall|i: int|
            0 <= i < moves.len() ==> (#[trigger] moves[i]) is Some) ==> within(
            moved(coordinates, moves, lower, upper),
            lower,
            upper,
        ),
{
    let after = moved(coordinates, moves, lower, upper);
    if within(coordinates, lower, upper) || (forall|i: int|
        0 <= i < moves.len() ==> (#[trigger] moves[i]) is Some) {
        assert forall|i: int| 0 <= i < after.len() implies lower[i] <= (#[trigger] after[i])
            <= upper[i] by {
            if moves[i] is None {
                assert(lower[i] <= coordinates[i] <= upper[i]);
            }
        }
    }
}

/// What is left of a sequence of vectors when the repeats are dropped: no
/// vector twice, no more vectors than before, and the same vectors.
pub proof fn lemma_without_repeats(vectors: Seq<Seq<i32>>)
    ensures
        without_repeats(vectors).no_duplicates(),
        without_repeats(vectors).len() <= vectors.len(),
        forall|v: Seq<i32>| without_repeats(vectors).contains(v) <==> vectors.contains(v),
    decreases vectors.len(),
{
    if vectors.len() > 0 {
        let front = vectors.drop_last();
        let kept = without_repeats(front);
        lemma_without_repeats(front);
        let all = without_repeats(vectors);
        assert forall|v: Seq<i32>| all.contains(v) <==> vectors.contains(v) by {
            assert(kept.contains(v) <==> front.contains(v));
            if vectors.contains(v) {
                let i = choose|i: int| 0 <= i < vectors.len() && vectors[i] == v;
                if i < front.len() {
                    assert(front[i] == v);
                    assert(front.contains(v));
                }
                if kept.contains(v) {
                    let j = choose|j: int| 0 <= j < kept.len() && kept[j] == v;
                    assert(all[j] == v);
                } else {
                    assert(v == vectors.last());
                    assert(all[kept.len() as int] == v);
                }
            }
            if all.contains(v) {
                let j = choose|j: int| 0 <= j < all.len() && all[j] == v;
                if j < kept.len() {
                    assert(kept[j] == v);
                    assert(kept.contains(v));
                    let i = choose|i: int| 0 <= i < front.len() && front[i] == v;
                    assert(vectors[i] == v);
                } else {
                    assert(vectors[vectors.len() - 1] == v);
                }
            }
        }
    }
}

} // verus!
