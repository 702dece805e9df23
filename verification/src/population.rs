//! Populations: sequences of candidates, and how a candidate joins one.
use crate::arm::Arm;
use crate::arm::ArmView;
use crate::arm::fresh;
use crate::arm::same_coordinates;
use vstd::prelude::*;

verus! {

/// What the candidates of a population hold.
pub open spec fn views_of(population: Seq<Arm>) -> Seq<ArmView> {
    population.map_values(|arm: Arm| arm@)
}

/// The coordinate vectors of a population.
pub open spec fn coordinates_of(population: Seq<Arm>) -> Seq<Seq<i32>> {
    population.map_values(|arm: Arm| arm@.coordinates)
}

/// No candidate of the population has been evaluated.
pub open spec fn all_fresh(population: Seq<Arm>) -> bool {
    forall|i: int|
        0 <= i < population.len() ==> (#[trigger] population[i])@ == fresh(
            population[i]@.coordinates,
        )
}

/// `chosen` with `candidate` behind it, unless it holds `candidate` already.
pub open spec fn enlisted(chosen: Seq<Seq<i32>>, candidate: Seq<i32>) -> Seq<Seq<i32>> {
    if chosen.contains(candidate) {
        chosen
    } else {
        chosen.push(candidate)
    }
}

/// Whether `population` holds a candidate at `coordinates`.
pub fn holds(population: &Vec<Arm>, coordinates: &[i32]) -> (held: bool)
    ensures
        held == coordinates_of(population@).contains(coordinates@),
{
    let mut i: usize = 0;
    while i < population.len()
        invariant
            0 <= i <= population.len(),
            forall|j: int| 0 <= j < i ==> coordinates_of(population@)[j] != coordinates@,
        decreases population.len() - i,
    {
        if same_coordinates(population[i].get_action_vector(), coordinates) {
            assert(coordinates_of(population@)[i as int] == coordinates@);
            return true;
        }
        i += 1;
    }
    false
}

/// Adds a candidate at `coordinates`, not yet evaluated, to the end of
/// `population`, unless the population holds one there already. Returns
/// whether it was added.
pub fn enlist(population: &mut Vec<Arm>, coordinates: &[i32]) -> (added: bool)
    ensures
        added == !coordinates_of(old(population)@).contains(coordinates@),
        coordinates_of(final(population)@) == enlisted(
            coordinates_of(old(population)@),
            coordinates@,
        ),
        added ==> views_of(final(population)@) == views_of(old(population)@).push(
            fresh(coordinates@),
        ),
        !added ==> views_of(final(population)@) == views_of(old(population)@),
{
    if holds(population, coordinates) {
        return false;
    }
    let arm = Arm::new(coordinates);
    population.push(arm);
    assert(coordinates_of(population@) =~= coordinates_of(old(population)@).push(coordinates@));
    assert(views_of(population@) =~= views_of(old(population)@).push(fresh(coordinates@)));
    true
}

/// A population to which a candidate may have been added keeps its
/// candidates as they were, and holds at most one more: a candidate at
/// `coordinates` that has not been evaluated.
pub proof fn lemma_enlisted_population(before: Seq<Arm>, after: Seq<Arm>, coordinates: Seq<i32>)
    requires
        views_of(after) == views_of(before) || views_of(after) == views_of(before).push(
            fresh(coordinates),
        ),
    ensures
        before.len() <= after.len() <= before.len() + 1,
        forall|i: int| 0 <= i < before.len() ==> (#[trigger] after[i])@ == before[i]@,
        after.len() > before.len() ==> after[before.len() as int]@ == fresh(coordinates),
{
    assert(views_of(after).len() == after.len());
    assert(views_of(before).len() == before.len());
    assert forall|i: int| 0 <= i < before.len() implies (#[trigger] after[i])@ == before[i]@ by {
        assert(views_of(after)[i] == after[i]@);
        assert(views_of(before)[i] == before[i]@);
    }
    if after.len() > before.len() {
        assert(views_of(after)[before.len() as int] == after[before.len() as int]@);
    }
}

/// Two populations of candidates that have not been evaluated hold the same,
/// where their coordinate vectors are the same.
pub proof fn lemma_fresh_populations_agree(first: Seq<Arm>, second: Seq<Arm>)
    requires
        all_fresh(first),
        all_fresh(second),
        coordinates_of(first) == coordinates_of(second),
    ensures
        views_of(first) == views_of(second),
{
    assert(coordinates_of(first).len() == first.len());
    assert(coordinates_of(second).len() == second.len());
    assert forall|i: int| 0 <= i < first.len() implies views_of(first)[i] == views_of(second)[i] by {
        assert(coordinates_of(first)[i] == first[i]@.coordinates);
        assert(coordinates_of(second)[i] == second[i]@.coordinates);
    }
    assert(views_of(first) =~= views_of(second));
}

} // verus!
