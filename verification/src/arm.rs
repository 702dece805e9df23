//! A candidate: one point of the search space, with the statistics of its
//! evaluations.
use crate::binary64::Binary64;
use std::hash::Hash;
use std::hash::Hasher;
use vstd::prelude::*;
use vstd::slice::slice_to_vec;
use vstd::std_specs::cmp::PartialEqSpecImpl;

verus! {

/// What a candidate holds.
pub struct ArmView {
    /// The point: one integer for each dimension.
    pub coordinates: Seq<i32>,
    /// How often the point has been evaluated.
    pub pulls: int,
    /// The running mean of the samples.
    pub mean: Binary64,
    /// The corrected sum of squares of the samples.
    pub corr_ssq: Binary64,
}

/// A candidate that has not been evaluated.
pub open spec fn fresh(coordinates: Seq<i32>) -> ArmView {
    ArmView { coordinates, pulls: 0, mean: Binary64 { bits: 0 }, corr_ssq: Binary64 { bits: 0 } }
}

/// One point of the search space and the statistics of its evaluations. Two
/// candidates are equal when their coordinates are.
#[derive(Debug)]
pub struct Arm {
    action_vector: Vec<i32>,
    num_pulls: i32,
    mean_reward: Binary64,
    corr_ssq: Binary64,
}

impl View for Arm {
    type V = ArmView;

    closed spec fn view(&self) -> ArmView {
        ArmView {
            coordinates: self.action_vector@,
            pulls: self.num_pulls as int,
            mean: self.mean_reward,
            corr_ssq: self.corr_ssq,
        }
    }
}

impl Arm {
    /// The pull count is never negative.
    #[verifier::type_invariant]
    spec fn counted(self) -> bool {
        self.num_pulls >= 0
    }

    /// A candidate at `action_vector` that has not been evaluated.
    pub fn new(action_vector: &[i32]) -> (arm: Arm)
        ensures
            arm@ == fresh(action_vector@),
    {
        Arm {
            action_vector: slice_to_vec(action_vector),
            num_pulls: 0,
            mean_reward: Binary64::zero(),
            corr_ssq: Binary64::zero(),
        }
    }

    /// How often the candidate has been evaluated.
    pub fn get_num_pulls(&self) -> (pulls: i32)
        ensures
            pulls == self@.pulls,
            pulls >= 0,
    {
        proof {
            use_type_invariant(self);
        }
        self.num_pulls
    }

    /// The coordinates of the candidate.
    pub fn get_action_vector(&self) -> (coordinates: &[i32])
        ensures
            coordinates@ == self@.coordinates,
    {
        self.action_vector.as_slice()
    }

    /// The mean of the samples: positive zero before the first evaluation,
    /// the running mean after it.
    pub fn get_mean_reward(&self) -> (mean: Binary64)
        ensures
            self@.pulls == 0 ==> mean.bits == 0,
            self@.pulls != 0 ==> mean == self@.mean,
    {
        if self.num_pulls == 0 {
            return Binary64::zero();
        }
        self.mean_reward
    }

    /// The running mean as it is stored, whatever the pull count.
    pub fn running_mean(&self) -> (mean: Binary64)
        ensures
            mean == self@.mean,
    {
        self.mean_reward
    }

    /// The corrected sum of squares as it is stored, whatever the pull count.
    pub fn corrected_sum_of_squares(&self) -> (corr_ssq: Binary64)
        ensures
            corr_ssq == self@.corr_ssq,
    {
        self.corr_ssq
    }

    /// The two terms of the sample variance: the corrected sum of squares and
    /// the pull count less one, by which it is divided. With fewer than two
    /// samples there are none, and the variance is zero.
    pub fn get_variance_terms(&self) -> (terms: Option<(Binary64, i32)>)
        ensures
            self@.pulls <= 1 <==> terms is None,
            terms matches Some(t) ==> t.0 == self@.corr_ssq && t.1 == self@.pulls - 1,
    {
        if self.num_pulls <= 1 {
            return None;
        }
        Some((self.corr_ssq, self.num_pulls - 1))
    }

    /// Takes one more evaluation into account. The caller hands in the mean
    /// and the corrected sum of squares that follow from the new sample; the
    /// pull count and both statistics change together, the coordinates stay.
    pub fn record_pull(&mut self, mean: Binary64, corr_ssq: Binary64)
        requires
            old(self)@.pulls < i32::MAX,
        ensures
            final(self)@ == (ArmView {
                coordinates: old(self)@.coordinates,
                pulls: old(self)@.pulls + 1,
                mean,
                corr_ssq,
            }),
    {
        proof {
            use_type_invariant(&*self);
        }
        self.num_pulls = self.num_pulls + 1;
        self.mean_reward = mean;
        self.corr_ssq = corr_ssq;
    }
}

impl Clone for Arm {
    /// A copy with the same coordinates and the same statistics.
    fn clone(&self) -> (copy: Arm)
        ensures
            copy@ == self@,
    {
        proof {
            use_type_invariant(self);
        }
        let action_vector = self.action_vector.clone();
        assert(action_vector@ =~= self.action_vector@);
        Arm {
            action_vector,
            num_pulls: self.num_pulls,
            mean_reward: self.mean_reward,
            corr_ssq: self.corr_ssq,
        }
    }
}

impl PartialEq for Arm {
    fn eq(&self, other: &Arm) -> (same: bool) {
        same_coordinates(self.action_vector.as_slice(), other.action_vector.as_slice())
    }
}

impl PartialEqSpecImpl for Arm {
    open spec fn obeys_eq_spec() -> bool {
        true
    }

    open spec fn eq_spec(&self, other: &Arm) -> bool {
        self@.coordinates == other@.coordinates
    }
}

impl Eq for Arm {

}

impl Hash for Arm {
    /// Feeds the coordinates, and nothing else, to `state` by
    /// `Hash::hash` of `Vec<i32>`: equal candidates hash alike.
    #[verifier::external_body]
    fn hash<H: Hasher>(&self, state: &mut H) {
        self.action_vector.hash(state);
    }
}

/// Whether two coordinate vectors hold the same integers in the same order.
pub fn same_coordinates(a: &[i32], b: &[i32]) -> (same: bool)
    ensures
        same == (a@ == b@),
{
    if a.len() != b.len() {
        return false;
    }
    let mut i: usize = 0;
    while i < a.len()
        invariant
            a.len() == b.len(),
            0 <= i <= a.len(),
            forall|j: int| 0 <= j < i ==> a@[j] == b@[j],
        decreases a.len() - i,
    {
        if a[i] != b[i] {
            return false;
        }
        i += 1;
    }
    assert(a@ =~= b@);
    true
}

/// Equality of candidates is equality of their coordinates: their statistics
/// play no part in it, and it is an equivalence.
pub proof fn lemma_equality_is_by_coordinates(a: Arm, b: Arm, c: Arm)
    ensures
        equal(a, b) <==> a@.coordinates == b@.coordinates,
        equal(a, a),
        equal(a, b) ==> equal(b, a),
        equal(a, b) && equal(b, c) ==> equal(a, c),
{
}

/// What `==` says of two candidates.
pub open spec fn equal(a: Arm, b: Arm) -> bool {
    vstd::std_specs::cmp::PartialEqSpec::eq_spec(&a, &b)
}

} // verus!
