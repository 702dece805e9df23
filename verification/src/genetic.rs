//! The evolution engine: its configuration and the check of it. The three
//! operators that make, recombine and perturb populations stand in
//! `generation`, `crossover` and `mutation`.
use crate::binary64::Binary64;
use crate::binary64::lemma_ranges_by_rank;
use vstd::prelude::*;

verus! {

/// The default number of candidates in a population.
pub const POPULATION_SIZE_DEFAULT: usize = 20;

/// The bit pattern of the default mutation rate, 0.25.
pub const MUTATION_RATE_DEFAULT: u64 = 0x3FD0_0000_0000_0000;

/// The bit pattern of the default crossover rate, 1.0.
pub const CROSSOVER_RATE_DEFAULT: u64 = 0x3FF0_0000_0000_0000;

/// The bit pattern of the default mutation span, 0.1.
pub const MUTATION_SPAN_DEFAULT: u64 = 0x3FB9_9999_9999_999A;

/// Why a configuration is refused.
#[derive(Clone, Copy, Debug, PartialEq, Eq, Structural)]
pub enum ConfigError {
    /// The population size is 0.
    PopulationSize,
    /// The mutation rate is not a number from 0 to 1.
    MutationRate,
    /// The crossover rate is not a number from 0 to 1.
    CrossoverRate,
    /// The mutation span is not a number from 0 to 1.
    MutationSpan,
    /// The dimension is 0.
    Dimension,
    /// A bound vector has not one entry for each dimension, or a lower bound
    /// lies above its upper bound.
    Bounds,
}

impl ConfigError {
    /// The error in words.
    pub fn message(&self) -> (text: &'static str)
        ensures
            text@ == (match *self {
                ConfigError::PopulationSize => "population_size cannot be 0"@,
                ConfigError::MutationRate => "mutation_rate must be between 0.0 and 1.0"@,
                ConfigError::CrossoverRate => "crossover_rate must be between 0.0 and 1.0"@,
                ConfigError::MutationSpan => "mutation_span must be between 0.0 and 1.0"@,
                ConfigError::Dimension => "dimension cannot be 0"@,
                ConfigError::Bounds => "bounds must give each dimension a lower bound that is at most its upper bound"@,
            }),
    {
        match self {
            ConfigError::PopulationSize => "population_size cannot be 0",
            ConfigError::MutationRate => "mutation_rate must be between 0.0 and 1.0",
            ConfigError::CrossoverRate => "crossover_rate must be between 0.0 and 1.0",
            ConfigError::MutationSpan => "mutation_span must be between 0.0 and 1.0",
            ConfigError::Dimension => "dimension cannot be 0",
            ConfigError::Bounds => "bounds must give each dimension a lower bound that is at most its upper bound",
        }
    }
}

/// Each lower bound is at most its upper bound, and there is one pair for
/// each of `dimension` coordinates.
pub open spec fn bounds_fit(dimension: int, lower: Seq<i32>, upper: Seq<i32>) -> bool {
    &&& lower.len() == dimension
    &&& upper.len() == dimension
    &&& forall|i: int| 0 <= i < dimension ==> (#[trigger] lower[i]) <= upper[i]
}

/// `coordinates` has one entry for each bound pair, and each lies within its
/// pair.
pub open spec fn within(coordinates: Seq<i32>, lower: Seq<i32>, upper: Seq<i32>) -> bool {
    &&& coordinates.len() == lower.len()
    &&& forall|i: int|
        0 <= i < coordinates.len() ==> lower[i] <= (#[trigger] coordinates[i]) <= upper[i]
}

/// The configuration of the evolution engine.
#[derive(Debug)]
pub struct GeneticAlgorithm {
    /// The chance with which one coordinate is perturbed.
    pub mutation_rate: Binary64,
    /// The chance with which one pair is recombined.
    pub crossover_rate: Binary64,
    /// The standard deviation of a perturbation, as a part of the width of
    /// the coordinate's bounds.
    pub mutation_span: Binary64,
    /// The number of candidates in a new population.
    pub population_size: usize,
    /// The number of coordinates of a candidate.
    pub dimension: usize,
    /// The least value of each coordinate.
    pub lower_bound: Vec<i32>,
    /// The greatest value of each coordinate.
    pub upper_bound: Vec<i32>,
}

impl GeneticAlgorithm {
    /// The bounds of the configuration fit its dimension.
    pub open spec fn bounded(&self) -> bool {
        bounds_fit(self.dimension as int, self.lower_bound@, self.upper_bound@)
    }

    /// The configuration can be run: a population of at least one candidate,
    /// the two rates and the span numbers from 0 to 1, at least one
    /// dimension, and bounds that fit it.
    pub open spec fn valid(&self) -> bool {
        &&& self.population_size > 0
        &&& self.mutation_rate.unit_spec()
        &&& self.crossover_rate.unit_spec()
        &&& self.mutation_span.unit_spec()
        &&& self.dimension > 0
        &&& self.bounded()
    }

    /// The verdict on the configuration: the first of its settings that is
    /// out of range, in the order of `ConfigError`, or none.
    pub open spec fn verdict(&self) -> Result<(), ConfigError> {
        if self.population_size == 0 {
            Err(ConfigError::PopulationSize)
        } else if !self.mutation_rate.unit_spec() {
            Err(ConfigError::MutationRate)
        } else if !self.crossover_rate.unit_spec() {
            Err(ConfigError::CrossoverRate)
        } else if !self.mutation_span.unit_spec() {
            Err(ConfigError::MutationSpan)
        } else if self.dimension == 0 {
            Err(ConfigError::Dimension)
        } else if !self.bounded() {
            Err(ConfigError::Bounds)
        } else {
            Ok(())
        }
    }

    /// A configuration with the given settings. Nothing is checked here: see
    /// `validate`.
    pub fn new(
        population_size: usize,
        mutation_rate: Binary64,
        crossover_rate: Binary64,
        mutation_span: Binary64,
        dimension: usize,
        lower_bound: Vec<i32>,
        upper_bound: Vec<i32>,
    ) -> (ga: GeneticAlgorithm)
        ensures
            ga.population_size == population_size,
            ga.mutation_rate == mutation_rate,
            ga.crossover_rate == crossover_rate,
            ga.mutation_span == mutation_span,
            ga.dimension == dimension,
            ga.lower_bound == lower_bound,
            ga.upper_bound == upper_bound,
    {
        GeneticAlgorithm {
            mutation_rate,
            crossover_rate,
            mutation_span,
            population_size,
            dimension,
            lower_bound,
            upper_bound,
        }
    }

    /// Checks the configuration, and reports the first setting that is out
    /// of range. Nothing is changed or brought into range.
    pub fn validate(&self) -> (verdict: Result<(), ConfigError>)
        ensures
            verdict == self.verdict(),
            verdict is Ok <==> self.valid(),
    {
        if self.population_size == 0 {
            return Err(ConfigError::PopulationSize);
        }
        if !self.mutation_rate.in_unit_interval() {
            return Err(ConfigError::MutationRate);
        }
        if !self.crossover_rate.in_unit_interval() {
            return Err(ConfigError::CrossoverRate);
        }
        if !self.mutation_span.in_unit_interval() {
            return Err(ConfigError::MutationSpan);
        }
        if self.dimension == 0 {
            return Err(ConfigError::Dimension);
        }
        if !bounds_in_order(self.dimension, &self.lower_bound, &self.upper_bound) {
            return Err(ConfigError::Bounds);
        }
        Ok(())
    }
}

impl Default for GeneticAlgorithm {
    /// The default rates, span and population size, over one coordinate that
    /// is 0 or 1.
    fn default() -> (ga: GeneticAlgorithm)
        ensures
            ga.population_size == POPULATION_SIZE_DEFAULT,
            ga.mutation_rate.bits == MUTATION_RATE_DEFAULT,
            ga.crossover_rate.bits == CROSSOVER_RATE_DEFAULT,
            ga.mutation_span.bits == MUTATION_SPAN_DEFAULT,
            ga.dimension == 1,
            ga.lower_bound@ == seq![0i32],
            ga.upper_bound@ == seq![1i32],
            ga.valid(),
    {
        proof {
            lemma_ranges_by_rank(Binary64 { bits: MUTATION_RATE_DEFAULT });
            lemma_ranges_by_rank(Binary64 { bits: CROSSOVER_RATE_DEFAULT });
            lemma_ranges_by_rank(Binary64 { bits: MUTATION_SPAN_DEFAULT });
        }
        let mut lower_bound: Vec<i32> = Vec::new();
        lower_bound.push(0);
        let mut upper_bound: Vec<i32> = Vec::new();
        upper_bound.push(1);
        let ga = GeneticAlgorithm {
            mutation_rate: Binary64::from_bits(MUTATION_RATE_DEFAULT),
            crossover_rate: Binary64::from_bits(CROSSOVER_RATE_DEFAULT),
            mutation_span: Binary64::from_bits(MUTATION_SPAN_DEFAULT),
            population_size: POPULATION_SIZE_DEFAULT,
            dimension: 1,
            lower_bound,
            upper_bound,
        };
        assert(ga.lower_bound@ =~= seq![0i32]);
        assert(ga.upper_bound@ =~= seq![1i32]);
        ga
    }
}

/// Whether the two bound vectors fit `dimension`.
pub fn bounds_in_order(dimension: usize, lower: &Vec<i32>, upper: &Vec<i32>) -> (fit: bool)
    ensures
        fit == bounds_fit(dimension as int, lower@, upper@),
{
    if lower.len() != dimension || upper.len() != dimension {
        return false;
    }
    let mut i: usize = 0;
    while i < dimension
        invariant
            lower.len() == dimension,
            upper.len() == dimension,
            0 <= i <= dimension,
            forall|j: int| 0 <= j < i ==> lower@[j] <= upper@[j],
        decreases dimension - i,
    {
        if lower[i] > upper[i] {
            return false;
        }
        i += 1;
    }
    true
}

} // verus!
