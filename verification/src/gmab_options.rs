//! The settings of an optimisation run, and their check.
use crate::binary64::lemma_ranges_by_rank;
use crate::binary64::Binary64;
use vstd::prelude::*;

verus! {

/// The default number of candidates in a population.
pub const POPULATION_SIZE_DEFAULT: usize = 20;

/// The bit pattern of the default mutation rate, 0.25.
pub const MUTATION_RATE_DEFAULT: u64 = 0x3FD0_0000_0000_0000;

/// The bit pattern of the default crossover rate, 1.0.
pub const CROSSOVER_RATE_DEFAULT: u64 = 0x3FF0_0000_0000_0000;

/// The bit pattern of the default mutation span, 0.1.
pub const MUTATION_SPAN_DEFAULT: u64 = 0x3FB9_9999_9999_999A;

/// Why a set of options is refused.
#[derive(Clone, Copy, Debug, PartialEq, Eq, Structural)]
pub enum OptionsError {
    /// The population size is 0.
    PopulationSize,
    /// The mutation rate is not a number from 0 to 1.
    MutationRate,
    /// The crossover rate is not a number from 0 to 1.
    CrossoverRate,
    /// The mutation span is below 0.
    MutationSpan,
}

impl OptionsError {
    /// The error in words.
    pub fn message(&self) -> (text: &'static str)
        ensures
            text@ == (match *self {
                OptionsError::PopulationSize => "population_size cannot be 0"@,
                OptionsError::MutationRate => "mutation_rate must be between 0.0 and 1.0"@,
                OptionsError::CrossoverRate => "crossover_rate must be between 0.0 and 1.0"@,
                OptionsError::MutationSpan => "mutation_span must be 0.0 or greater"@,
            }),
    {
        match self {
            OptionsError::PopulationSize => "population_size cannot be 0",
            OptionsError::MutationRate => "mutation_rate must be between 0.0 and 1.0",
            OptionsError::CrossoverRate => "crossover_rate must be between 0.0 and 1.0",
            OptionsError::MutationSpan => "mutation_span must be 0.0 or greater",
        }
    }
}

/// The settings of an optimisation run.
#[derive(Clone, Copy, Debug)]
pub struct GmabOptions {
    /// The number of candidates in a population.
    pub population_size: usize,
    /// The chance with which one coordinate is perturbed.
    pub mutation_rate: Binary64,
    /// The chance with which one pair is recombined.
    pub crossover_rate: Binary64,
    /// The standard deviation of a perturbation, as a part of the width of
    /// the coordinate's bounds.
    pub mutation_span: Binary64,
}

impl GmabOptions {
    /// The verdict on the options: the first that is out of range, in the
    /// order of `OptionsError`, or none. The span has no upper limit, and a
    /// span that is no number is let through, as it is not below 0.
    pub open spec fn verdict(&self) -> Result<(), OptionsError> {
        if self.population_size == 0 {
            Err(OptionsError::PopulationSize)
        } else if !self.mutation_rate.unit_spec() {
            Err(OptionsError::MutationRate)
        } else if !self.crossover_rate.unit_spec() {
            Err(OptionsError::CrossoverRate)
        } else if self.mutation_span.below_zero_spec() {
            Err(OptionsError::MutationSpan)
        } else {
            Ok(())
        }
    }

    /// Checks the options: a population of at least one candidate, the two
    /// rates numbers from 0 to 1, and a span that is not below 0. Reports the
    /// first option that fails.
    pub fn validate(&self) -> (verdict: Result<(), OptionsError>)
        ensures
            verdict == self.verdict(),
    {
        if self.population_size == 0 {
            return Err(OptionsError::PopulationSize);
        }
        if !self.mutation_rate.in_unit_interval() {
            return Err(OptionsError::MutationRate);
        }
        if !self.crossover_rate.in_unit_interval() {
            return Err(OptionsError::CrossoverRate);
        }
        if self.mutation_span.is_below_zero() {
            return Err(OptionsError::MutationSpan);
        }
        Ok(())
    }
}

impl Default for GmabOptions {
    /// The default population size, rates and span.
    fn default() -> (options: GmabOptions)
        ensures
            options.population_size == POPULATION_SIZE_DEFAULT,
            options.mutation_rate.bits == MUTATION_RATE_DEFAULT,
            options.crossover_rate.bits == CROSSOVER_RATE_DEFAULT,
            options.mutation_span.bits == MUTATION_SPAN_DEFAULT,
            options.verdict() is Ok,
    {
        proof {
            lemma_ranges_by_rank(Binary64 { bits: MUTATION_RATE_DEFAULT });
            lemma_ranges_by_rank(Binary64 { bits: CROSSOVER_RATE_DEFAULT });
            lemma_ranges_by_rank(Binary64 { bits: MUTATION_SPAN_DEFAULT });
        }
        GmabOptions {
            population_size: POPULATION_SIZE_DEFAULT,
            mutation_rate: Binary64::from_bits(MUTATION_RATE_DEFAULT),
            crossover_rate: Binary64::from_bits(CROSSOVER_RATE_DEFAULT),
            mutation_span: Binary64::from_bits(MUTATION_SPAN_DEFAULT),
        }
    }
}

} // verus!
