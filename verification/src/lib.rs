pub mod arm;
pub mod binary64;
pub mod crossover;
pub mod float_key;
pub mod generation;
pub mod genetic;
pub mod gmab_options;
pub mod mutation;
pub mod population;
pub mod reproducibility;
pub mod sorted_multi_map;
pub mod stream;
