//! A small framework for running generation-based genetic algorithms:
//! a population of genomes evolved by fitness-proportionate selection,
//! crossover and mutation.

pub mod ga;
pub mod random;
