//! A small genetic-algorithm engine: bit-string creatures that mutate, are
//! selected by fitness, and breed by crossover.

pub mod creatures;
pub mod error;
pub mod evolution;
pub mod generations;
pub mod genes;
