//! A small genetic algorithm over fixed-length bitstrings: random
//! initialisation, fitness evaluation, roulette-wheel selection, single-point
//! crossover, per-gene mutation and a generational driver with a cap.
pub mod driver;
pub mod evolution;
pub mod fitness;
pub mod operators;
mod random;
pub mod selection;
