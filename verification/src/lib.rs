//! Approximate solutions to the Travelling Salesman Problem by simulated
//! annealing: given a square matrix of pairwise distances, search for a short
//! closed tour that visits every city exactly once, within a wall-clock time
//! budget.

mod clock;
pub mod engine;
pub mod error;
pub mod matrix;
mod rng;
pub mod schedule;
pub mod tour;
