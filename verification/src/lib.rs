//! Value iteration on a grid: a table of positions, the decision process
//! that lives on it, and a solver that sweeps it.

pub mod action;
pub mod fixed;
pub mod markov;
pub mod matrix;
pub mod model;
pub mod scalar;
pub mod state;
pub mod world;
