//! A reaction-network engine: a Petri net's stoichiometry held as a rectangular grid,
//! the combinatorial propensity counts of the stochastic (Gillespie) simulation, and the
//! decisions that drive one realisation of it.

pub mod combinatorics;
pub mod grid;
pub mod network;
pub mod stochastic;
