//! Evolving lookup-table policies that steer an agent around a walled grid
//! collecting goal objects: the grid, the state encoding, the rollout and the
//! selection / crossover / mutation cycle, each with its contract.

pub mod action;
pub mod agent;
pub mod color;
pub mod config;
pub mod evolution;
pub mod object;
pub mod random;
pub mod rollout;
pub mod state;
pub mod world;
