//! Minimal criterion coevolution: the bounded queues that hold the two
//! populations, and the rule that admits a child only if it has met its
//! criterion.

pub mod agent;
pub mod experiments;
pub mod generation;
pub mod maze;
pub mod population;
pub mod statistics;
