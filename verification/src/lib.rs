//! Coevolution of grid mazes and maze-solving agents under a minimal
//! criterion: the maze genotype, its compilation into a walled grid, and
//! the bounded population queues that hold both kinds of individual.

pub mod fraction;
pub mod maze;
pub mod mcc;
pub mod random;
pub mod simulator;
