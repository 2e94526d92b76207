//! The population of mazes.

pub mod maze_queue;
pub mod maze_species;
pub mod speciated_maze_queue;
