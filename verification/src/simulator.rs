//! What the library shares with the simulator that steps an agent through
//! a maze.

pub mod radar;
