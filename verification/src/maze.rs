//! Grid mazes: the genotype, the path it declares, and its compilation
//! into a fully walled grid.

use vstd::prelude::*;

pub mod agreement;
pub mod connectivity;
pub mod frame;
pub mod grid;
pub mod joined;
pub mod laws;
pub mod maze_genotype;
pub mod maze_phenotype;
pub mod maze_validator;
pub mod openings;
pub mod passages;
pub mod path;
pub mod rooms;
pub mod route;
pub mod tiling;
pub mod walk;
pub mod walls;

verus! {

/// The axis of a wall, or of the first segment of every path leg.
#[derive(Debug, Clone, Copy, PartialEq, Eq, Structural)]
pub enum Orientation {
    Horizontal,
    Vertical,
}

/// The direction in which the carved path leaves a cell; `Unset` on cells
/// that the path does not visit.
#[derive(Debug, Clone, Copy, PartialEq, Eq, Structural)]
pub enum PathDirection {
    North,
    East,
    South,
    West,
    Unset,
}

/// The side of a free rectangle on which its opening is preferred.
#[derive(Debug, Clone, Copy, PartialEq, Eq, Structural)]
pub enum OpeningLocation {
    North,
    East,
    South,
    West,
}

} // verus!
