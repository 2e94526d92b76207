//! The mathematical model of a maze grid: a sequence of columns of cells,
//! and the elementary changes that compilation makes to it.

use crate::maze::PathDirection;
use vstd::prelude::*;

verus! {

/// One cell of the grid.
///
/// A wall flag is shared with the neighbour on that side: the north wall
/// of `(x, y)` is the south wall of `(x, y + 1)`.
#[derive(Debug, Clone, Copy, PartialEq, Eq, Structural)]
pub struct MazeCell {
    pub north_wall: bool,
    pub east_wall: bool,
    pub south_wall: bool,
    pub west_wall: bool,
    pub is_waypoint: bool,
    pub is_juncture: bool,
    pub path_direction: PathDirection,
    /// The cell lies in one of the free rectangles.
    pub in_subdivision: bool,
    /// The cell lies in a free rectangle that has been given its opening.
    pub is_connected: bool,
}

/// A grid as columns of cells: `grid[x][y]`, with `y` growing northwards.
pub type CellGrid = Seq<Seq<MazeCell>>;

/// The cell without walls, marks or direction.
pub open spec fn blank_cell() -> MazeCell {
    MazeCell {
        north_wall: false,
        east_wall: false,
        south_wall: false,
        west_wall: false,
        is_waypoint: false,
        is_juncture: false,
        path_direction: PathDirection::Unset,
        in_subdivision: false,
        is_connected: false,
    }
}

/// `grid` has `width` columns of `height` cells each.
pub open spec fn grid_wf(grid: CellGrid, width: int, height: int) -> bool {
    &&& grid.len() == width
    &&& forall|x: int| 0 <= x < width ==> (#[trigger] grid[x]).len() == height
}

/// `(x, y)` names a cell of a `width` by `height` grid.
pub open spec fn in_grid(width: int, height: int, x: int, y: int) -> bool {
    0 <= x < width && 0 <= y < height
}

/// The grid of `width` by `height` blank cells.
pub open spec fn blank_grid(width: int, height: int) -> CellGrid {
    Seq::new(width as nat, |x: int| Seq::new(height as nat, |y: int| blank_cell()))
}

/// The grid whose cell at `(x, y)` is `change(x, y, grid[x][y])`.
pub open spec fn grid_map(grid: CellGrid, change: spec_fn(int, int, MazeCell) -> MazeCell) -> CellGrid {
    Seq::new(grid.len(), |x: int| Seq::new(grid[x].len(), |y: int| change(x, y, grid[x][y])))
}

/// The path is carved through the cell, or the cell lies in a rectangle
/// that already has its opening: an opening towards it joins the maze.
pub open spec fn cell_is_open(cell: MazeCell) -> bool {
    cell.path_direction != PathDirection::Unset || cell.is_connected
}

/// `grid` with the north wall of `(x, y)` set to `wall`, on both cells
/// that share it.
pub open spec fn with_wall_north(grid: CellGrid, x: int, y: int, wall: bool) -> CellGrid {
    grid_map(
        grid,
        |i: int, j: int, c: MazeCell|
            if i == x && j == y {
                MazeCell { north_wall: wall, ..c }
            } else if i == x && j == y + 1 {
                MazeCell { south_wall: wall, ..c }
            } else {
                c
            },
    )
}

/// `grid` with the east wall of `(x, y)` set to `wall`, on both cells that
/// share it.
pub open spec fn with_wall_east(grid: CellGrid, x: int, y: int, wall: bool) -> CellGrid {
    grid_map(
        grid,
        |i: int, j: int, c: MazeCell|
            if i == x && j == y {
                MazeCell { east_wall: wall, ..c }
            } else if i == x + 1 && j == y {
                MazeCell { west_wall: wall, ..c }
            } else {
                c
            },
    )
}

/// `grid` with the south wall of `(x, y)` set to `wall`, on both cells
/// that share it.
pub open spec fn with_wall_south(grid: CellGrid, x: int, y: int, wall: bool) -> CellGrid {
    grid_map(
        grid,
        |i: int, j: int, c: MazeCell|
            if i == x && j == y {
                MazeCell { south_wall: wall, ..c }
            } else if i == x && j == y - 1 {
                MazeCell { north_wall: wall, ..c }
            } else {
                c
            },
    )
}

/// `grid` with the west wall of `(x, y)` set to `wall`, on both cells that
/// share it.
pub open spec fn with_wall_west(grid: CellGrid, x: int, y: int, wall: bool) -> CellGrid {
    grid_map(
        grid,
        |i: int, j: int, c: MazeCell|
            if i == x && j == y {
                MazeCell { west_wall: wall, ..c }
            } else if i == x - 1 && j == y {
                MazeCell { east_wall: wall, ..c }
            } else {
                c
            },
    )
}

/// `grid` with the cell at `(x, y)` replaced by `cell`.
pub open spec fn with_cell(grid: CellGrid, x: int, y: int, cell: MazeCell) -> CellGrid {
    grid_map(grid, |i: int, j: int, c: MazeCell| if i == x && j == y { cell } else { c })
}

/// Setting the north wall of `(x, y)` replaces that cell, and the cell
/// above where the grid has one.
pub proof fn lemma_wall_north_by_cells(grid: CellGrid, x: int, y: int, wall: bool)
    requires
        0 <= x < grid.len(),
        0 <= y < grid[x].len(),
    ensures
        ({
            let first = with_cell(grid, x, y, (MazeCell { north_wall: wall, ..grid[x][y] }));
            let (i, j) = (x, y + 1);
            if 0 <= i < grid.len() && 0 <= j < grid[i].len() {
                &&& first[i][j] == grid[i][j]
                &&& with_cell(first, i, j, (MazeCell { south_wall: wall, ..grid[i][j] }))
                    == with_wall_north(grid, x, y, wall)
            } else {
                first == with_wall_north(grid, x, y, wall)
            }
        }),
{
    let first = with_cell(grid, x, y, (MazeCell { north_wall: wall, ..grid[x][y] }));
    let (i, j) = (x, y + 1);
    let wanted = with_wall_north(grid, x, y, wall);
    if 0 <= i < grid.len() && 0 <= j < grid[i].len() {
        let second = with_cell(first, i, j, (MazeCell { south_wall: wall, ..grid[i][j] }));
        assert(second.len() == wanted.len());
        assert forall|a: int| 0 <= a < second.len() implies #[trigger] second[a] == wanted[a] by {
            assert(first[a].len() == grid[a].len());
            assert(second[a] =~= wanted[a]);
        }
        assert(second =~= wanted);
    } else {
        assert(first.len() == wanted.len());
        assert forall|a: int| 0 <= a < first.len() implies #[trigger] first[a] == wanted[a] by {
            assert(first[a] =~= wanted[a]);
        }
        assert(first =~= wanted);
    }
}

/// Setting the east wall of `(x, y)` replaces that cell, and the cell
/// to the east where the grid has one.
pub proof fn lemma_wall_east_by_cells(grid: CellGrid, x: int, y: int, wall: bool)
    requires
        0 <= x < grid.len(),
        0 <= y < grid[x].len(),
    ensures
        ({
            let first = with_cell(grid, x, y, (MazeCell { east_wall: wall, ..grid[x][y] }));
            let (i, j) = (x + 1, y);
            if 0 <= i < grid.len() && 0 <= j < grid[i].len() {
                &&& first[i][j] == grid[i][j]
                &&& with_cell(first, i, j, (MazeCell { west_wall: wall, ..grid[i][j] }))
                    == with_wall_east(grid, x, y, wall)
            } else {
                first == with_wall_east(grid, x, y, wall)
            }
        }),
{
    let first = with_cell(grid, x, y, (MazeCell { east_wall: wall, ..grid[x][y] }));
    let (i, j) = (x + 1, y);
    let wanted = with_wall_east(grid, x, y, wall);
    if 0 <= i < grid.len() && 0 <= j < grid[i].len() {
        let second = with_cell(first, i, j, (MazeCell { west_wall: wall, ..grid[i][j] }));
        assert(second.len() == wanted.len());
        assert forall|a: int| 0 <= a < second.len() implies #[trigger] second[a] == wanted[a] by {
            assert(first[a].len() == grid[a].len());
            assert(second[a] =~= wanted[a]);
        }
        assert(second =~= wanted);
    } else {
        assert(first.len() == wanted.len());
        assert forall|a: int| 0 <= a < first.len() implies #[trigger] first[a] == wanted[a] by {
            assert(first[a] =~= wanted[a]);
        }
        assert(first =~= wanted);
    }
}

/// Setting the south wall of `(x, y)` replaces that cell, and the cell
/// below where the grid has one.
pub proof fn lemma_wall_south_by_cells(grid: CellGrid, x: int, y: int, wall: bool)
    requires
        0 <= x < grid.len(),
        0 <= y < grid[x].len(),
    ensures
        ({
            let first = with_cell(grid, x, y, (MazeCell { south_wall: wall, ..grid[x][y] }));
            let (i, j) = (x, y - 1);
            if 0 <= i < grid.len() && 0 <= j < grid[i].len() {
                &&& first[i][j] == grid[i][j]
                &&& with_cell(first, i, j, (MazeCell { north_wall: wall, ..grid[i][j] }))
                    == with_wall_south(grid, x, y, wall)
            } else {
                first == with_wall_south(grid, x, y, wall)
            }
        }),
{
    let first = with_cell(grid, x, y, (MazeCell { south_wall: wall, ..grid[x][y] }));
    let (i, j) = (x, y - 1);
    let wanted = with_wall_south(grid, x, y, wall);
    if 0 <= i < grid.len() && 0 <= j < grid[i].len() {
        let second = with_cell(first, i, j, (MazeCell { north_wall: wall, ..grid[i][j] }));
        assert(second.len() == wanted.len());
        assert forall|a: int| 0 <= a < second.len() implies #[trigger] second[a] == wanted[a] by {
            assert(first[a].len() == grid[a].len());
            assert(second[a] =~= wanted[a]);
        }
        assert(second =~= wanted);
    } else {
        assert(first.len() == wanted.len());
        assert forall|a: int| 0 <= a < first.len() implies #[trigger] first[a] == wanted[a] by {
            assert(first[a] =~= wanted[a]);
        }
        assert(first =~= wanted);
    }
}

/// Setting the west wall of `(x, y)` replaces that cell, and the cell
/// to the west where the grid has one.
pub proof fn lemma_wall_west_by_cells(grid: CellGrid, x: int, y: int, wall: bool)
    requires
        0 <= x < grid.len(),
        0 <= y < grid[x].len(),
    ensures
        ({
            let first = with_cell(grid, x, y, (MazeCell { west_wall: wall, ..grid[x][y] }));
            let (i, j) = (x - 1, y);
            if 0 <= i < grid.len() && 0 <= j < grid[i].len() {
                &&& first[i][j] == grid[i][j]
                &&& with_cell(first, i, j, (MazeCell { east_wall: wall, ..grid[i][j] }))
                    == with_wall_west(grid, x, y, wall)
            } else {
                first == with_wall_west(grid, x, y, wall)
            }
        }),
{
    let first = with_cell(grid, x, y, (MazeCell { west_wall: wall, ..grid[x][y] }));
    let (i, j) = (x - 1, y);
    let wanted = with_wall_west(grid, x, y, wall);
    if 0 <= i < grid.len() && 0 <= j < grid[i].len() {
        let second = with_cell(first, i, j, (MazeCell { east_wall: wall, ..grid[i][j] }));
        assert(second.len() == wanted.len());
        assert forall|a: int| 0 <= a < second.len() implies #[trigger] second[a] == wanted[a] by {
            assert(first[a].len() == grid[a].len());
            assert(second[a] =~= wanted[a]);
        }
        assert(second =~= wanted);
    } else {
        assert(first.len() == wanted.len());
        assert forall|a: int| 0 <= a < first.len() implies #[trigger] first[a] == wanted[a] by {
            assert(first[a] =~= wanted[a]);
        }
        assert(first =~= wanted);
    }
}

} // verus!
