//! What the walls of a compiled maze are: the outer boundary, the
//! enclosure of the carved path, the boundaries of the free rectangles,
//! their openings, and their recursive bisection.

use crate::maze::grid::{
    cell_is_open, grid_map, in_grid, with_wall_east, with_wall_north, with_wall_south,
    with_wall_west, CellGrid, MazeCell,
};
use crate::maze::maze_genotype::WallGene;
use crate::fraction::lemma_quotient_below;
use crate::maze::{OpeningLocation, Orientation, PathDirection};
use vstd::prelude::*;

verus! {

/// `grid` with a wall on every side of the outer boundary.
pub open spec fn with_edges(grid: CellGrid, width: int, height: int) -> CellGrid {
    grid_map(
        grid,
        |i: int, j: int, c: MazeCell|
            MazeCell {
                north_wall: c.north_wall || j == height - 1,
                east_wall: c.east_wall || i == width - 1,
                south_wall: c.south_wall || j == 0,
                west_wall: c.west_wall || i == 0,
                ..c
            },
    )
}

/// The cell reached from `(x, y)` by one step in `direction`; the cell
/// itself where no direction is set.
pub open spec fn step_from(x: int, y: int, direction: PathDirection) -> (int, int) {
    match direction {
        PathDirection::North => (x, y + 1),
        PathDirection::East => (x + 1, y),
        PathDirection::South => (x, y - 1),
        PathDirection::West => (x - 1, y),
        PathDirection::Unset => (x, y),
    }
}

/// `grid` with the corridor walls of the path cell `(x, y)`, which the
/// path entered travelling in direction `entered`.
///
/// A cell that the path leaves vertically gets a west and an east wall,
/// one that it leaves horizontally a north and a south wall; the side
/// through which the path came in stays as it is.
pub open spec fn with_corridor_walls(grid: CellGrid, x: int, y: int, entered: PathDirection) -> CellGrid {
    let leaving = grid[x][y].path_direction;
    if leaving == PathDirection::North || leaving == PathDirection::South {
        let west = if entered != PathDirection::East {
            with_wall_west(grid, x, y, true)
        } else {
            grid
        };
        if entered != PathDirection::West {
            with_wall_east(west, x, y, true)
        } else {
            west
        }
    } else if leaving == PathDirection::West || leaving == PathDirection::East {
        let north = if entered != PathDirection::South {
            with_wall_north(grid, x, y, true)
        } else {
            grid
        };
        if entered != PathDirection::North {
            with_wall_south(north, x, y, true)
        } else {
            north
        }
    } else {
        grid
    }
}

/// `grid` after walking the path from `(x, y)` for at most `fuel` steps
/// and giving every cell on the way its corridor walls.
///
/// The walk follows the direction of each cell. It ends at the exit, at a
/// cell without direction, and where the next step would leave the grid.
pub open spec fn with_enclosed_walk(
    grid: CellGrid,
    width: int,
    height: int,
    x: int,
    y: int,
    entered: PathDirection,
    fuel: nat,
) -> CellGrid
    decreases fuel,
{
    if fuel == 0 || (x == width - 1 && y == 0) || !in_grid(width, height, x, y) {
        grid
    } else {
        let leaving = grid[x][y].path_direction;
        let walled = with_corridor_walls(grid, x, y, entered);
        let next = step_from(x, y, leaving);
        if leaving == PathDirection::Unset || !in_grid(width, height, next.0, next.1) {
            walled
        } else {
            with_enclosed_walk(walled, width, height, next.0, next.1, leaving, (fuel - 1) as nat)
        }
    }
}

/// `grid` with the carved path enclosed: the walk starts at the entrance
/// and no path has more cells than the grid.
pub open spec fn with_enclosed_path(grid: CellGrid, width: int, height: int) -> CellGrid {
    with_enclosed_walk(
        grid,
        width,
        height,
        0,
        height - 1,
        grid[0][height - 1].path_direction,
        (width * height) as nat,
    )
}

/// A free rectangle: the columns `start_x..=end_x` and the rows
/// `end_y..=start_y`, the start being its north-west corner.
#[derive(Debug, Clone, Copy, PartialEq, Eq, Structural)]
pub struct MazeSubdivision {
    pub start_x: u32,
    pub start_y: u32,
    pub end_x: u32,
    pub end_y: u32,
    pub width: u32,
    pub height: u32,
}

impl MazeSubdivision {
    /// The rectangle with the given fields.
    pub fn new(start_x: u32, start_y: u32, end_x: u32, end_y: u32, width: u32, height: u32) -> (subdivision:
        MazeSubdivision)
        ensures
            subdivision == (MazeSubdivision { start_x, start_y, end_x, end_y, width, height }),
    {
        MazeSubdivision { start_x, start_y, end_x, end_y, width, height }
    }

    /// The rectangle is not empty, lies in the `width` by `height` grid,
    /// and its `width` and `height` count its columns and rows.
    pub open spec fn fits(self, width: int, height: int) -> bool {
        &&& self.start_x <= self.end_x < width
        &&& self.end_y <= self.start_y < height
        &&& self.width == self.end_x - self.start_x + 1
        &&& self.height == self.start_y - self.end_y + 1
    }

    /// `(x, y)` is a cell of the rectangle.
    pub open spec fn contains(self, x: int, y: int) -> bool {
        self.start_x <= x <= self.end_x && self.end_y <= y <= self.start_y
    }
}

/// Neither the path nor a rectangle holds the cell: a rectangle may grow
/// over it.
pub open spec fn cell_is_free(cell: MazeCell) -> bool {
    cell.path_direction == PathDirection::Unset && !cell.in_subdivision
}

/// A rectangle starts at the cell: it is free and no waypoint.
pub open spec fn cell_starts_rectangle(cell: MazeCell) -> bool {
    cell_is_free(cell) && !cell.is_waypoint
}

/// The path runs through the cell: no rectangle grows into its row.
pub open spec fn cell_blocks(cell: MazeCell) -> bool {
    cell.path_direction != PathDirection::Unset && !cell.in_subdivision
}

/// The last column of the run of free cells that continues from `(x, y)`
/// eastwards.
pub open spec fn run_end(grid: CellGrid, width: int, x: int, y: int) -> int
    decreases width - x,
{
    if x + 1 < width && cell_is_free(grid[x + 1][y]) {
        run_end(grid, width, x + 1, y)
    } else {
        x
    }
}

/// Row `y` holds a path cell in one of the columns `start_x..=end_x`.
pub open spec fn row_blocked(grid: CellGrid, start_x: int, end_x: int, y: int) -> bool {
    exists|x: int| start_x <= x <= end_x && cell_blocks(#[trigger] grid[x][y])
}

/// The lowest row that a rectangle over the columns `start_x..=end_x`
/// reaches when it grows southwards from row `y`: it stops above the
/// first row that holds a path cell, or at the bottom of the grid.
pub open spec fn drop_end(grid: CellGrid, start_x: int, end_x: int, y: int) -> int
    decreases y,
{
    if y <= 0 {
        0
    } else if row_blocked(grid, start_x, end_x, y - 1) {
        y
    } else {
        drop_end(grid, start_x, end_x, y - 1)
    }
}

/// The rectangle that starts at the free cell `(x, y)`: it grows eastwards
/// over free cells, then southwards over rows without a path cell.
pub open spec fn rectangle_at(grid: CellGrid, width: int, x: int, y: int) -> MazeSubdivision {
    let end_x = run_end(grid, width, x, y);
    let end_y = drop_end(grid, x, end_x, y);
    MazeSubdivision {
        start_x: x as u32,
        start_y: y as u32,
        end_x: end_x as u32,
        end_y: end_y as u32,
        width: (end_x - x + 1) as u32,
        height: (y - end_y + 1) as u32,
    }
}

/// `grid` with every cell of `rectangle` marked as held by a rectangle.
pub open spec fn with_rectangle_marked(grid: CellGrid, rectangle: MazeSubdivision) -> CellGrid {
    grid_map(
        grid,
        |i: int, j: int, c: MazeCell|
            if rectangle.contains(i, j) {
                MazeCell { in_subdivision: true, ..c }
            } else {
                c
            },
    )
}

/// The grid and the rectangles after scanning row `y` from column `x`
/// eastwards: every cell at which a rectangle starts adds that rectangle
/// and marks its cells.
pub open spec fn scan_row(
    grid: CellGrid,
    rectangles: Seq<MazeSubdivision>,
    width: int,
    x: int,
    y: int,
) -> (CellGrid, Seq<MazeSubdivision>)
    decreases width - x,
{
    if x >= width {
        (grid, rectangles)
    } else if cell_starts_rectangle(grid[x][y]) {
        let rectangle = rectangle_at(grid, width, x, y);
        scan_row(with_rectangle_marked(grid, rectangle), rectangles.push(rectangle), width, x + 1, y)
    } else {
        scan_row(grid, rectangles, width, x + 1, y)
    }
}

/// The grid and the rectangles after scanning the lowest `rows` rows,
/// from the highest of them down.
pub open spec fn scan_rows(
    grid: CellGrid,
    rectangles: Seq<MazeSubdivision>,
    width: int,
    rows: nat,
) -> (CellGrid, Seq<MazeSubdivision>)
    decreases rows,
{
    if rows == 0 {
        (grid, rectangles)
    } else {
        let row = scan_row(grid, rectangles, width, 0, rows - 1);
        scan_rows(row.0, row.1, width, (rows - 1) as nat)
    }
}

/// The partition of the free space of `grid` into rectangles, and the
/// grid with their cells marked.
pub open spec fn partition(grid: CellGrid, width: int, height: int) -> (CellGrid, Seq<MazeSubdivision>) {
    scan_rows(grid, Seq::empty(), width, height as nat)
}

/// `grid` with a wall along all four sides of `rectangle`.
pub open spec fn with_boundary(grid: CellGrid, rectangle: MazeSubdivision) -> CellGrid {
    let r = rectangle;
    grid_map(
        grid,
        |i: int, j: int, c: MazeCell|
            MazeCell {
                north_wall: c.north_wall || (r.start_x <= i <= r.end_x && (j == r.start_y || j == r.end_y
                    - 1)),
                south_wall: c.south_wall || (r.start_x <= i <= r.end_x && (j == r.end_y || j == r.start_y
                    + 1)),
                west_wall: c.west_wall || (r.end_y <= j <= r.start_y && (i == r.start_x || i == r.end_x
                    + 1)),
                east_wall: c.east_wall || (r.end_y <= j <= r.start_y && (i == r.end_x || i == r.start_x
                    - 1)),
                ..c
            },
    )
}

/// `grid` with a wall along the sides of the first `count` of
/// `rectangles`.
pub open spec fn with_boundaries(grid: CellGrid, rectangles: Seq<MazeSubdivision>, count: nat) -> CellGrid
    decreases count,
{
    if count == 0 {
        grid
    } else {
        with_boundary(with_boundaries(grid, rectangles, (count - 1) as nat), rectangles[count - 1])
    }
}

/// How many of the cells `(start_x..=end_x, y)` are open.
pub open spec fn open_in_row(grid: CellGrid, y: int, start_x: int, end_x: int) -> nat
    decreases end_x - start_x + 1,
{
    if end_x < start_x {
        0
    } else {
        open_in_row(grid, y, start_x, end_x - 1) + (if cell_is_open(grid[end_x][y]) {
            1nat
        } else {
            0nat
        })
    }
}

/// How many of the cells `(x, end_y..=start_y)` are open.
pub open spec fn open_in_column(grid: CellGrid, x: int, end_y: int, start_y: int) -> nat
    decreases start_y - end_y + 1,
{
    if start_y < end_y {
        0
    } else {
        open_in_column(grid, x, end_y, start_y - 1) + (if cell_is_open(grid[x][start_y]) {
            1nat
        } else {
            0nat
        })
    }
}

/// How many open cells lie across the given side of `rectangle`; none
/// where that side is the edge of the grid.
pub open spec fn open_beyond(
    grid: CellGrid,
    width: int,
    height: int,
    rectangle: MazeSubdivision,
    side: OpeningLocation,
) -> nat {
    let r = rectangle;
    match side {
        OpeningLocation::North => if r.start_y + 1 < height {
            open_in_row(grid, r.start_y + 1, r.start_x as int, r.end_x as int)
        } else {
            0
        },
        OpeningLocation::South => if r.end_y > 0 {
            open_in_row(grid, r.end_y - 1, r.start_x as int, r.end_x as int)
        } else {
            0
        },
        OpeningLocation::West => if r.start_x > 0 {
            open_in_column(grid, r.start_x - 1, r.end_y as int, r.start_y as int)
        } else {
            0
        },
        OpeningLocation::East => if r.end_x + 1 < width {
            open_in_column(grid, r.end_x + 1, r.end_y as int, r.start_y as int)
        } else {
            0
        },
    }
}

/// The side on which a rectangle is opened, given how many open cells
/// lie across each side: the preferred side if it has any, else north,
/// else south, else the one of west and east that has more (west on a
/// tie); no side if none has an open cell across it.
pub open spec fn opening_side(
    north: nat,
    east: nat,
    south: nat,
    west: nat,
    preferred: OpeningLocation,
) -> Option<OpeningLocation> {
    let preferred_count = match preferred {
        OpeningLocation::North => north,
        OpeningLocation::East => east,
        OpeningLocation::South => south,
        OpeningLocation::West => west,
    };
    if preferred_count > 0 {
        Some(preferred)
    } else if north > 0 {
        Some(OpeningLocation::North)
    } else if south > 0 {
        Some(OpeningLocation::South)
    } else if west > 0 && west >= east {
        Some(OpeningLocation::West)
    } else if east > 0 {
        Some(OpeningLocation::East)
    } else {
        None
    }
}

/// The column of the first open cell of row `y` found by trying the
/// columns `start_x + (offset + k) % length` for `k` from `tried` up to
/// `length`.
pub open spec fn first_open_in_row(
    grid: CellGrid,
    y: int,
    start_x: int,
    length: int,
    offset: int,
    tried: int,
) -> Option<int>
    decreases length - tried,
{
    if tried >= length {
        None
    } else {
        let x = start_x + (offset + tried) % length;
        if cell_is_open(grid[x][y]) {
            Some(x)
        } else {
            first_open_in_row(grid, y, start_x, length, offset, tried + 1)
        }
    }
}

/// The row of the first open cell of column `x` found by trying the rows
/// `end_y + (offset + k) % length` for `k` from `tried` up to `length`.
pub open spec fn first_open_in_column(
    grid: CellGrid,
    x: int,
    end_y: int,
    length: int,
    offset: int,
    tried: int,
) -> Option<int>
    decreases length - tried,
{
    if tried >= length {
        None
    } else {
        let y = end_y + (offset + tried) % length;
        if cell_is_open(grid[x][y]) {
            Some(y)
        } else {
            first_open_in_column(grid, x, end_y, length, offset, tried + 1)
        }
    }
}

/// `grid` with every cell of `rectangle` marked as connected.
pub open spec fn with_rectangle_connected(grid: CellGrid, rectangle: MazeSubdivision) -> CellGrid {
    grid_map(
        grid,
        |i: int, j: int, c: MazeCell|
            if rectangle.contains(i, j) {
                MazeCell { is_connected: true, ..c }
            } else {
                c
            },
    )
}

/// The cell of `rectangle` whose wall on the chosen side is opened: the
/// side, and the column (for north and south) or row (for west and east)
/// along it. The search along the side starts at the offset that the
/// passage position picks and wraps around.
pub open spec fn opening_of(
    grid: CellGrid,
    width: int,
    height: int,
    rectangle: MazeSubdivision,
    gene: WallGene,
) -> Option<(OpeningLocation, int)> {
    let r = rectangle;
    let side = opening_side(
        open_beyond(grid, width, height, r, OpeningLocation::North),
        open_beyond(grid, width, height, r, OpeningLocation::East),
        open_beyond(grid, width, height, r, OpeningLocation::South),
        open_beyond(grid, width, height, r, OpeningLocation::West),
        gene.opening_location,
    );
    let across = gene.passage_position.scaled(r.width as int);
    let along = gene.passage_position.scaled(r.height as int);
    match side {
        Some(OpeningLocation::North) => match first_open_in_row(
            grid,
            r.start_y + 1,
            r.start_x as int,
            r.width as int,
            across,
            0,
        ) {
            Some(x) => Some((OpeningLocation::North, x)),
            None => None,
        },
        Some(OpeningLocation::South) => match first_open_in_row(
            grid,
            r.end_y - 1,
            r.start_x as int,
            r.width as int,
            across,
            0,
        ) {
            Some(x) => Some((OpeningLocation::South, x)),
            None => None,
        },
        Some(OpeningLocation::West) => match first_open_in_column(
            grid,
            r.start_x - 1,
            r.end_y as int,
            r.height as int,
            along,
            0,
        ) {
            Some(y) => Some((OpeningLocation::West, y)),
            None => None,
        },
        Some(OpeningLocation::East) => match first_open_in_column(
            grid,
            r.end_x + 1,
            r.end_y as int,
            r.height as int,
            along,
            0,
        ) {
            Some(y) => Some((OpeningLocation::East, y)),
            None => None,
        },
        None => None,
    }
}

/// `grid` with the opening of `rectangle`: one wall of its boundary is
/// removed, towards an open cell, and the rectangle's cells are marked as
/// connected. A rectangle without an open cell across any side stays
/// closed.
pub open spec fn with_opening(
    grid: CellGrid,
    width: int,
    height: int,
    rectangle: MazeSubdivision,
    gene: WallGene,
) -> CellGrid {
    let r = rectangle;
    match opening_of(grid, width, height, r, gene) {
        Some((OpeningLocation::North, x)) => with_rectangle_connected(
            with_wall_north(grid, x, r.start_y as int, false),
            r,
        ),
        Some((OpeningLocation::South, x)) => with_rectangle_connected(
            with_wall_south(grid, x, r.end_y as int, false),
            r,
        ),
        Some((OpeningLocation::West, y)) => with_rectangle_connected(
            with_wall_west(grid, r.start_x as int, y, false),
            r,
        ),
        Some((OpeningLocation::East, y)) => with_rectangle_connected(
            with_wall_east(grid, r.end_x as int, y, false),
            r,
        ),
        None => grid,
    }
}

/// The row whose south side carries the dividing wall when `rectangle`
/// is split horizontally: `floor(wall_position * height)` rows above the
/// bottom row, and never the bottom row itself.
pub open spec fn dividing_row(rectangle: MazeSubdivision, gene: WallGene) -> int {
    let row = rectangle.end_y + gene.wall_position.scaled(rectangle.height as int);
    if row <= rectangle.end_y {
        rectangle.end_y + 1
    } else {
        row
    }
}

/// The column whose east side carries the dividing wall when `rectangle`
/// is split vertically: `floor(wall_position * width)` columns east of
/// the first column, and never the last column.
pub open spec fn dividing_column(rectangle: MazeSubdivision, gene: WallGene) -> int {
    let column = rectangle.start_x + gene.wall_position.scaled(rectangle.width as int);
    if column >= rectangle.end_x {
        rectangle.end_x - 1
    } else {
        column
    }
}

/// The column of the gap in a horizontal dividing wall.
pub open spec fn gap_column(rectangle: MazeSubdivision, gene: WallGene) -> int {
    rectangle.start_x + gene.passage_position.scaled(rectangle.width as int)
}

/// The row of the gap in a vertical dividing wall.
pub open spec fn gap_row(rectangle: MazeSubdivision, gene: WallGene) -> int {
    rectangle.end_y + gene.passage_position.scaled(rectangle.height as int)
}

/// `grid` with a wall along the south side of row `row` across
/// `rectangle`, but for the column `gap`, where that side is open.
pub open spec fn with_horizontal_divide(grid: CellGrid, rectangle: MazeSubdivision, row: int, gap: int) -> CellGrid {
    let r = rectangle;
    grid_map(
        grid,
        |i: int, j: int, c: MazeCell|
            if r.start_x <= i <= r.end_x && j == row {
                MazeCell { south_wall: i != gap, ..c }
            } else if r.start_x <= i <= r.end_x && j == row - 1 {
                MazeCell { north_wall: i != gap, ..c }
            } else {
                c
            },
    )
}

/// `grid` with a wall along the east side of column `column` across
/// `rectangle`, but for the row `gap`, where that side is open.
pub open spec fn with_vertical_divide(grid: CellGrid, rectangle: MazeSubdivision, column: int, gap: int) -> CellGrid {
    let r = rectangle;
    grid_map(
        grid,
        |i: int, j: int, c: MazeCell|
            if i == column && r.end_y <= j <= r.start_y {
                MazeCell { east_wall: j != gap, ..c }
            } else if i == column + 1 && r.end_y <= j <= r.start_y {
                MazeCell { west_wall: j != gap, ..c }
            } else {
                c
            },
    )
}

/// The part of `rectangle` from row `row` upwards.
pub open spec fn upper_part(rectangle: MazeSubdivision, row: int) -> MazeSubdivision {
    MazeSubdivision { end_y: row as u32, height: (rectangle.start_y - row + 1) as u32, ..rectangle }
}

/// The part of `rectangle` below row `row`.
pub open spec fn lower_part(rectangle: MazeSubdivision, row: int) -> MazeSubdivision {
    MazeSubdivision { start_y: (row - 1) as u32, height: (row - rectangle.end_y) as u32, ..rectangle }
}

/// The part of `rectangle` up to column `column`.
pub open spec fn western_part(rectangle: MazeSubdivision, column: int) -> MazeSubdivision {
    MazeSubdivision { end_x: column as u32, width: (column - rectangle.start_x + 1) as u32, ..rectangle }
}

/// The part of `rectangle` east of column `column`.
pub open spec fn eastern_part(rectangle: MazeSubdivision, column: int) -> MazeSubdivision {
    MazeSubdivision { start_x: (column + 1) as u32, width: (rectangle.end_x - column) as u32, ..rectangle }
}

/// The rectangle is not empty and its `width` and `height` count its
/// columns and rows.
pub open spec fn rectangle_is_sound(rectangle: MazeSubdivision) -> bool {
    &&& rectangle.start_x <= rectangle.end_x
    &&& rectangle.end_y <= rectangle.start_y
    &&& rectangle.width == rectangle.end_x - rectangle.start_x + 1
    &&& rectangle.height == rectangle.start_y - rectangle.end_y + 1
}

/// A split of a rectangle with more than one row and more than one column
/// leaves two sound rectangles, each with fewer rows or fewer columns
/// than the whole, and the gap lies on the dividing wall.
pub proof fn lemma_split(rectangle: MazeSubdivision, gene: WallGene)
    requires
        rectangle_is_sound(rectangle),
        rectangle.width > 1,
        rectangle.height > 1,
    ensures
        rectangle.end_y < dividing_row(rectangle, gene) <= rectangle.start_y,
        rectangle.start_x <= dividing_column(rectangle, gene) < rectangle.end_x,
        rectangle.start_x <= gap_column(rectangle, gene) <= rectangle.end_x,
        rectangle.end_y <= gap_row(rectangle, gene) <= rectangle.start_y,
        rectangle_is_sound(upper_part(rectangle, dividing_row(rectangle, gene))),
        rectangle_is_sound(lower_part(rectangle, dividing_row(rectangle, gene))),
        rectangle_is_sound(western_part(rectangle, dividing_column(rectangle, gene))),
        rectangle_is_sound(eastern_part(rectangle, dividing_column(rectangle, gene))),
        upper_part(rectangle, dividing_row(rectangle, gene)).height < rectangle.height,
        lower_part(rectangle, dividing_row(rectangle, gene)).height < rectangle.height,
        western_part(rectangle, dividing_column(rectangle, gene)).width < rectangle.width,
        eastern_part(rectangle, dividing_column(rectangle, gene)).width < rectangle.width,
{
    lemma_quotient_below(
        gene.wall_position.bits as int,
        rectangle.height as int,
        crate::fraction::FRACTION_DENOMINATOR as int,
    );
    lemma_quotient_below(
        gene.wall_position.bits as int,
        rectangle.width as int,
        crate::fraction::FRACTION_DENOMINATOR as int,
    );
    lemma_quotient_below(
        gene.passage_position.bits as int,
        rectangle.height as int,
        crate::fraction::FRACTION_DENOMINATOR as int,
    );
    lemma_quotient_below(
        gene.passage_position.bits as int,
        rectangle.width as int,
        crate::fraction::FRACTION_DENOMINATOR as int,
    );
}

/// `grid` after the recursive bisection of `rectangle`.
///
/// A rectangle with a single row or a single column is left as it is.
/// Any other is split by the gene at `gene_index`: a dividing wall with
/// one gap, horizontal or vertical as the gene says. Both parts are then
/// bisected in turn with the next gene, the genes being taken in a cycle.
pub open spec fn with_bisection(
    grid: CellGrid,
    rectangle: MazeSubdivision,
    gene_index: int,
    genes: Seq<WallGene>,
) -> CellGrid
    decreases rectangle.width + rectangle.height,
{
    if rectangle.width <= 1 || rectangle.height <= 1 || !rectangle_is_sound(rectangle) {
        grid
    } else {
        let gene = genes[gene_index];
        let next = (gene_index + 1) % (genes.len() as int);
        proof {
            lemma_split(rectangle, gene);
        }
        match gene.orientation {
            Orientation::Horizontal => {
                let row = dividing_row(rectangle, gene);
                let divided = with_horizontal_divide(grid, rectangle, row, gap_column(rectangle, gene));
                with_bisection(
                    with_bisection(divided, upper_part(rectangle, row), next, genes),
                    lower_part(rectangle, row),
                    next,
                    genes,
                )
            },
            Orientation::Vertical => {
                let column = dividing_column(rectangle, gene);
                let divided = with_vertical_divide(grid, rectangle, column, gap_row(rectangle, gene));
                with_bisection(
                    with_bisection(divided, western_part(rectangle, column), next, genes),
                    eastern_part(rectangle, column),
                    next,
                    genes,
                )
            },
        }
    }
}

/// `grid` after opening and bisecting the first `count` of `rectangles`,
/// in order; rectangle `k` uses the gene `k % genes.len()`.
pub open spec fn with_rooms(
    grid: CellGrid,
    width: int,
    height: int,
    rectangles: Seq<MazeSubdivision>,
    genes: Seq<WallGene>,
    count: nat,
) -> CellGrid
    decreases count,
{
    if count == 0 {
        grid
    } else {
        let k = count - 1;
        let gene_index = k % (genes.len() as int);
        with_bisection(
            with_opening(
                with_rooms(grid, width, height, rectangles, genes, k as nat),
                width,
                height,
                rectangles[k],
                genes[gene_index],
            ),
            rectangles[k],
            gene_index,
            genes,
        )
    }
}

/// `grid`, on which the path is carved, with all its walls: the outer
/// boundary, the enclosure of the path, and the free space tiled into
/// rectangles that are walled, opened and bisected.
pub open spec fn with_walls(grid: CellGrid, width: int, height: int, genes: Seq<WallGene>) -> CellGrid {
    let enclosed = with_enclosed_path(with_edges(grid, width, height), width, height);
    let tiled = partition(enclosed, width, height);
    let bounded = with_boundaries(tiled.0, tiled.1, tiled.1.len());
    with_rooms(bounded, width, height, tiled.1, genes, tiled.1.len())
}

} // verus!
