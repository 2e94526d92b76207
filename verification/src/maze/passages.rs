//! Which passages building the walls keeps open: the passages along the
//! route, the passages inside the free rectangles before their turn
//! comes, and the opening of each rectangle.

use crate::maze::{OpeningLocation, Orientation, PathDirection};
use crate::maze::connectivity::{leads, passable};
use crate::maze::frame::{lemma_corridor_keeps_rest, same_path};
use crate::maze::grid::{
    cell_is_open, grid_wf, in_grid, with_wall_east, with_wall_north, with_wall_south,
    with_wall_west, CellGrid,
};
use crate::maze::maze_genotype::{route_length, PathGene, WallGene};
use crate::maze::path::between;
use crate::maze::route::{carries_route, lemma_route_cells_differ, lemma_route_step, route_cell};
use crate::maze::walk::lemma_walk_reaches_exit;
use crate::maze::walls::{
    cell_starts_rectangle, first_open_in_column, first_open_in_row, opening_of, rectangle_at,
    scan_row, scan_rows, step_from, with_boundaries, with_boundary, with_corridor_walls, with_edges,
    with_enclosed_walk, with_opening, with_rectangle_connected, with_rectangle_marked,
    MazeSubdivision,
};
use vstd::prelude::*;

verus! {

/// What setting a wall does to the north and east walls, from which
/// the passages are read: the north wall of a cell changes when its
/// north wall or the south wall of the cell above is set, its east wall
/// when its east wall or the west wall of the cell east of it is set.
pub proof fn lemma_walls_set(grid: CellGrid, width: int, height: int, x: int, y: int, wall: bool)
    requires
        grid_wf(grid, width, height),
    ensures
        forall|i: int, j: int|
            in_grid(width, height, i, j) ==> {
                &&& (#[trigger] with_wall_north(grid, x, y, wall)[i][j]).north_wall == (if i == x && j == y {
                    wall
                } else {
                    grid[i][j].north_wall
                })
                &&& with_wall_north(grid, x, y, wall)[i][j].east_wall == grid[i][j].east_wall
            },
        forall|i: int, j: int|
            in_grid(width, height, i, j) ==> {
                &&& (#[trigger] with_wall_south(grid, x, y, wall)[i][j]).north_wall == (if i == x && j == y - 1 {
                    wall
                } else {
                    grid[i][j].north_wall
                })
                &&& with_wall_south(grid, x, y, wall)[i][j].east_wall == grid[i][j].east_wall
            },
        forall|i: int, j: int|
            in_grid(width, height, i, j) ==> {
                &&& (#[trigger] with_wall_east(grid, x, y, wall)[i][j]).east_wall == (if i == x && j == y {
                    wall
                } else {
                    grid[i][j].east_wall
                })
                &&& with_wall_east(grid, x, y, wall)[i][j].north_wall == grid[i][j].north_wall
            },
        forall|i: int, j: int|
            in_grid(width, height, i, j) ==> {
                &&& (#[trigger] with_wall_west(grid, x, y, wall)[i][j]).east_wall == (if i == x - 1 && j == y {
                    wall
                } else {
                    grid[i][j].east_wall
                })
                &&& with_wall_west(grid, x, y, wall)[i][j].north_wall == grid[i][j].north_wall
            },
        grid_wf(with_wall_north(grid, x, y, wall), width, height),
        grid_wf(with_wall_south(grid, x, y, wall), width, height),
        grid_wf(with_wall_east(grid, x, y, wall), width, height),
        grid_wf(with_wall_west(grid, x, y, wall), width, height),
{
}

/// The walls that stand north and east of the cell `(i, j)` once the
/// cell `(x, y)`, which the path leaves in direction `leaving` and
/// entered in direction `entered`, has got its corridor walls.
pub open spec fn corridor_north(
    before: bool,
    x: int,
    y: int,
    leaving: PathDirection,
    entered: PathDirection,
    i: int,
    j: int,
) -> bool {
    let along = leaving == PathDirection::West || leaving == PathDirection::East;
    before || (along && i == x && ((j == y && entered != PathDirection::South) || (j == y - 1 && entered
        != PathDirection::North)))
}

/// See [`corridor_north`].
pub open spec fn corridor_east(
    before: bool,
    x: int,
    y: int,
    leaving: PathDirection,
    entered: PathDirection,
    i: int,
    j: int,
) -> bool {
    let upright = leaving == PathDirection::North || leaving == PathDirection::South;
    before || (upright && j == y && ((i == x && entered != PathDirection::West) || (i == x - 1 && entered
        != PathDirection::East)))
}

/// The corridor walls of a cell, told by the north and east walls of all
/// cells.
pub proof fn lemma_corridor_walls_set(
    grid: CellGrid,
    width: int,
    height: int,
    x: int,
    y: int,
    entered: PathDirection,
)
    requires
        grid_wf(grid, width, height),
        in_grid(width, height, x, y),
    ensures
        forall|i: int, j: int|
            in_grid(width, height, i, j) ==> {
                &&& (#[trigger] with_corridor_walls(grid, x, y, entered)[i][j]).north_wall == corridor_north(
                    grid[i][j].north_wall,
                    x,
                    y,
                    grid[x][y].path_direction,
                    entered,
                    i,
                    j,
                )
                &&& with_corridor_walls(grid, x, y, entered)[i][j].east_wall == corridor_east(
                    grid[i][j].east_wall,
                    x,
                    y,
                    grid[x][y].path_direction,
                    entered,
                    i,
                    j,
                )
            },
{
    let leaving = grid[x][y].path_direction;
    lemma_walls_set(grid, width, height, x, y, true);
    if leaving == PathDirection::North || leaving == PathDirection::South {
        let west = if entered != PathDirection::East {
            with_wall_west(grid, x, y, true)
        } else {
            grid
        };
        lemma_walls_set(west, width, height, x, y, true);
        let both = if entered != PathDirection::West {
            with_wall_east(west, x, y, true)
        } else {
            west
        };
        assert(with_corridor_walls(grid, x, y, entered) == both);
        assert forall|i: int, j: int| in_grid(width, height, i, j) implies (#[trigger] both[i][j]).north_wall
            == grid[i][j].north_wall && both[i][j].east_wall == corridor_east(
            grid[i][j].east_wall,
            x,
            y,
            leaving,
            entered,
            i,
            j,
        ) by {
            let w = west[i][j];
        }
    } else if leaving == PathDirection::West || leaving == PathDirection::East {
        let north = if entered != PathDirection::South {
            with_wall_north(grid, x, y, true)
        } else {
            grid
        };
        lemma_walls_set(north, width, height, x, y, true);
        let both = if entered != PathDirection::North {
            with_wall_south(north, x, y, true)
        } else {
            north
        };
        assert(with_corridor_walls(grid, x, y, entered) == both);
        assert forall|i: int, j: int| in_grid(width, height, i, j) implies (#[trigger] both[i][j]).east_wall
            == grid[i][j].east_wall && both[i][j].north_wall == corridor_north(
            grid[i][j].north_wall,
            x,
            y,
            leaving,
            entered,
            i,
            j,
        ) by {
            let n = north[i][j];
        }
    }
}

/// The direction in which the route enters its cell `j`: the direction
/// in which it leaves the cell before, and for the entrance its own
/// direction.
pub open spec fn entered_at(reference: CellGrid, height: int, j: nat) -> PathDirection {
    let from = if j == 0 {
        route_cell(reference, height, 0)
    } else {
        route_cell(reference, height, (j - 1) as nat)
    };
    reference[from.0][from.1].path_direction
}

/// The corridor walls of a cell of the route stand beside the route and
/// never across it: they leave the passage from each cell of the route
/// to the next open.
pub proof fn lemma_corridor_keeps_route_open(
    reference: CellGrid,
    grid: CellGrid,
    width: int,
    height: int,
    first: Orientation,
    genes: Seq<PathGene>,
    j: nat,
    s: nat,
)
    requires
        carries_route(reference, width, height, first, genes),
        same_path(reference, grid, width, height),
        j < route_length(width, height, genes),
        s < route_length(width, height, genes),
        passable(grid, width, height, route_cell(reference, height, s), route_cell(reference, height, s + 1)),
    ensures
        passable(
            with_corridor_walls(
                grid,
                route_cell(reference, height, j).0,
                route_cell(reference, height, j).1,
                entered_at(reference, height, j),
            ),
            width,
            height,
            route_cell(reference, height, s),
            route_cell(reference, height, s + 1),
        ),
{
    let at = route_cell(reference, height, j);
    let from = route_cell(reference, height, s);
    let to = route_cell(reference, height, s + 1);
    lemma_route_step(reference, width, height, first, genes, j);
    lemma_route_step(reference, width, height, first, genes, s);
    lemma_corridor_walls_set(grid, width, height, at.0, at.1, entered_at(reference, height, j));
    if j < s {
        lemma_route_cells_differ(reference, width, height, first, genes, j, s);
        lemma_route_cells_differ(reference, width, height, first, genes, j, s + 1);
    } else if j > s + 1 {
        lemma_route_cells_differ(reference, width, height, first, genes, s, j);
        lemma_route_cells_differ(reference, width, height, first, genes, s + 1, j);
    } else if j == s + 1 {
        lemma_route_cells_differ(reference, width, height, first, genes, s, j);
        assert(entered_at(reference, height, j) == reference[from.0][from.1].path_direction);
    } else {
        lemma_route_cells_differ(reference, width, height, first, genes, s, s + 1);
    }
}

/// Enclosing the path leaves the passage from each cell of the route to
/// the next open.
pub proof fn lemma_enclosure_keeps_route_open(
    reference: CellGrid,
    grid: CellGrid,
    width: int,
    height: int,
    first: Orientation,
    genes: Seq<PathGene>,
    j: nat,
    fuel: nat,
    s: nat,
)
    requires
        carries_route(reference, width, height, first, genes),
        same_path(reference, grid, width, height),
        j <= route_length(width, height, genes),
        s < route_length(width, height, genes),
        passable(grid, width, height, route_cell(reference, height, s), route_cell(reference, height, s + 1)),
    ensures
        passable(
            with_enclosed_walk(
                grid,
                width,
                height,
                route_cell(reference, height, j).0,
                route_cell(reference, height, j).1,
                entered_at(reference, height, j),
                fuel,
            ),
            width,
            height,
            route_cell(reference, height, s),
            route_cell(reference, height, s + 1),
        ),
    decreases fuel,
{
    let at = route_cell(reference, height, j);
    lemma_walk_reaches_exit(reference, width, height, first, genes);
    if fuel == 0 || j == route_length(width, height, genes) {
    } else {
        lemma_route_step(reference, width, height, first, genes, j);
        let entered = entered_at(reference, height, j);
        let leaving = grid[at.0][at.1].path_direction;
        let walled = with_corridor_walls(grid, at.0, at.1, entered);
        lemma_corridor_keeps_rest(grid, width, height, at.0, at.1, entered);
        lemma_corridor_keeps_route_open(reference, grid, width, height, first, genes, j, s);
        assert(entered_at(reference, height, j + 1) == leaving);
        lemma_enclosure_keeps_route_open(
            reference,
            walled,
            width,
            height,
            first,
            genes,
            j + 1,
            (fuel - 1) as nat,
            s,
        );
    }
}

/// `after` has the north and east walls and the connection marks of
/// `before`.
pub open spec fn same_passages(before: CellGrid, after: CellGrid, width: int, height: int) -> bool {
    &&& grid_wf(after, width, height)
    &&& forall|x: int, y: int|
        in_grid(width, height, x, y) ==> {
            &&& (#[trigger] after[x][y]).north_wall == before[x][y].north_wall
            &&& after[x][y].east_wall == before[x][y].east_wall
            &&& after[x][y].is_connected == before[x][y].is_connected
        }
}

/// `after` has the north and east walls of `before`.
pub open spec fn same_passages_but_marks(before: CellGrid, after: CellGrid, width: int, height: int) -> bool {
    &&& grid_wf(after, width, height)
    &&& forall|x: int, y: int|
        in_grid(width, height, x, y) ==> {
            &&& (#[trigger] after[x][y]).north_wall == before[x][y].north_wall
            &&& after[x][y].east_wall == before[x][y].east_wall
        }
}

/// Scanning a row for rectangles builds no wall.
pub proof fn lemma_scan_row_keeps_passages(
    grid: CellGrid,
    rectangles: Seq<MazeSubdivision>,
    width: int,
    height: int,
    x: int,
    y: int,
)
    requires
        grid_wf(grid, width, height),
        0 <= x,
    ensures
        same_passages(grid, scan_row(grid, rectangles, width, x, y).0, width, height),
    decreases width - x,
{
    if x >= width {
    } else if cell_starts_rectangle(grid[x][y]) {
        let rectangle = rectangle_at(grid, width, x, y);
        assert(same_passages(grid, with_rectangle_marked(grid, rectangle), width, height));
        lemma_scan_row_keeps_passages(
            with_rectangle_marked(grid, rectangle),
            rectangles.push(rectangle),
            width,
            height,
            x + 1,
            y,
        );
    } else {
        lemma_scan_row_keeps_passages(grid, rectangles, width, height, x + 1, y);
    }
}

/// Scanning the grid for rectangles builds no wall.
pub proof fn lemma_scan_rows_keeps_passages(
    grid: CellGrid,
    rectangles: Seq<MazeSubdivision>,
    width: int,
    height: int,
    rows: nat,
)
    requires
        grid_wf(grid, width, height),
    ensures
        same_passages(grid, scan_rows(grid, rectangles, width, rows).0, width, height),
    decreases rows,
{
    if rows > 0 {
        lemma_scan_row_keeps_passages(grid, rectangles, width, height, 0, rows - 1);
        let row = scan_row(grid, rectangles, width, 0, rows - 1);
        lemma_scan_rows_keeps_passages(row.0, row.1, width, height, (rows - 1) as nat);
    }
}

/// The walls of the outer boundary stand between no two cells.
pub proof fn lemma_edges_keep_passages(grid: CellGrid, width: int, height: int, c: (int, int), d: (int, int))
    requires
        grid_wf(grid, width, height),
        passable(grid, width, height, c, d),
    ensures
        passable(with_edges(grid, width, height), width, height, c, d),
{
}

/// Enclosing the path builds no wall between two cells off the path.
pub proof fn lemma_enclosure_keeps_free_passages(
    grid: CellGrid,
    width: int,
    height: int,
    x: int,
    y: int,
    entered: PathDirection,
    fuel: nat,
    c: (int, int),
    d: (int, int),
)
    requires
        grid_wf(grid, width, height),
        passable(grid, width, height, c, d),
        grid[c.0][c.1].path_direction == PathDirection::Unset,
        grid[d.0][d.1].path_direction == PathDirection::Unset,
    ensures
        passable(with_enclosed_walk(grid, width, height, x, y, entered, fuel), width, height, c, d),
    decreases fuel,
{
    if fuel == 0 || (x == width - 1 && y == 0) || !in_grid(width, height, x, y) {
    } else {
        let leaving = grid[x][y].path_direction;
        let walled = with_corridor_walls(grid, x, y, entered);
        lemma_corridor_walls_set(grid, width, height, x, y, entered);
        lemma_corridor_keeps_rest(grid, width, height, x, y, entered);
        let next = step_from(x, y, leaving);
        if leaving == PathDirection::Unset || !in_grid(width, height, next.0, next.1) {
        } else {
            lemma_enclosure_keeps_free_passages(
                walled,
                width,
                height,
                next.0,
                next.1,
                leaving,
                (fuel - 1) as nat,
                c,
                d,
            );
        }
    }
}

/// The boundary of a rectangle stands between its cells and the cells
/// around it: it keeps the passages between two cells of the rectangle
/// and between two cells outside of it.
pub proof fn lemma_boundary_keeps_passage(
    grid: CellGrid,
    width: int,
    height: int,
    rectangle: MazeSubdivision,
    c: (int, int),
    d: (int, int),
)
    requires
        grid_wf(grid, width, height),
        rectangle.fits(width, height),
        passable(grid, width, height, c, d),
        rectangle.contains(c.0, c.1) == rectangle.contains(d.0, d.1),
    ensures
        passable(with_boundary(grid, rectangle), width, height, c, d),
        same_path(grid, with_boundary(grid, rectangle), width, height),
{
}

/// The boundaries of rectangles keep the passage between two cells that
/// lie in the same rectangle or both in none.
pub proof fn lemma_boundaries_keep_passage(
    grid: CellGrid,
    width: int,
    height: int,
    rectangles: Seq<MazeSubdivision>,
    count: nat,
    c: (int, int),
    d: (int, int),
)
    requires
        grid_wf(grid, width, height),
        passable(grid, width, height, c, d),
        count <= rectangles.len(),
        forall|i: int|
            0 <= i < rectangles.len() ==> (#[trigger] rectangles[i]).fits(width, height) && rectangles[i].contains(
                c.0,
                c.1,
            ) == rectangles[i].contains(d.0, d.1),
    ensures
        passable(with_boundaries(grid, rectangles, count), width, height, c, d),
        grid_wf(with_boundaries(grid, rectangles, count), width, height),
    decreases count,
{
    if count > 0 {
        lemma_boundaries_keep_passage(grid, width, height, rectangles, (count - 1) as nat, c, d);
        lemma_boundary_keeps_passage(
            with_boundaries(grid, rectangles, (count - 1) as nat),
            width,
            height,
            rectangles[count - 1],
            c,
            d,
        );
    }
}

/// What the search along a row finds is an open cell of the row.
pub proof fn lemma_found_in_row(grid: CellGrid, y: int, start_x: int, length: int, offset: int, tried: int)
    requires
        length > 0,
        0 <= offset,
        0 <= tried,
        first_open_in_row(grid, y, start_x, length, offset, tried) is Some,
    ensures
        start_x <= first_open_in_row(grid, y, start_x, length, offset, tried)->0 < start_x + length,
        cell_is_open(grid[first_open_in_row(grid, y, start_x, length, offset, tried)->0][y]),
    decreases length - tried,
{
    if tried < length {
        let x = start_x + (offset + tried) % length;
        vstd::arithmetic::div_mod::lemma_mod_pos_bound(offset + tried, length);
        if !cell_is_open(grid[x][y]) {
            lemma_found_in_row(grid, y, start_x, length, offset, tried + 1);
        }
    }
}

/// What the search along a column finds is an open cell of the column.
pub proof fn lemma_found_in_column(grid: CellGrid, x: int, end_y: int, length: int, offset: int, tried: int)
    requires
        length > 0,
        0 <= offset,
        0 <= tried,
        first_open_in_column(grid, x, end_y, length, offset, tried) is Some,
    ensures
        end_y <= first_open_in_column(grid, x, end_y, length, offset, tried)->0 < end_y + length,
        cell_is_open(grid[x][first_open_in_column(grid, x, end_y, length, offset, tried)->0]),
    decreases length - tried,
{
    if tried < length {
        let y = end_y + (offset + tried) % length;
        vstd::arithmetic::div_mod::lemma_mod_pos_bound(offset + tried, length);
        if !cell_is_open(grid[x][y]) {
            lemma_found_in_column(grid, x, end_y, length, offset, tried + 1);
        }
    }
}

/// The cell of the rectangle at its opening, and the cell across the
/// opening.
pub open spec fn opening_cells(rectangle: MazeSubdivision, side: OpeningLocation, place: int) -> (
    (int, int),
    (int, int),
) {
    let r = rectangle;
    match side {
        OpeningLocation::North => ((place, r.start_y as int), (place, r.start_y + 1)),
        OpeningLocation::South => ((place, r.end_y as int), (place, r.end_y - 1)),
        OpeningLocation::West => ((r.start_x as int, place), (r.start_x - 1, place)),
        OpeningLocation::East => ((r.end_x as int, place), (r.end_x + 1, place)),
    }
}

/// The opening of a rectangle builds no wall.
pub proof fn lemma_opening_walls_fall(
    grid: CellGrid,
    width: int,
    height: int,
    rectangle: MazeSubdivision,
    gene: WallGene,
)
    requires
        grid_wf(grid, width, height),
    ensures
        forall|x: int, y: int|
            in_grid(width, height, x, y) ==> {
                &&& ((#[trigger] with_opening(grid, width, height, rectangle, gene)[x][y]).north_wall
                    ==> grid[x][y].north_wall)
                &&& (with_opening(grid, width, height, rectangle, gene)[x][y].east_wall ==> grid[x][y].east_wall)
            },
{
    let r = rectangle;
    match opening_of(grid, width, height, r, gene) {
        Some((side, place)) => {
            lemma_walls_set(grid, width, height, place, r.start_y as int, false);
            lemma_walls_set(grid, width, height, place, r.end_y as int, false);
            lemma_walls_set(grid, width, height, r.start_x as int, place, false);
            lemma_walls_set(grid, width, height, r.end_x as int, place, false);
            let opened = match side {
                OpeningLocation::North => with_wall_north(grid, place, r.start_y as int, false),
                OpeningLocation::South => with_wall_south(grid, place, r.end_y as int, false),
                OpeningLocation::West => with_wall_west(grid, r.start_x as int, place, false),
                OpeningLocation::East => with_wall_east(grid, r.end_x as int, place, false),
            };
            assert(with_opening(grid, width, height, r, gene) == with_rectangle_connected(opened, r));
            assert(same_passages_but_marks(opened, with_rectangle_connected(opened, r), width, height));
        },
        None => {},
    }
}

/// The opening of a rectangle leads from one of its cells to an open
/// cell outside of it, and it closes no passage.
pub proof fn lemma_opening_is_a_passage(
    grid: CellGrid,
    width: int,
    height: int,
    rectangle: MazeSubdivision,
    gene: WallGene,
)
    requires
        grid_wf(grid, width, height),
        rectangle.fits(width, height),
        opening_of(grid, width, height, rectangle, gene) is Some,
    ensures
        ({
            let (side, place) = opening_of(grid, width, height, rectangle, gene)->0;
            let (own, across) = opening_cells(rectangle, side, place);
            &&& rectangle.contains(own.0, own.1)
            &&& !rectangle.contains(across.0, across.1)
            &&& in_grid(width, height, across.0, across.1)
            &&& cell_is_open(grid[across.0][across.1])
            &&& passable(with_opening(grid, width, height, rectangle, gene), width, height, across, own)
        }),
        forall|c: (int, int), d: (int, int)| #[trigger]
            passable(grid, width, height, c, d) ==> passable(
                with_opening(grid, width, height, rectangle, gene),
                width,
                height,
                c,
                d,
            ),
{
    let r = rectangle;
    crate::fraction::lemma_quotient_below(
        gene.passage_position.bits as int,
        r.width as int,
        crate::fraction::FRACTION_DENOMINATOR as int,
    );
    crate::fraction::lemma_quotient_below(
        gene.passage_position.bits as int,
        r.height as int,
        crate::fraction::FRACTION_DENOMINATOR as int,
    );
    let across = gene.passage_position.scaled(r.width as int);
    let along = gene.passage_position.scaled(r.height as int);
    let (side, place) = opening_of(grid, width, height, r, gene)->0;
    lemma_walls_set(grid, width, height, place, r.start_y as int, false);
    lemma_walls_set(grid, width, height, place, r.end_y as int, false);
    lemma_walls_set(grid, width, height, r.start_x as int, place, false);
    lemma_walls_set(grid, width, height, r.end_x as int, place, false);
    let opened = match side {
        OpeningLocation::North => with_wall_north(grid, place, r.start_y as int, false),
        OpeningLocation::South => with_wall_south(grid, place, r.end_y as int, false),
        OpeningLocation::West => with_wall_west(grid, r.start_x as int, place, false),
        OpeningLocation::East => with_wall_east(grid, r.end_x as int, place, false),
    };
    assert(with_opening(grid, width, height, r, gene) == with_rectangle_connected(opened, r));
    assert(same_passages_but_marks(opened, with_rectangle_connected(opened, r), width, height));
    match side {
        OpeningLocation::North => {
            lemma_found_in_row(grid, r.start_y + 1, r.start_x as int, r.width as int, across, 0);
        },
        OpeningLocation::South => {
            lemma_found_in_row(grid, r.end_y - 1, r.start_x as int, r.width as int, across, 0);
        },
        OpeningLocation::West => {
            lemma_found_in_column(grid, r.start_x - 1, r.end_y as int, r.height as int, along, 0);
        },
        OpeningLocation::East => {
            lemma_found_in_column(grid, r.end_x + 1, r.end_y as int, r.height as int, along, 0);
        },
    }
    assert forall|c: (int, int), d: (int, int)| #[trigger] passable(grid, width, height, c, d) implies passable(
        with_opening(grid, width, height, r, gene),
        width,
        height,
        c,
        d,
    ) by {
        assert(passable(opened, width, height, c, d));
    }
}

} // verus!
