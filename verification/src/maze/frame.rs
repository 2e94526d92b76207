//! What building the walls leaves alone: the carved path, and, in a
//! bisection, every cell outside the rectangle and the boundary of the
//! rectangle itself.

use crate::maze::grid::{
    grid_wf, in_grid, with_wall_east, with_wall_north, with_wall_south, with_wall_west, CellGrid,
};
use crate::maze::maze_genotype::WallGene;
use crate::maze::walls::{
    dividing_column, dividing_row, eastern_part, gap_column, gap_row, lemma_split, lower_part,
    opening_of, partition, rectangle_at, rectangle_is_sound, scan_row, scan_rows, step_from,
    upper_part, western_part, with_bisection, with_boundaries, with_boundary, with_corridor_walls,
    with_edges, with_enclosed_path, with_enclosed_walk, with_horizontal_divide, with_opening,
    with_rectangle_connected, with_rectangle_marked, with_rooms, with_vertical_divide, with_walls,
    MazeSubdivision,
};
use crate::maze::{OpeningLocation, Orientation, PathDirection};
use vstd::prelude::*;

verus! {

/// `after` has the shape of `before` and the same path: every cell has
/// the direction and the waypoint and juncture marks that it had.
pub open spec fn same_path(before: CellGrid, after: CellGrid, width: int, height: int) -> bool {
    &&& grid_wf(after, width, height)
    &&& forall|x: int, y: int|
        in_grid(width, height, x, y) ==> {
            &&& (#[trigger] after[x][y]).path_direction == before[x][y].path_direction
            &&& after[x][y].is_waypoint == before[x][y].is_waypoint
            &&& after[x][y].is_juncture == before[x][y].is_juncture
        }
}

/// `after` has the path of `before`, and the same cells lie in
/// rectangles.
pub open spec fn same_tiling(before: CellGrid, after: CellGrid, width: int, height: int) -> bool {
    &&& same_path(before, after, width, height)
    &&& forall|x: int, y: int|
        in_grid(width, height, x, y) ==> (#[trigger] after[x][y]).in_subdivision == before[x][y].in_subdivision
}

/// `after` differs from `before` in walls only.
pub open spec fn same_but_walls(before: CellGrid, after: CellGrid, width: int, height: int) -> bool {
    &&& same_path(before, after, width, height)
    &&& forall|x: int, y: int|
        in_grid(width, height, x, y) ==> {
            &&& (#[trigger] after[x][y]).in_subdivision == before[x][y].in_subdivision
            &&& after[x][y].is_connected == before[x][y].is_connected
        }
}

/// `after` differs from `before` only inside `rectangle`, and there only
/// in walls between two cells of the rectangle.
pub open spec fn same_outside(
    before: CellGrid,
    after: CellGrid,
    width: int,
    height: int,
    rectangle: MazeSubdivision,
) -> bool {
    let r = rectangle;
    &&& same_but_walls(before, after, width, height)
    &&& forall|x: int, y: int|
        in_grid(width, height, x, y) ==> {
            &&& !r.contains(x, y) ==> #[trigger] after[x][y] == before[x][y]
            &&& (y == r.start_y ==> after[x][y].north_wall == before[x][y].north_wall)
            &&& (y == r.end_y ==> after[x][y].south_wall == before[x][y].south_wall)
            &&& (x == r.start_x ==> after[x][y].west_wall == before[x][y].west_wall)
            &&& (x == r.end_x ==> after[x][y].east_wall == before[x][y].east_wall)
        }
}

/// Setting one wall changes walls only.
pub proof fn lemma_wall_keeps_rest(grid: CellGrid, width: int, height: int, x: int, y: int, wall: bool)
    requires
        grid_wf(grid, width, height),
    ensures
        same_but_walls(grid, with_wall_north(grid, x, y, wall), width, height),
        same_but_walls(grid, with_wall_east(grid, x, y, wall), width, height),
        same_but_walls(grid, with_wall_south(grid, x, y, wall), width, height),
        same_but_walls(grid, with_wall_west(grid, x, y, wall), width, height),
{
}

/// The walls of the outer boundary change walls only.
pub proof fn lemma_edges_keep_rest(grid: CellGrid, width: int, height: int)
    requires
        grid_wf(grid, width, height),
    ensures
        same_but_walls(grid, with_edges(grid, width, height), width, height),
{
}

/// The corridor walls of a cell change walls only.
pub proof fn lemma_corridor_keeps_rest(
    grid: CellGrid,
    width: int,
    height: int,
    x: int,
    y: int,
    entered: PathDirection,
)
    requires
        grid_wf(grid, width, height),
    ensures
        same_but_walls(grid, with_corridor_walls(grid, x, y, entered), width, height),
{
    lemma_wall_keeps_rest(grid, width, height, x, y, true);
    lemma_wall_keeps_rest(with_wall_west(grid, x, y, true), width, height, x, y, true);
    lemma_wall_keeps_rest(with_wall_north(grid, x, y, true), width, height, x, y, true);
}

/// Enclosing the path changes walls only.
pub proof fn lemma_enclosure_keeps_rest(
    grid: CellGrid,
    width: int,
    height: int,
    x: int,
    y: int,
    entered: PathDirection,
    fuel: nat,
)
    requires
        grid_wf(grid, width, height),
    ensures
        same_but_walls(grid, with_enclosed_walk(grid, width, height, x, y, entered, fuel), width, height),
    decreases fuel,
{
    if fuel == 0 || (x == width - 1 && y == 0) || !in_grid(width, height, x, y) {
    } else {
        let leaving = grid[x][y].path_direction;
        let walled = with_corridor_walls(grid, x, y, entered);
        lemma_corridor_keeps_rest(grid, width, height, x, y, entered);
        let next = step_from(x, y, leaving);
        if leaving == PathDirection::Unset || !in_grid(width, height, next.0, next.1) {
        } else {
            lemma_enclosure_keeps_rest(walled, width, height, next.0, next.1, leaving, (fuel - 1) as nat);
        }
    }
}

/// Marking the cells of a rectangle keeps the path.
pub proof fn lemma_marking_keeps_path(grid: CellGrid, width: int, height: int, rectangle: MazeSubdivision)
    requires
        grid_wf(grid, width, height),
    ensures
        same_path(grid, with_rectangle_marked(grid, rectangle), width, height),
        same_tiling(grid, with_rectangle_connected(grid, rectangle), width, height),
{
}

/// Scanning a row for rectangles keeps the path.
pub proof fn lemma_scan_row_keeps_path(
    grid: CellGrid,
    rectangles: Seq<MazeSubdivision>,
    width: int,
    height: int,
    x: int,
    y: int,
)
    requires
        grid_wf(grid, width, height),
        0 <= x,
    ensures
        same_path(grid, scan_row(grid, rectangles, width, x, y).0, width, height),
    decreases width - x,
{
    if x >= width {
    } else if crate::maze::walls::cell_starts_rectangle(grid[x][y]) {
        let rectangle = rectangle_at(grid, width, x, y);
        lemma_marking_keeps_path(grid, width, height, rectangle);
        lemma_scan_row_keeps_path(
            with_rectangle_marked(grid, rectangle),
            rectangles.push(rectangle),
            width,
            height,
            x + 1,
            y,
        );
    } else {
        lemma_scan_row_keeps_path(grid, rectangles, width, height, x + 1, y);
    }
}

/// Scanning the grid for rectangles keeps the path.
pub proof fn lemma_scan_rows_keeps_path(
    grid: CellGrid,
    rectangles: Seq<MazeSubdivision>,
    width: int,
    height: int,
    rows: nat,
)
    requires
        grid_wf(grid, width, height),
    ensures
        same_path(grid, scan_rows(grid, rectangles, width, rows).0, width, height),
    decreases rows,
{
    if rows > 0 {
        lemma_scan_row_keeps_path(grid, rectangles, width, height, 0, rows - 1);
        let row = scan_row(grid, rectangles, width, 0, rows - 1);
        lemma_scan_rows_keeps_path(row.0, row.1, width, height, (rows - 1) as nat);
    }
}

/// The boundaries of rectangles change walls only.
pub proof fn lemma_boundaries_keep_rest(
    grid: CellGrid,
    width: int,
    height: int,
    rectangles: Seq<MazeSubdivision>,
    count: nat,
)
    requires
        grid_wf(grid, width, height),
    ensures
        same_but_walls(grid, with_boundaries(grid, rectangles, count), width, height),
    decreases count,
{
    if count > 0 {
        lemma_boundaries_keep_rest(grid, width, height, rectangles, (count - 1) as nat);
        let before = with_boundaries(grid, rectangles, (count - 1) as nat);
        assert(same_but_walls(before, with_boundary(before, rectangles[count - 1]), width, height));
    }
}

/// The opening of a rectangle keeps the path and the tiling.
pub proof fn lemma_opening_keeps_path(
    grid: CellGrid,
    width: int,
    height: int,
    rectangle: MazeSubdivision,
    gene: WallGene,
)
    requires
        grid_wf(grid, width, height),
    ensures
        same_tiling(grid, with_opening(grid, width, height, rectangle, gene), width, height),
{
    let r = rectangle;
    match opening_of(grid, width, height, r, gene) {
        Some((OpeningLocation::North, x)) => {
            lemma_wall_keeps_rest(grid, width, height, x, r.start_y as int, false);
            lemma_marking_keeps_path(with_wall_north(grid, x, r.start_y as int, false), width, height, r);
        },
        Some((OpeningLocation::South, x)) => {
            lemma_wall_keeps_rest(grid, width, height, x, r.end_y as int, false);
            lemma_marking_keeps_path(with_wall_south(grid, x, r.end_y as int, false), width, height, r);
        },
        Some((OpeningLocation::West, y)) => {
            lemma_wall_keeps_rest(grid, width, height, r.start_x as int, y, false);
            lemma_marking_keeps_path(with_wall_west(grid, r.start_x as int, y, false), width, height, r);
        },
        Some((OpeningLocation::East, y)) => {
            lemma_wall_keeps_rest(grid, width, height, r.end_x as int, y, false);
            lemma_marking_keeps_path(with_wall_east(grid, r.end_x as int, y, false), width, height, r);
        },
        None => {},
    }
}

/// A bisection changes nothing outside its rectangle and nothing on the
/// boundary of the rectangle: only walls between two of its cells.
pub proof fn lemma_bisection_stays_inside(
    grid: CellGrid,
    width: int,
    height: int,
    rectangle: MazeSubdivision,
    gene_index: int,
    genes: Seq<WallGene>,
)
    requires
        grid_wf(grid, width, height),
    ensures
        same_outside(grid, with_bisection(grid, rectangle, gene_index, genes), width, height, rectangle),
    decreases rectangle.width + rectangle.height,
{
    let r = rectangle;
    if r.width <= 1 || r.height <= 1 || !rectangle_is_sound(r) {
    } else {
        let gene = genes[gene_index];
        let next = (gene_index + 1) % (genes.len() as int);
        lemma_split(r, gene);
        match gene.orientation {
            Orientation::Horizontal => {
                let row = dividing_row(r, gene);
                let divided = with_horizontal_divide(grid, r, row, gap_column(r, gene));
                assert(same_outside(grid, divided, width, height, r));
                lemma_bisection_stays_inside(divided, width, height, upper_part(r, row), next, genes);
                let upper = with_bisection(divided, upper_part(r, row), next, genes);
                lemma_bisection_stays_inside(upper, width, height, lower_part(r, row), next, genes);
                let lower = with_bisection(upper, lower_part(r, row), next, genes);
                assert(same_outside(divided, upper, width, height, r));
                assert(same_outside(upper, lower, width, height, r));
            },
            Orientation::Vertical => {
                let column = dividing_column(r, gene);
                let divided = with_vertical_divide(grid, r, column, gap_row(r, gene));
                assert(same_outside(grid, divided, width, height, r));
                lemma_bisection_stays_inside(divided, width, height, western_part(r, column), next, genes);
                let western = with_bisection(divided, western_part(r, column), next, genes);
                lemma_bisection_stays_inside(western, width, height, eastern_part(r, column), next, genes);
                let eastern = with_bisection(western, eastern_part(r, column), next, genes);
                assert(same_outside(divided, western, width, height, r));
                assert(same_outside(western, eastern, width, height, r));
            },
        }
    }
}

/// Opening and bisecting rectangles keeps the path and the tiling.
pub proof fn lemma_rooms_keep_path(
    grid: CellGrid,
    width: int,
    height: int,
    rectangles: Seq<MazeSubdivision>,
    genes: Seq<WallGene>,
    count: nat,
)
    requires
        grid_wf(grid, width, height),
    ensures
        same_tiling(grid, with_rooms(grid, width, height, rectangles, genes, count), width, height),
    decreases count,
{
    if count > 0 {
        let k = count - 1;
        let gene_index = k % (genes.len() as int);
        lemma_rooms_keep_path(grid, width, height, rectangles, genes, k as nat);
        let before = with_rooms(grid, width, height, rectangles, genes, k as nat);
        lemma_opening_keeps_path(before, width, height, rectangles[k], genes[gene_index]);
        let opened = with_opening(before, width, height, rectangles[k], genes[gene_index]);
        lemma_bisection_stays_inside(opened, width, height, rectangles[k], gene_index, genes);
    }
}

/// Building the walls keeps the carved path: every cell keeps its
/// direction and its waypoint and juncture marks.
pub proof fn lemma_walls_keep_path(grid: CellGrid, width: int, height: int, genes: Seq<WallGene>)
    requires
        grid_wf(grid, width, height),
    ensures
        same_path(grid, with_walls(grid, width, height, genes), width, height),
{
    lemma_edges_keep_rest(grid, width, height);
    let edged = with_edges(grid, width, height);
    lemma_enclosure_keeps_rest(
        edged,
        width,
        height,
        0,
        height - 1,
        edged[0][height - 1].path_direction,
        (width * height) as nat,
    );
    let enclosed = with_enclosed_path(edged, width, height);
    lemma_scan_rows_keeps_path(enclosed, Seq::empty(), width, height, height as nat);
    let tiled = partition(enclosed, width, height);
    lemma_boundaries_keep_rest(tiled.0, width, height, tiled.1, tiled.1.len());
    let bounded = with_boundaries(tiled.0, tiled.1, tiled.1.len());
    lemma_rooms_keep_path(bounded, width, height, tiled.1, genes, tiled.1.len());
}

} // verus!
