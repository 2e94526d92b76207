//! Neighbours agree about the wall between them: every wall of a
//! compiled maze stands on both of the cells that it parts.

use crate::maze::{OpeningLocation, Orientation, PathDirection};
use crate::maze::frame::{lemma_edges_keep_rest, lemma_enclosure_keeps_rest};
use crate::maze::grid::{
    blank_grid, grid_wf, in_grid, with_wall_east, with_wall_north, with_wall_south, with_wall_west,
    CellGrid,
};
use crate::maze::maze_genotype::{PathGene, WallGene};
use crate::maze::maze_phenotype::compiled_grid;
use crate::maze::passages::{lemma_opening_is_a_passage, opening_cells};
use crate::maze::path::{between, genes_in_grid, with_path};
use crate::maze::route::{is_bare, lemma_carved_is_bare};
use crate::maze::tiling::{
    enclosed_grid, lemma_carved_is_ready, lemma_partition_tiles, ready_for_tiling,
};
use crate::maze::walls::{
    cell_starts_rectangle, dividing_column, dividing_row, eastern_part, gap_column, gap_row,
    lemma_split, lower_part, opening_of, partition, rectangle_at, rectangle_is_sound, scan_row,
    scan_rows, step_from, upper_part, western_part, with_bisection, with_boundaries, with_boundary,
    with_corridor_walls, with_edges, with_enclosed_walk, with_horizontal_divide, with_opening,
    with_rectangle_connected, with_rectangle_marked, with_rooms, with_vertical_divide,
    MazeSubdivision,
};
use vstd::prelude::*;

verus! {

/// Neighbours agree about the wall between them: the north wall of a
/// cell is the south wall of the cell above, and its east wall is the
/// west wall of the cell east of it.
pub open spec fn walls_agree(grid: CellGrid, width: int, height: int) -> bool {
    &&& grid_wf(grid, width, height)
    &&& forall|x: int, y: int, above: int|
        in_grid(width, height, x, y) && above == y + 1 && above < height ==> (#[trigger] grid[x][y]).north_wall == (
        #[trigger] grid[x][above]).south_wall
    &&& forall|x: int, y: int, beside: int|
        in_grid(width, height, x, y) && beside == x + 1 && beside < width ==> (#[trigger] grid[x][y]).east_wall == (
        #[trigger] grid[beside][y]).west_wall
}

/// `after` has the walls of `before`.
pub open spec fn same_walls(before: CellGrid, after: CellGrid, width: int, height: int) -> bool {
    &&& grid_wf(after, width, height)
    &&& forall|x: int, y: int|
        in_grid(width, height, x, y) ==> {
            &&& (#[trigger] after[x][y]).north_wall == before[x][y].north_wall
            &&& after[x][y].east_wall == before[x][y].east_wall
            &&& after[x][y].south_wall == before[x][y].south_wall
            &&& after[x][y].west_wall == before[x][y].west_wall
        }
}

/// `after` differs from `before`, in walls, only where a wall between
/// two neighbours has changed on both of them alike.
pub open spec fn walls_changed_alike(before: CellGrid, after: CellGrid, width: int, height: int) -> bool {
    &&& grid_wf(after, width, height)
    &&& forall|x: int, y: int, above: int|
        in_grid(width, height, x, y) && above == y + 1 && above < height ==> ((#[trigger] after[x][y]).north_wall
            == before[x][y].north_wall && (#[trigger] after[x][above]).south_wall == before[x][above].south_wall)
            || after[x][y].north_wall == after[x][above].south_wall
    &&& forall|x: int, y: int, beside: int|
        in_grid(width, height, x, y) && beside == x + 1 && beside < width ==> ((#[trigger] after[x][y]).east_wall
            == before[x][y].east_wall && (#[trigger] after[beside][y]).west_wall == before[beside][y].west_wall)
            || after[x][y].east_wall == after[beside][y].west_wall
}

/// Where the neighbours agreed before, and walls have changed on both
/// neighbours alike, they agree after.
pub proof fn lemma_agreement_follows(before: CellGrid, after: CellGrid, width: int, height: int)
    requires
        walls_agree(before, width, height),
        walls_changed_alike(before, after, width, height),
    ensures
        walls_agree(after, width, height),
{
    assert forall|x: int, y: int, above: int|
        in_grid(width, height, x, y) && above == y + 1 && above < height implies (#[trigger] after[x][y]).north_wall
            == (#[trigger] after[x][above]).south_wall by {
        assert(before[x][y].north_wall == before[x][above].south_wall);
    }
    assert forall|x: int, y: int, beside: int|
        in_grid(width, height, x, y) && beside == x + 1 && beside < width implies (#[trigger] after[x][y]).east_wall
            == (#[trigger] after[beside][y]).west_wall by {
        assert(before[x][y].east_wall == before[beside][y].west_wall);
    }
}

/// Setting a wall keeps the neighbours in agreement: the wall is set on
/// both of them.
pub proof fn lemma_wall_keeps_agreement(grid: CellGrid, width: int, height: int, x: int, y: int, wall: bool)
    requires
        walls_agree(grid, width, height),
        in_grid(width, height, x, y),
    ensures
        walls_agree(with_wall_north(grid, x, y, wall), width, height),
        walls_agree(with_wall_east(grid, x, y, wall), width, height),
        walls_agree(with_wall_south(grid, x, y, wall), width, height),
        walls_agree(with_wall_west(grid, x, y, wall), width, height),
{
    let north = with_wall_north(grid, x, y, wall);
    let east = with_wall_east(grid, x, y, wall);
    let south = with_wall_south(grid, x, y, wall);
    let west = with_wall_west(grid, x, y, wall);
    assert(grid_wf(north, width, height));
    assert(grid_wf(east, width, height));
    assert(grid_wf(south, width, height));
    assert(grid_wf(west, width, height));
    lemma_agreement_follows(grid, north, width, height);
    lemma_agreement_follows(grid, east, width, height);
    lemma_agreement_follows(grid, south, width, height);
    lemma_agreement_follows(grid, west, width, height);
}

/// Enclosing the path keeps the neighbours in agreement.
pub proof fn lemma_enclosure_keeps_agreement(
    grid: CellGrid,
    width: int,
    height: int,
    x: int,
    y: int,
    entered: PathDirection,
    fuel: nat,
)
    requires
        walls_agree(grid, width, height),
    ensures
        walls_agree(with_enclosed_walk(grid, width, height, x, y, entered, fuel), width, height),
    decreases fuel,
{
    if fuel == 0 || (x == width - 1 && y == 0) || !in_grid(width, height, x, y) {
    } else {
        let leaving = grid[x][y].path_direction;
        lemma_wall_keeps_agreement(grid, width, height, x, y, true);
        lemma_wall_keeps_agreement(with_wall_west(grid, x, y, true), width, height, x, y, true);
        lemma_wall_keeps_agreement(with_wall_north(grid, x, y, true), width, height, x, y, true);
        let walled = with_corridor_walls(grid, x, y, entered);
        assert(walls_agree(walled, width, height));
        let next = step_from(x, y, leaving);
        if leaving == PathDirection::Unset || !in_grid(width, height, next.0, next.1) {
        } else {
            lemma_enclosure_keeps_agreement(walled, width, height, next.0, next.1, leaving, (fuel - 1) as nat);
        }
    }
}

/// Scanning a row for rectangles changes no wall.
pub proof fn lemma_scan_row_keeps_walls(
    grid: CellGrid,
    rectangles: Seq<MazeSubdivision>,
    width: int,
    height: int,
    x: int,
    y: int,
)
    requires
        grid_wf(grid, width, height),
        0 <= x,
    ensures
        same_walls(grid, scan_row(grid, rectangles, width, x, y).0, width, height),
    decreases width - x,
{
    if x >= width {
    } else if cell_starts_rectangle(grid[x][y]) {
        let rectangle = rectangle_at(grid, width, x, y);
        assert(same_walls(grid, with_rectangle_marked(grid, rectangle), width, height));
        lemma_scan_row_keeps_walls(
            with_rectangle_marked(grid, rectangle),
            rectangles.push(rectangle),
            width,
            height,
            x + 1,
            y,
        );
    } else {
        lemma_scan_row_keeps_walls(grid, rectangles, width, height, x + 1, y);
    }
}

/// Scanning the grid for rectangles changes no wall.
pub proof fn lemma_scan_rows_keeps_walls(
    grid: CellGrid,
    rectangles: Seq<MazeSubdivision>,
    width: int,
    height: int,
    rows: nat,
)
    requires
        grid_wf(grid, width, height),
    ensures
        same_walls(grid, scan_rows(grid, rectangles, width, rows).0, width, height),
    decreases rows,
{
    if rows > 0 {
        lemma_scan_row_keeps_walls(grid, rectangles, width, height, 0, rows - 1);
        let row = scan_row(grid, rectangles, width, 0, rows - 1);
        lemma_scan_rows_keeps_walls(row.0, row.1, width, height, (rows - 1) as nat);
    }
}

/// The boundaries of rectangles keep the neighbours in agreement.
pub proof fn lemma_boundaries_keep_agreement(
    grid: CellGrid,
    width: int,
    height: int,
    rectangles: Seq<MazeSubdivision>,
    count: nat,
)
    requires
        walls_agree(grid, width, height),
    ensures
        walls_agree(with_boundaries(grid, rectangles, count), width, height),
    decreases count,
{
    if count > 0 {
        lemma_boundaries_keep_agreement(grid, width, height, rectangles, (count - 1) as nat);
        let before = with_boundaries(grid, rectangles, (count - 1) as nat);
        let after = with_boundary(before, rectangles[count - 1]);
        assert(grid_wf(after, width, height));
        lemma_agreement_follows(before, after, width, height);
    }
}

/// A bisection keeps the neighbours in agreement.
pub proof fn lemma_bisection_keeps_agreement(
    grid: CellGrid,
    width: int,
    height: int,
    rectangle: MazeSubdivision,
    gene_index: int,
    genes: Seq<WallGene>,
)
    requires
        walls_agree(grid, width, height),
    ensures
        walls_agree(with_bisection(grid, rectangle, gene_index, genes), width, height),
    decreases rectangle.width + rectangle.height,
{
    let r = rectangle;
    if r.width <= 1 || r.height <= 1 || !rectangle_is_sound(r) {
    } else {
        let gene = genes[gene_index];
        let next = (gene_index + 1) % (genes.len() as int);
        lemma_split(r, gene);
        match gene.orientation {
            Orientation::Horizontal => {
                let row = dividing_row(r, gene);
                let divided = with_horizontal_divide(grid, r, row, gap_column(r, gene));
                assert(grid_wf(divided, width, height));
                lemma_agreement_follows(grid, divided, width, height);
                lemma_bisection_keeps_agreement(divided, width, height, upper_part(r, row), next, genes);
                lemma_bisection_keeps_agreement(
                    with_bisection(divided, upper_part(r, row), next, genes),
                    width,
                    height,
                    lower_part(r, row),
                    next,
                    genes,
                );
            },
            Orientation::Vertical => {
                let column = dividing_column(r, gene);
                let divided = with_vertical_divide(grid, r, column, gap_row(r, gene));
                assert(grid_wf(divided, width, height));
                lemma_agreement_follows(grid, divided, width, height);
                lemma_bisection_keeps_agreement(divided, width, height, western_part(r, column), next, genes);
                lemma_bisection_keeps_agreement(
                    with_bisection(divided, western_part(r, column), next, genes),
                    width,
                    height,
                    eastern_part(r, column),
                    next,
                    genes,
                );
            },
        }
    }
}

/// Opening and bisecting rectangles keeps the neighbours in agreement.
pub proof fn lemma_rooms_keep_agreement(
    grid: CellGrid,
    width: int,
    height: int,
    rectangles: Seq<MazeSubdivision>,
    genes: Seq<WallGene>,
    count: nat,
)
    requires
        walls_agree(grid, width, height),
        forall|i: int| 0 <= i < rectangles.len() ==> (#[trigger] rectangles[i]).fits(width, height),
        count <= rectangles.len(),
    ensures
        walls_agree(with_rooms(grid, width, height, rectangles, genes, count), width, height),
    decreases count,
{
    if count > 0 {
        let k = count - 1;
        let r = rectangles[k];
        let gene_index = k % (genes.len() as int);
        let gene = genes[gene_index];
        lemma_rooms_keep_agreement(grid, width, height, rectangles, genes, k as nat);
        let before = with_rooms(grid, width, height, rectangles, genes, k as nat);
        let opened = with_opening(before, width, height, r, gene);
        match opening_of(before, width, height, r, gene) {
            Some((side, place)) => {
                lemma_opening_is_a_passage(before, width, height, r, gene);
                let own = opening_cells(r, side, place).0;
                lemma_wall_keeps_agreement(before, width, height, own.0, own.1, false);
                let cleared = match side {
                    OpeningLocation::North => with_wall_north(before, place, r.start_y as int, false),
                    OpeningLocation::South => with_wall_south(before, place, r.end_y as int, false),
                    OpeningLocation::West => with_wall_west(before, r.start_x as int, place, false),
                    OpeningLocation::East => with_wall_east(before, r.end_x as int, place, false),
                };
                assert(opened == with_rectangle_connected(cleared, r));
                assert(same_walls(cleared, opened, width, height));
                lemma_agreement_follows(cleared, opened, width, height);
            },
            None => {},
        }
        assert(walls_agree(opened, width, height));
        lemma_bisection_keeps_agreement(opened, width, height, r, gene_index, genes);
    }
}

/// In every compiled maze, neighbours agree about the wall between
/// them.
pub proof fn lemma_compiled_walls_agree(
    width: int,
    height: int,
    first_direction: Orientation,
    path_genes: Seq<PathGene>,
    wall_genes: Seq<WallGene>,
)
    requires
        1 <= width <= u32::MAX,
        1 <= height <= u32::MAX,
        genes_in_grid(width, height, path_genes),
    ensures
        walls_agree(compiled_grid(width, height, first_direction, path_genes, wall_genes), width, height),
{
    let blank = blank_grid(width, height);
    assert(is_bare(blank, width, height));
    lemma_carved_is_bare(blank, width, height, first_direction, path_genes, path_genes.len() + 1);
    lemma_carved_is_ready(blank, width, height, first_direction, path_genes, path_genes.len() + 1);
    let carved = with_path(blank, first_direction, width, height, path_genes);
    assert(walls_agree(carved, width, height));
    let edged = with_edges(carved, width, height);
    assert(grid_wf(edged, width, height));
    lemma_agreement_follows(carved, edged, width, height);
    lemma_enclosure_keeps_agreement(
        edged,
        width,
        height,
        0,
        height - 1,
        edged[0][height - 1].path_direction,
        (width * height) as nat,
    );
    lemma_edges_keep_rest(carved, width, height);
    lemma_enclosure_keeps_rest(
        edged,
        width,
        height,
        0,
        height - 1,
        edged[0][height - 1].path_direction,
        (width * height) as nat,
    );
    let enclosed = enclosed_grid(width, height, first_direction, path_genes);
    assert(ready_for_tiling(enclosed, width, height));
    lemma_partition_tiles(enclosed, width, height);
    lemma_scan_rows_keeps_walls(enclosed, Seq::empty(), width, height, height as nat);
    let tiled = partition(enclosed, width, height);
    lemma_agreement_follows(enclosed, tiled.0, width, height);
    lemma_boundaries_keep_agreement(tiled.0, width, height, tiled.1, tiled.1.len());
    let bounded = with_boundaries(tiled.0, tiled.1, tiled.1.len());
    lemma_rooms_keep_agreement(bounded, width, height, tiled.1, wall_genes, tiled.1.len());
}

} // verus!
