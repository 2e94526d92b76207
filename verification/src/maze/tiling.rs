//! The free rectangles tile the free space: every cell that the path
//! does not visit lies in exactly one of them, and no cell of the path
//! lies in any.

use crate::maze::frame::{
    lemma_boundaries_keep_rest, lemma_edges_keep_rest, lemma_enclosure_keeps_rest,
    lemma_marking_keeps_path, lemma_rooms_keep_path, same_path,
};
use crate::maze::grid::{blank_grid, grid_wf, in_grid, CellGrid};
use crate::maze::maze_genotype::{PathGene, WallGene};
use crate::maze::maze_phenotype::compiled_grid;
use crate::maze::path::{genes_in_grid, lemma_route_in_grid, route_point, with_legs, with_path};
use crate::maze::walls::{
    cell_blocks, cell_is_free, cell_starts_rectangle, drop_end, partition, rectangle_at, row_blocked,
    run_end, scan_row, scan_rows, with_boundaries, with_edges, with_enclosed_path,
    with_rectangle_marked, MazeSubdivision,
};
use crate::maze::{Orientation, PathDirection};
use vstd::prelude::*;

verus! {

/// One of `rectangles` holds the cell `(x, y)`.
pub open spec fn covered(rectangles: Seq<MazeSubdivision>, x: int, y: int) -> bool {
    exists|i: int| 0 <= i < rectangles.len() && (#[trigger] rectangles[i]).contains(x, y)
}

/// One of the first `count` of `rectangles` holds the cell `(x, y)`.
pub open spec fn covered_before(rectangles: Seq<MazeSubdivision>, count: int, x: int, y: int) -> bool {
    exists|i: int| 0 <= i < count && i < rectangles.len() && (#[trigger] rectangles[i]).contains(x, y)
}

/// The scan passes the cell `(x, y)` before it comes to the start of
/// `rectangle`: the cell lies in a row above, or further west in the
/// same row.
pub open spec fn scanned_before(rectangle: MazeSubdivision, x: int, y: int) -> bool {
    y > rectangle.start_y || (y == rectangle.start_y && x < rectangle.start_x)
}

/// Every rectangle starts at the first free cell that the rectangles
/// before it have left: the free cells that the scan passes before its
/// start lie in earlier rectangles.
pub open spec fn are_in_scan_order(grid: CellGrid, rectangles: Seq<MazeSubdivision>, width: int, height: int) -> bool {
    forall|i: int, x: int, y: int|
        0 <= i < rectangles.len() && in_grid(width, height, x, y) && #[trigger] scanned_before(rectangles[i], x, y)
            && grid[x][y].path_direction == PathDirection::Unset ==> covered_before(rectangles, i, x, y)
}

/// No two of `rectangles` share a cell.
pub open spec fn are_disjoint(rectangles: Seq<MazeSubdivision>) -> bool {
    forall|i: int, j: int, x: int, y: int|
        0 <= i < j < rectangles.len() ==> !(#[trigger] rectangles[i].contains(x, y) && #[trigger] rectangles[j].contains(
            x,
            y,
        ))
}

/// A grid on which the free space can be tiled: no cell lies in a
/// rectangle yet, and the path runs through every waypoint.
pub open spec fn ready_for_tiling(grid: CellGrid, width: int, height: int) -> bool {
    &&& grid_wf(grid, width, height)
    &&& forall|x: int, y: int|
        in_grid(width, height, x, y) ==> !(#[trigger] grid[x][y]).in_subdivision && (grid[x][y].is_waypoint
            ==> grid[x][y].path_direction != PathDirection::Unset)
}

/// What holds while the grid is scanned for rectangles, when the scan
/// stands at column `x_now` of row `y_now`: the rectangles found hold
/// free cells only and share none, a cell is marked if and only if a
/// rectangle holds it, and every free cell that the scan has passed is
/// marked.
pub open spec fn tiled_so_far(
    start: CellGrid,
    grid: CellGrid,
    rectangles: Seq<MazeSubdivision>,
    width: int,
    height: int,
    y_now: int,
    x_now: int,
) -> bool {
    &&& same_path(start, grid, width, height)
    &&& forall|x: int, y: int|
        in_grid(width, height, x, y) ==> ((#[trigger] grid[x][y]).in_subdivision <==> covered(rectangles, x, y))
    &&& forall|i: int|
        0 <= i < rectangles.len() ==> (#[trigger] rectangles[i]).fits(width, height) && rectangles[i].start_y
            >= y_now
    &&& forall|i: int, x: int, y: int|
        0 <= i < rectangles.len() && #[trigger] rectangles[i].contains(x, y) ==> start[x][y].path_direction
            == PathDirection::Unset
    &&& are_disjoint(rectangles)
    &&& are_in_scan_order(start, rectangles, width, height)
    &&& forall|x: int, y: int|
        in_grid(width, height, x, y) && (y > y_now || (y == y_now && x < x_now)) && (
        #[trigger] start[x][y]).path_direction == PathDirection::Unset ==> grid[x][y].in_subdivision
}

/// The run of free cells from `(x, y)` eastwards ends in the grid, and
/// every cell of it behind the first is free.
pub proof fn lemma_run_end(grid: CellGrid, width: int, x: int, y: int)
    requires
        0 <= x < width,
    ensures
        x <= run_end(grid, width, x, y) < width,
        forall|i: int| x < i <= run_end(grid, width, x, y) ==> cell_is_free(#[trigger] grid[i][y]),
    decreases width - x,
{
    if x + 1 < width && cell_is_free(grid[x + 1][y]) {
        lemma_run_end(grid, width, x + 1, y);
    }
}

/// A rectangle grows southwards over rows without a path cell only.
pub proof fn lemma_drop_end(grid: CellGrid, start_x: int, end_x: int, y: int)
    requires
        0 <= y,
    ensures
        0 <= drop_end(grid, start_x, end_x, y) <= y,
        forall|j: int| drop_end(grid, start_x, end_x, y) <= j < y ==> !#[trigger] row_blocked(grid, start_x, end_x, j),
    decreases y,
{
    if y > 0 && !row_blocked(grid, start_x, end_x, y - 1) {
        lemma_drop_end(grid, start_x, end_x, y - 1);
    }
}

/// The rectangle that starts at a free cell keeps what holds of the
/// scan: it holds free cells only, and none that an earlier rectangle
/// holds.
pub proof fn lemma_new_rectangle(
    start: CellGrid,
    grid: CellGrid,
    rectangles: Seq<MazeSubdivision>,
    width: int,
    height: int,
    x: int,
    y: int,
)
    requires
        in_grid(width, height, x, y),
        width <= u32::MAX,
        height <= u32::MAX,
        tiled_so_far(start, grid, rectangles, width, height, y, x),
        cell_starts_rectangle(grid[x][y]),
    ensures
        tiled_so_far(
            start,
            with_rectangle_marked(grid, rectangle_at(grid, width, x, y)),
            rectangles.push(rectangle_at(grid, width, x, y)),
            width,
            height,
            y,
            x + 1,
        ),
{
    let r = rectangle_at(grid, width, x, y);
    let end_x = run_end(grid, width, x, y);
    let end_y = drop_end(grid, x, end_x, y);
    lemma_run_end(grid, width, x, y);
    lemma_drop_end(grid, x, end_x, y);
    lemma_marking_keeps_path(grid, width, height, r);
    let marked = with_rectangle_marked(grid, r);
    let more = rectangles.push(r);
    assert(r.fits(width, height));
    assert(more[rectangles.len() as int] == r);
    assert forall|i: int, j: int| r.contains(i, j) implies !(#[trigger] grid[i][j]).in_subdivision
        && grid[i][j].path_direction == PathDirection::Unset by {
        if j == y {
            if i > x {
                assert(cell_is_free(grid[i][y]));
            }
        } else {
            assert(!row_blocked(grid, x, end_x, j));
            assert(!cell_blocks(grid[i][j]));
            if grid[i][j].in_subdivision {
                let k = choose|k: int| 0 <= k < rectangles.len() && (#[trigger] rectangles[k]).contains(i, j);
                assert(rectangles[k].contains(i, y));
                assert(covered(rectangles, i, y));
                assert(grid[i][y].in_subdivision);
                if i > x {
                    assert(cell_is_free(grid[i][y]));
                }
            }
        }
    }
    assert forall|i: int, j: int| in_grid(width, height, i, j) implies ((#[trigger] marked[i][j]).in_subdivision
        <==> covered(more, i, j)) by {
        if r.contains(i, j) {
            assert(more[rectangles.len() as int].contains(i, j));
        } else {
            if covered(rectangles, i, j) {
                let k = choose|k: int| 0 <= k < rectangles.len() && (#[trigger] rectangles[k]).contains(i, j);
                assert(more[k].contains(i, j));
            }
            if covered(more, i, j) {
                let k = choose|k: int| 0 <= k < more.len() && (#[trigger] more[k]).contains(i, j);
                assert(rectangles[k].contains(i, j));
            }
        }
    }
    assert forall|k: int| 0 <= k < more.len() implies (#[trigger] more[k]).fits(width, height) && more[k].start_y
        >= y by {
        if k < rectangles.len() {
            assert(more[k] == rectangles[k]);
        }
    }
    assert forall|k: int, i: int, j: int| 0 <= k < more.len() && #[trigger] more[k].contains(i, j) implies start[i][j].path_direction
        == PathDirection::Unset by {
        if k < rectangles.len() {
            assert(rectangles[k].contains(i, j));
        } else {
            assert(grid[i][j].path_direction == PathDirection::Unset);
        }
    }
    assert forall|k: int, l: int, i: int, j: int| 0 <= k < l < more.len() implies !(#[trigger] more[k].contains(
        i,
        j,
    ) && #[trigger] more[l].contains(i, j)) by {
        if l < rectangles.len() {
            assert(more[k] == rectangles[k] && more[l] == rectangles[l]);
        } else if more[k].contains(i, j) && r.contains(i, j) {
            assert(rectangles[k].contains(i, j));
            assert(covered(rectangles, i, j));
            assert(grid[i][j].in_subdivision);
        }
    }
    assert forall|i: int, j: int|
        in_grid(width, height, i, j) && (j > y || (j == y && i < x + 1)) && (#[trigger] start[i][j]).path_direction
            == PathDirection::Unset implies marked[i][j].in_subdivision by {
        if i == x && j == y {
            assert(r.contains(i, j));
        }
    }
    assert forall|k: int, i: int, j: int|
        0 <= k < more.len() && in_grid(width, height, i, j) && #[trigger] scanned_before(more[k], i, j)
            && start[i][j].path_direction == PathDirection::Unset implies covered_before(more, k, i, j) by {
        if k < rectangles.len() {
            assert(more[k] == rectangles[k]);
            assert(scanned_before(rectangles[k], i, j));
            let earlier = choose|e: int| 0 <= e < k && e < rectangles.len() && (#[trigger] rectangles[e]).contains(i, j);
            assert(more[earlier].contains(i, j));
        } else {
            assert(grid[i][j].in_subdivision);
            let earlier = choose|e: int| 0 <= e < rectangles.len() && (#[trigger] rectangles[e]).contains(i, j);
            assert(more[earlier].contains(i, j));
        }
    }
}

/// Scanning a row keeps what holds of the scan.
pub proof fn lemma_scan_row_tiles(
    start: CellGrid,
    grid: CellGrid,
    rectangles: Seq<MazeSubdivision>,
    width: int,
    height: int,
    x: int,
    y: int,
)
    requires
        0 <= x <= width <= u32::MAX,
        0 <= y < height <= u32::MAX,
        ready_for_tiling(start, width, height),
        tiled_so_far(start, grid, rectangles, width, height, y, x),
    ensures
        tiled_so_far(
            start,
            scan_row(grid, rectangles, width, x, y).0,
            scan_row(grid, rectangles, width, x, y).1,
            width,
            height,
            y,
            width,
        ),
    decreases width - x,
{
    if x >= width {
    } else if cell_starts_rectangle(grid[x][y]) {
        let rectangle = rectangle_at(grid, width, x, y);
        lemma_new_rectangle(start, grid, rectangles, width, height, x, y);
        lemma_scan_row_tiles(
            start,
            with_rectangle_marked(grid, rectangle),
            rectangles.push(rectangle),
            width,
            height,
            x + 1,
            y,
        );
    } else {
        lemma_scan_row_tiles(start, grid, rectangles, width, height, x + 1, y);
    }
}

/// Scanning the rows keeps what holds of the scan; in the end every free
/// cell is marked.
pub proof fn lemma_scan_rows_tiles(
    start: CellGrid,
    grid: CellGrid,
    rectangles: Seq<MazeSubdivision>,
    width: int,
    height: int,
    rows: nat,
)
    requires
        0 <= width <= u32::MAX,
        rows <= height <= u32::MAX,
        ready_for_tiling(start, width, height),
        tiled_so_far(start, grid, rectangles, width, height, rows - 1, 0),
    ensures
        tiled_so_far(
            start,
            scan_rows(grid, rectangles, width, rows).0,
            scan_rows(grid, rectangles, width, rows).1,
            width,
            height,
            -1,
            0,
        ),
    decreases rows,
{
    if rows > 0 {
        lemma_scan_row_tiles(start, grid, rectangles, width, height, 0, rows - 1);
        let row = scan_row(grid, rectangles, width, 0, rows - 1);
        assert(tiled_so_far(start, row.0, row.1, width, height, rows - 2, 0));
        lemma_scan_rows_tiles(start, row.0, row.1, width, height, (rows - 1) as nat);
    }
}

/// The rectangles of a partition tile the free space: they lie in the
/// grid and share no cell, a cell that the path visits lies in none of
/// them, and every other cell lies in one, and so in exactly one. The
/// cells that are marked as lying in a rectangle are the cells off the
/// path.
pub proof fn lemma_partition_tiles(grid: CellGrid, width: int, height: int)
    requires
        0 <= width <= u32::MAX,
        0 <= height <= u32::MAX,
        ready_for_tiling(grid, width, height),
    ensures
        same_path(grid, partition(grid, width, height).0, width, height),
        are_disjoint(partition(grid, width, height).1),
        are_in_scan_order(grid, partition(grid, width, height).1, width, height),
        forall|i: int, x: int, y: int|
            0 <= i < partition(grid, width, height).1.len() && #[trigger] partition(grid, width, height).1[i].contains(
                x,
                y,
            ) ==> grid[x][y].path_direction == PathDirection::Unset,
        forall|i: int|
            0 <= i < partition(grid, width, height).1.len() ==> (#[trigger] partition(grid, width, height).1[i]).fits(
                width,
                height,
            ),
        forall|x: int, y: int|
            in_grid(width, height, x, y) ==> (covered(partition(grid, width, height).1, x, y) <==> (
            #[trigger] grid[x][y]).path_direction == PathDirection::Unset),
        forall|x: int, y: int|
            in_grid(width, height, x, y) ==> ((#[trigger] partition(grid, width, height).0[x][y]).in_subdivision
                <==> grid[x][y].path_direction == PathDirection::Unset),
{
    let none = Seq::<MazeSubdivision>::empty();
    assert(tiled_so_far(grid, grid, none, width, height, height - 1, 0));
    lemma_scan_rows_tiles(grid, grid, none, width, height, height as nat);
    let tiled = partition(grid, width, height);
    assert forall|x: int, y: int| in_grid(width, height, x, y) implies (covered(tiled.1, x, y) <==> (
    #[trigger] grid[x][y]).path_direction == PathDirection::Unset) by {
        if covered(tiled.1, x, y) {
            let i = choose|i: int| 0 <= i < tiled.1.len() && (#[trigger] tiled.1[i]).contains(x, y);
        }
        assert(tiled.0[x][y].in_subdivision <==> covered(tiled.1, x, y));
    }
    assert forall|x: int, y: int| in_grid(width, height, x, y) implies ((#[trigger] tiled.0[x][y]).in_subdivision
        <==> grid[x][y].path_direction == PathDirection::Unset) by {
        assert(covered(tiled.1, x, y) <==> grid[x][y].path_direction == PathDirection::Unset);
    }
}

/// A carved grid is ready for tiling: carving marks no cell as lying in
/// a rectangle, and it writes a direction into every waypoint.
pub proof fn lemma_carved_is_ready(
    grid: CellGrid,
    width: int,
    height: int,
    first: Orientation,
    genes: Seq<PathGene>,
    count: nat,
)
    requires
        ready_for_tiling(grid, width, height),
        width >= 1,
        height >= 1,
        genes_in_grid(width, height, genes),
    ensures
        ready_for_tiling(with_legs(grid, first, width, height, genes, count), width, height),
    decreases count,
{
    if count > 0 {
        lemma_carved_is_ready(grid, width, height, first, genes, (count - 1) as nat);
        let before = with_legs(grid, first, width, height, genes, (count - 1) as nat);
        let a = route_point(width, height, genes, count - 1);
        let b = route_point(width, height, genes, count as int);
        lemma_route_in_grid(width, height, first, genes, count - 1);
        lemma_route_in_grid(width, height, first, genes, count as int);
        crate::maze::path::lemma_with_leg(before, width, height, first, a, b);
    }
}

/// The grid on which the free space of a maze is tiled when the maze is
/// compiled: the carved path with the outer boundary and its enclosure.
pub open spec fn enclosed_grid(
    width: int,
    height: int,
    first_direction: Orientation,
    path_genes: Seq<PathGene>,
) -> CellGrid {
    with_enclosed_path(
        with_edges(
            with_path(blank_grid(width, height), first_direction, width, height, path_genes),
            width,
            height,
        ),
        width,
        height,
    )
}

/// In every compiled maze the free rectangles tile the free space: they
/// share no cell, every cell off the path lies in exactly one of them,
/// and no cell of the path lies in any. In the compiled grid, a cell is
/// marked as lying in a rectangle if and only if the path does not visit
/// it.
pub proof fn lemma_compiled_tiling(
    width: int,
    height: int,
    first_direction: Orientation,
    path_genes: Seq<PathGene>,
    wall_genes: Seq<WallGene>,
)
    requires
        1 <= width <= u32::MAX,
        1 <= height <= u32::MAX,
        genes_in_grid(width, height, path_genes),
    ensures
        are_disjoint(partition(enclosed_grid(width, height, first_direction, path_genes), width, height).1),
        forall|x: int, y: int|
            in_grid(width, height, x, y) ==> (covered(
                partition(enclosed_grid(width, height, first_direction, path_genes), width, height).1,
                x,
                y,
            ) <==> (#[trigger] compiled_grid(width, height, first_direction, path_genes, wall_genes)[x][y]).path_direction
                == PathDirection::Unset),
        forall|x: int, y: int|
            in_grid(width, height, x, y) ==> ((#[trigger] compiled_grid(
                width,
                height,
                first_direction,
                path_genes,
                wall_genes,
            )[x][y]).in_subdivision <==> compiled_grid(
                width,
                height,
                first_direction,
                path_genes,
                wall_genes,
            )[x][y].path_direction == PathDirection::Unset),
{
    let blank = blank_grid(width, height);
    assert(ready_for_tiling(blank, width, height));
    lemma_carved_is_ready(blank, width, height, first_direction, path_genes, path_genes.len() + 1);
    let carved = with_path(blank, first_direction, width, height, path_genes);
    lemma_edges_keep_rest(carved, width, height);
    let edged = with_edges(carved, width, height);
    lemma_enclosure_keeps_rest(
        edged,
        width,
        height,
        0,
        height - 1,
        edged[0][height - 1].path_direction,
        (width * height) as nat,
    );
    let enclosed = enclosed_grid(width, height, first_direction, path_genes);
    assert(ready_for_tiling(enclosed, width, height));
    lemma_partition_tiles(enclosed, width, height);
    let tiled = partition(enclosed, width, height);
    lemma_boundaries_keep_rest(tiled.0, width, height, tiled.1, tiled.1.len());
    let bounded = with_boundaries(tiled.0, tiled.1, tiled.1.len());
    lemma_rooms_keep_path(bounded, width, height, tiled.1, wall_genes, tiled.1.len());
    let compiled = compiled_grid(width, height, first_direction, path_genes, wall_genes);
    assert forall|x: int, y: int| in_grid(width, height, x, y) implies (#[trigger] compiled[x][y]).path_direction
        == enclosed[x][y].path_direction && compiled[x][y].in_subdivision == tiled.0[x][y].in_subdivision by {
        assert(bounded[x][y].path_direction == tiled.0[x][y].path_direction);
        assert(tiled.0[x][y].path_direction == enclosed[x][y].path_direction);
    }
}

} // verus!
