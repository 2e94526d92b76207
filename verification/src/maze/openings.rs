//! Every free rectangle of a compiled maze gets an opening: when its turn
//! comes, the cell west of its start or the cells north of its top row
//! lie on the path or in a rectangle that is already open.

use crate::fraction::{lemma_quotient_below, FRACTION_DENOMINATOR};
use crate::maze::frame::{
    lemma_bisection_stays_inside, lemma_boundaries_keep_rest, lemma_edges_keep_rest,
    lemma_enclosure_keeps_rest, lemma_wall_keeps_rest, same_path,
};
use crate::maze::grid::{
    blank_grid, cell_is_open, grid_wf, in_grid, with_wall_east, with_wall_north, with_wall_south,
    with_wall_west, CellGrid,
};
use crate::maze::maze_genotype::{PathGene, WallGene};
use crate::maze::maze_phenotype::compiled_grid;
use crate::maze::path::{
    genes_in_grid, lemma_route_in_grid, lemma_with_leg, route_point, with_legs, with_path,
};
use crate::maze::tiling::{
    are_in_scan_order, covered_before, enclosed_grid, lemma_carved_is_ready, lemma_partition_tiles,
    ready_for_tiling, scanned_before,
};
use crate::maze::walls::{
    first_open_in_column, first_open_in_row, open_beyond, open_in_column, open_in_row, opening_of,
    opening_side, partition, with_bisection, with_boundaries, with_opening, with_rectangle_connected,
    with_rooms, MazeSubdivision,
};
use crate::maze::{OpeningLocation, Orientation, PathDirection};
use vstd::prelude::*;

verus! {

/// An open cell in a row is counted.
pub proof fn lemma_open_in_row_counts(grid: CellGrid, y: int, start_x: int, end_x: int, x: int)
    requires
        start_x <= x <= end_x,
        cell_is_open(grid[x][y]),
    ensures
        open_in_row(grid, y, start_x, end_x) > 0,
    decreases end_x - start_x,
{
    if x < end_x {
        lemma_open_in_row_counts(grid, y, start_x, end_x - 1, x);
    }
}

/// An open cell in a column is counted.
pub proof fn lemma_open_in_column_counts(grid: CellGrid, x: int, end_y: int, start_y: int, y: int)
    requires
        end_y <= y <= start_y,
        cell_is_open(grid[x][y]),
    ensures
        open_in_column(grid, x, end_y, start_y) > 0,
    decreases start_y - end_y,
{
    if y < start_y {
        lemma_open_in_column_counts(grid, x, end_y, start_y - 1, y);
    }
}

/// Where open cells are counted in a row, there is one.
pub proof fn lemma_counted_in_row(grid: CellGrid, y: int, start_x: int, end_x: int) -> (x: int)
    requires
        open_in_row(grid, y, start_x, end_x) > 0,
    ensures
        start_x <= x <= end_x,
        cell_is_open(grid[x][y]),
    decreases end_x - start_x + 1,
{
    if cell_is_open(grid[end_x][y]) {
        end_x
    } else {
        lemma_counted_in_row(grid, y, start_x, end_x - 1)
    }
}

/// Where open cells are counted in a column, there is one.
pub proof fn lemma_counted_in_column(grid: CellGrid, x: int, end_y: int, start_y: int) -> (y: int)
    requires
        open_in_column(grid, x, end_y, start_y) > 0,
    ensures
        end_y <= y <= start_y,
        cell_is_open(grid[x][y]),
    decreases start_y - end_y + 1,
{
    if cell_is_open(grid[x][start_y]) {
        start_y
    } else {
        lemma_counted_in_column(grid, x, end_y, start_y - 1)
    }
}

/// The search along a side comes to every place: for each place `t`
/// there is a step at which the search, wrapping around, tries it.
pub proof fn lemma_wrapped_place(length: int, offset: int, t: int) -> (k: int)
    requires
        0 <= offset < length,
        0 <= t < length,
    ensures
        0 <= k < length,
        (offset + k) % length == t,
{
    if t >= offset {
        vstd::arithmetic::div_mod::lemma_small_mod(t as nat, length as nat);
        t - offset
    } else {
        vstd::arithmetic::div_mod::lemma_mod_add_multiples_vanish(t, length);
        vstd::arithmetic::div_mod::lemma_small_mod(t as nat, length as nat);
        t - offset + length
    }
}

/// The search along a row finds an open cell if one of the places that
/// it still tries is open.
pub proof fn lemma_search_row_finds(
    grid: CellGrid,
    y: int,
    start_x: int,
    length: int,
    offset: int,
    tried: int,
    k: int,
)
    requires
        0 <= tried <= k < length,
        cell_is_open(grid[start_x + (offset + k) % length][y]),
    ensures
        first_open_in_row(grid, y, start_x, length, offset, tried) is Some,
    decreases length - tried,
{
    if tried < k && !cell_is_open(grid[start_x + (offset + tried) % length][y]) {
        lemma_search_row_finds(grid, y, start_x, length, offset, tried + 1, k);
    }
}

/// The search along a column finds an open cell if one of the places
/// that it still tries is open.
pub proof fn lemma_search_column_finds(
    grid: CellGrid,
    x: int,
    end_y: int,
    length: int,
    offset: int,
    tried: int,
    k: int,
)
    requires
        0 <= tried <= k < length,
        cell_is_open(grid[x][end_y + (offset + k) % length]),
    ensures
        first_open_in_column(grid, x, end_y, length, offset, tried) is Some,
    decreases length - tried,
{
    if tried < k && !cell_is_open(grid[x][end_y + (offset + tried) % length]) {
        lemma_search_column_finds(grid, x, end_y, length, offset, tried + 1, k);
    }
}

/// A rectangle with an open cell across one of its sides gets an
/// opening.
pub proof fn lemma_opening_exists(
    grid: CellGrid,
    width: int,
    height: int,
    rectangle: MazeSubdivision,
    gene: WallGene,
    side: OpeningLocation,
)
    requires
        rectangle.fits(width, height),
        open_beyond(grid, width, height, rectangle, side) > 0,
    ensures
        opening_of(grid, width, height, rectangle, gene) is Some,
{
    let r = rectangle;
    let chosen = opening_side(
        open_beyond(grid, width, height, r, OpeningLocation::North),
        open_beyond(grid, width, height, r, OpeningLocation::East),
        open_beyond(grid, width, height, r, OpeningLocation::South),
        open_beyond(grid, width, height, r, OpeningLocation::West),
        gene.opening_location,
    );
    assert(chosen is Some);
    assert(open_beyond(grid, width, height, r, chosen->0) > 0);
    lemma_quotient_below(gene.passage_position.bits as int, r.width as int, FRACTION_DENOMINATOR as int);
    lemma_quotient_below(gene.passage_position.bits as int, r.height as int, FRACTION_DENOMINATOR as int);
    let across = gene.passage_position.scaled(r.width as int);
    let along = gene.passage_position.scaled(r.height as int);
    match chosen->0 {
        OpeningLocation::North => {
            let x = lemma_counted_in_row(grid, r.start_y + 1, r.start_x as int, r.end_x as int);
            let k = lemma_wrapped_place(r.width as int, across, x - r.start_x);
            lemma_search_row_finds(grid, r.start_y + 1, r.start_x as int, r.width as int, across, 0, k);
        },
        OpeningLocation::South => {
            let x = lemma_counted_in_row(grid, r.end_y - 1, r.start_x as int, r.end_x as int);
            let k = lemma_wrapped_place(r.width as int, across, x - r.start_x);
            lemma_search_row_finds(grid, r.end_y - 1, r.start_x as int, r.width as int, across, 0, k);
        },
        OpeningLocation::West => {
            let y = lemma_counted_in_column(grid, r.start_x - 1, r.end_y as int, r.start_y as int);
            let k = lemma_wrapped_place(r.height as int, along, y - r.end_y);
            lemma_search_column_finds(grid, r.start_x - 1, r.end_y as int, r.height as int, along, 0, k);
        },
        OpeningLocation::East => {
            let y = lemma_counted_in_column(grid, r.end_x + 1, r.end_y as int, r.start_y as int);
            let k = lemma_wrapped_place(r.height as int, along, y - r.end_y);
            lemma_search_column_finds(grid, r.end_x + 1, r.end_y as int, r.height as int, along, 0, k);
        },
    }
}

/// The first `count` of `rectangles` are open in `grid`: their cells are
/// marked as connected.
pub open spec fn are_open(grid: CellGrid, rectangles: Seq<MazeSubdivision>, count: int) -> bool {
    forall|i: int, x: int, y: int|
        0 <= i < count && i < rectangles.len() && #[trigger] rectangles[i].contains(x, y) ==> grid[x][y].is_connected
}

/// What the rectangles of a partition are like: they lie in the grid,
/// hold no cell of the path, and stand in the order of the scan; the
/// entrance is a cell of the path.
pub open spec fn is_partition_of(start: CellGrid, rectangles: Seq<MazeSubdivision>, width: int, height: int) -> bool {
    &&& width >= 1
    &&& height >= 1
    &&& grid_wf(start, width, height)
    &&& start[0][height - 1].path_direction != PathDirection::Unset
    &&& are_in_scan_order(start, rectangles, width, height)
    &&& forall|i: int| 0 <= i < rectangles.len() ==> (#[trigger] rectangles[i]).fits(width, height)
    &&& forall|i: int, x: int, y: int|
        0 <= i < rectangles.len() && #[trigger] rectangles[i].contains(x, y) ==> start[x][y].path_direction
            == PathDirection::Unset
}

/// The opening of a rectangle marks its cells as connected and leaves
/// the marks of all other cells as they are.
pub proof fn lemma_opening_connects(
    grid: CellGrid,
    width: int,
    height: int,
    rectangle: MazeSubdivision,
    gene: WallGene,
)
    requires
        grid_wf(grid, width, height),
        rectangle.fits(width, height),
        opening_of(grid, width, height, rectangle, gene) is Some,
    ensures
        same_path(grid, with_opening(grid, width, height, rectangle, gene), width, height),
        forall|x: int, y: int|
            in_grid(width, height, x, y) ==> (#[trigger] with_opening(grid, width, height, rectangle, gene)[x][y]).is_connected
                == (grid[x][y].is_connected || rectangle.contains(x, y)),
{
    let r = rectangle;
    match opening_of(grid, width, height, r, gene) {
        Some((OpeningLocation::North, x)) => {
            lemma_wall_keeps_rest(grid, width, height, x, r.start_y as int, false);
            let opened = with_wall_north(grid, x, r.start_y as int, false);
            assert(grid_wf(with_rectangle_connected(opened, r), width, height));
        },
        Some((OpeningLocation::South, x)) => {
            lemma_wall_keeps_rest(grid, width, height, x, r.end_y as int, false);
            let opened = with_wall_south(grid, x, r.end_y as int, false);
            assert(grid_wf(with_rectangle_connected(opened, r), width, height));
        },
        Some((OpeningLocation::West, y)) => {
            lemma_wall_keeps_rest(grid, width, height, r.start_x as int, y, false);
            let opened = with_wall_west(grid, r.start_x as int, y, false);
            assert(grid_wf(with_rectangle_connected(opened, r), width, height));
        },
        Some((OpeningLocation::East, y)) => {
            lemma_wall_keeps_rest(grid, width, height, r.end_x as int, y, false);
            let opened = with_wall_east(grid, r.end_x as int, y, false);
            assert(grid_wf(with_rectangle_connected(opened, r), width, height));
        },
        None => {},
    }
}

/// When the turn of a rectangle comes, it gets an opening, and after it
/// all rectangles up to it are open.
pub proof fn lemma_rooms_open(
    start: CellGrid,
    bounded: CellGrid,
    width: int,
    height: int,
    rectangles: Seq<MazeSubdivision>,
    genes: Seq<WallGene>,
    count: nat,
)
    requires
        is_partition_of(start, rectangles, width, height),
        same_path(start, bounded, width, height),
        count <= rectangles.len(),
    ensures
        same_path(start, with_rooms(bounded, width, height, rectangles, genes, count), width, height),
        are_open(with_rooms(bounded, width, height, rectangles, genes, count), rectangles, count as int),
        forall|k: int|
            0 <= k < count ==> #[trigger] opening_of(
                with_rooms(bounded, width, height, rectangles, genes, k as nat),
                width,
                height,
                rectangles[k],
                genes[k % (genes.len() as int)],
            ) is Some,
    decreases count,
{
    if count > 0 {
        let k = count - 1;
        let gene_index = k % (genes.len() as int);
        let r = rectangles[k];
        lemma_rooms_open(start, bounded, width, height, rectangles, genes, k as nat);
        let before = with_rooms(bounded, width, height, rectangles, genes, k as nat);
        // The start of the rectangle is free, so it is not the entrance,
        // and the cell west of it or the cell north of it lies on the
        // path or in an earlier rectangle.
        assert(r.contains(r.start_x as int, r.start_y as int));
        assert(start[r.start_x as int][r.start_y as int].path_direction == PathDirection::Unset);
        if r.start_x > 0 {
            let x = r.start_x - 1;
            let y = r.start_y as int;
            assert(scanned_before(r, x, y));
            lemma_neighbour_is_open(start, before, width, height, rectangles, k, x, y);
            lemma_open_in_column_counts(before, x, r.end_y as int, r.start_y as int, y);
            lemma_opening_exists(before, width, height, r, genes[gene_index], OpeningLocation::West);
        } else {
            let x = r.start_x as int;
            let y = r.start_y + 1;
            assert(scanned_before(r, x, y));
            lemma_neighbour_is_open(start, before, width, height, rectangles, k, x, y);
            lemma_open_in_row_counts(before, y, r.start_x as int, r.end_x as int, x);
            lemma_opening_exists(before, width, height, r, genes[gene_index], OpeningLocation::North);
        }
        lemma_opening_connects(before, width, height, r, genes[gene_index]);
        let opened = with_opening(before, width, height, r, genes[gene_index]);
        lemma_bisection_stays_inside(opened, width, height, r, gene_index, genes);
        let after = with_bisection(opened, r, gene_index, genes);
        assert forall|i: int, x: int, y: int|
            0 <= i < count && i < rectangles.len() && #[trigger] rectangles[i].contains(x, y) implies after[x][y].is_connected by {
            assert(in_grid(width, height, x, y));
            assert(after[x][y].is_connected == opened[x][y].is_connected);
            assert(opened[x][y].is_connected == (before[x][y].is_connected || r.contains(x, y)));
        }
    }
}

/// A cell that the scan passes before the start of rectangle `k` is open
/// when the turn of the rectangle comes: it lies on the path, or in an
/// earlier rectangle, which is open by then.
pub proof fn lemma_neighbour_is_open(
    start: CellGrid,
    grid: CellGrid,
    width: int,
    height: int,
    rectangles: Seq<MazeSubdivision>,
    k: int,
    x: int,
    y: int,
)
    requires
        is_partition_of(start, rectangles, width, height),
        same_path(start, grid, width, height),
        are_open(grid, rectangles, k),
        0 <= k < rectangles.len(),
        in_grid(width, height, x, y),
        scanned_before(rectangles[k], x, y),
    ensures
        cell_is_open(grid[x][y]),
{
    if start[x][y].path_direction == PathDirection::Unset {
        assert(covered_before(rectangles, k, x, y));
        let earlier = choose|e: int| 0 <= e < k && e < rectangles.len() && (#[trigger] rectangles[e]).contains(x, y);
        assert(grid[x][y].is_connected);
    }
}

/// Carving writes a direction into the entrance.
pub proof fn lemma_entrance_is_carved(
    grid: CellGrid,
    width: int,
    height: int,
    first: Orientation,
    genes: Seq<PathGene>,
    count: nat,
)
    requires
        grid_wf(grid, width, height),
        width >= 1,
        height >= 1,
        genes_in_grid(width, height, genes),
        count >= 1,
    ensures
        grid_wf(with_legs(grid, first, width, height, genes, count), width, height),
        with_legs(grid, first, width, height, genes, count)[0][height - 1].path_direction != PathDirection::Unset,
    decreases count,
{
    lemma_route_in_grid(width, height, first, genes, count - 1);
    lemma_route_in_grid(width, height, first, genes, count as int);
    if count == 1 {
        lemma_with_leg(
            grid,
            width,
            height,
            first,
            route_point(width, height, genes, 0),
            route_point(width, height, genes, 1),
        );
    } else {
        lemma_entrance_is_carved(grid, width, height, first, genes, (count - 1) as nat);
        lemma_with_leg(
            with_legs(grid, first, width, height, genes, (count - 1) as nat),
            width,
            height,
            first,
            route_point(width, height, genes, count - 1),
            route_point(width, height, genes, count as int),
        );
    }
}

/// In every compiled maze, every free rectangle has got its opening
/// towards the path or towards a rectangle that was opened before it:
/// every cell lies on the path or is marked as connected.
pub proof fn lemma_compiled_rooms_are_open(
    width: int,
    height: int,
    first_direction: Orientation,
    path_genes: Seq<PathGene>,
    wall_genes: Seq<WallGene>,
)
    requires
        1 <= width <= u32::MAX,
        1 <= height <= u32::MAX,
        genes_in_grid(width, height, path_genes),
    ensures
        forall|x: int, y: int|
            in_grid(width, height, x, y) ==> cell_is_open(
                #[trigger] compiled_grid(width, height, first_direction, path_genes, wall_genes)[x][y],
            ),
{
    let blank = blank_grid(width, height);
    assert(ready_for_tiling(blank, width, height));
    lemma_carved_is_ready(blank, width, height, first_direction, path_genes, path_genes.len() + 1);
    lemma_entrance_is_carved(blank, width, height, first_direction, path_genes, path_genes.len() + 1);
    let carved = with_path(blank, first_direction, width, height, path_genes);
    lemma_edges_keep_rest(carved, width, height);
    let edged = crate::maze::walls::with_edges(carved, width, height);
    lemma_enclosure_keeps_rest(
        edged,
        width,
        height,
        0,
        height - 1,
        edged[0][height - 1].path_direction,
        (width * height) as nat,
    );
    let enclosed = enclosed_grid(width, height, first_direction, path_genes);
    assert(ready_for_tiling(enclosed, width, height));
    lemma_partition_tiles(enclosed, width, height);
    let tiled = partition(enclosed, width, height);
    lemma_boundaries_keep_rest(tiled.0, width, height, tiled.1, tiled.1.len());
    let bounded = with_boundaries(tiled.0, tiled.1, tiled.1.len());
    assert(is_partition_of(enclosed, tiled.1, width, height));
    assert(same_path(enclosed, bounded, width, height));
    lemma_rooms_open(enclosed, bounded, width, height, tiled.1, wall_genes, tiled.1.len());
    let compiled = compiled_grid(width, height, first_direction, path_genes, wall_genes);
    assert forall|x: int, y: int| in_grid(width, height, x, y) implies cell_is_open(#[trigger] compiled[x][y]) by {
        if compiled[x][y].path_direction == PathDirection::Unset {
            assert(enclosed[x][y].path_direction == PathDirection::Unset);
            assert(crate::maze::tiling::covered(tiled.1, x, y));
            let i = choose|i: int| 0 <= i < tiled.1.len() && (#[trigger] tiled.1[i]).contains(x, y);
            assert(tiled.1[i].contains(x, y));
        }
    }
}

} // verus!
