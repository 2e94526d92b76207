//! The maze of a valid genome is in one piece: the path, and then one
//! free rectangle after the other, are joined to the entrance.

use crate::maze::{Orientation, PathDirection};
use crate::maze::connectivity::{
    connected, leads, lemma_connected_one_more, lemma_connected_still, lemma_connected_through,
    lemma_connected_to_itself, passable,
};
use crate::maze::frame::{
    lemma_bisection_stays_inside, lemma_boundaries_keep_rest, lemma_edges_keep_rest,
    lemma_enclosure_keeps_rest, same_path,
};
use crate::maze::grid::{blank_grid, in_grid, CellGrid};
use crate::maze::maze_genotype::{route_length, PathGene, WallGene};
use crate::maze::maze_phenotype::compiled_grid;
use crate::maze::openings::{
    are_open, is_partition_of, lemma_entrance_is_carved, lemma_opening_connects, lemma_rooms_open,
};
use crate::maze::passages::{
    entered_at, lemma_boundaries_keep_passage, lemma_edges_keep_passages,
    lemma_enclosure_keeps_free_passages, lemma_enclosure_keeps_route_open,
    lemma_opening_is_a_passage, lemma_opening_walls_fall, lemma_scan_rows_keeps_passages,
    opening_cells,
};
use crate::maze::path::{between, gap, genes_in_grid, valid_path, with_path};
use crate::maze::rooms::{
    inside, is_hollow, lemma_bisection_keeps_whole, lemma_outside_passage_kept,
};
use crate::maze::route::{
    carries_route, is_bare, lemma_carved_is_bare, lemma_direction_means_route, lemma_exit_is_carved,
    lemma_route_step, lemma_same_route, route_cell,
};
use crate::maze::tiling::{
    are_disjoint, covered, covered_before, enclosed_grid, lemma_carved_is_ready,
    lemma_partition_tiles, ready_for_tiling,
};
use crate::maze::walk::{lemma_walk_reaches_exit, towards};
use crate::maze::walls::{
    opening_of, partition, with_bisection, with_boundaries, with_edges, with_opening, with_rooms,
    MazeSubdivision,
};
use crate::mcc::agent::agent_genome::joins;
use vstd::prelude::*;

verus! {

/// The free rectangles of the maze of a genome.
pub open spec fn rectangles_of(width: int, height: int, first: Orientation, genes: Seq<PathGene>) -> Seq<
    MazeSubdivision,
> {
    partition(enclosed_grid(width, height, first, genes), width, height).1
}

/// The grid of a genome when all rectangles have their boundaries and
/// none has been opened yet.
pub open spec fn bounded_grid(width: int, height: int, first: Orientation, genes: Seq<PathGene>) -> CellGrid {
    with_boundaries(
        partition(enclosed_grid(width, height, first, genes), width, height).0,
        rectangles_of(width, height, first, genes),
        rectangles_of(width, height, first, genes).len(),
    )
}

/// What holds of the grid on which the free space of a valid genome is
/// tiled, and of its rectangles.
pub proof fn lemma_enclosed_grid(width: int, height: int, first: Orientation, genes: Seq<PathGene>)
    requires
        valid_path(width, height, first, genes),
        width <= u32::MAX,
        height <= u32::MAX,
    ensures
        ready_for_tiling(enclosed_grid(width, height, first, genes), width, height),
        carries_route(enclosed_grid(width, height, first, genes), width, height, first, genes),
        is_partition_of(
            enclosed_grid(width, height, first, genes),
            rectangles_of(width, height, first, genes),
            width,
            height,
        ),
        are_disjoint(rectangles_of(width, height, first, genes)),
        same_path(
            enclosed_grid(width, height, first, genes),
            partition(enclosed_grid(width, height, first, genes), width, height).0,
            width,
            height,
        ),
        enclosed_grid(width, height, first, genes)[width - 1][0].path_direction != PathDirection::Unset,
        forall|x: int, y: int|
            in_grid(width, height, x, y) ==> (covered(rectangles_of(width, height, first, genes), x, y) <==> (
            #[trigger] enclosed_grid(width, height, first, genes)[x][y]).path_direction == PathDirection::Unset),
{
    let blank = blank_grid(width, height);
    assert(ready_for_tiling(blank, width, height));
    lemma_carved_is_ready(blank, width, height, first, genes, genes.len() + 1);
    lemma_entrance_is_carved(blank, width, height, first, genes, genes.len() + 1);
    lemma_exit_is_carved(blank, width, height, first, genes);
    let carved = with_path(blank, first, width, height, genes);
    lemma_edges_keep_rest(carved, width, height);
    let edged = with_edges(carved, width, height);
    lemma_enclosure_keeps_rest(
        edged,
        width,
        height,
        0,
        height - 1,
        edged[0][height - 1].path_direction,
        (width * height) as nat,
    );
    let enclosed = enclosed_grid(width, height, first, genes);
    assert(ready_for_tiling(enclosed, width, height));
    lemma_partition_tiles(enclosed, width, height);
}

/// Before the first rectangle is opened, no cell is marked as connected.
pub proof fn lemma_bounded_is_unmarked(width: int, height: int, first: Orientation, genes: Seq<PathGene>)
    requires
        1 <= width <= u32::MAX,
        1 <= height <= u32::MAX,
        genes_in_grid(width, height, genes),
    ensures
        forall|x: int, y: int|
            in_grid(width, height, x, y) ==> !(#[trigger] bounded_grid(width, height, first, genes)[x][y]).is_connected,
{
    let blank = blank_grid(width, height);
    assert(is_bare(blank, width, height));
    lemma_carved_is_bare(blank, width, height, first, genes, genes.len() + 1);
    let carved = with_path(blank, first, width, height, genes);
    lemma_edges_keep_rest(carved, width, height);
    let edged = with_edges(carved, width, height);
    lemma_enclosure_keeps_rest(
        edged,
        width,
        height,
        0,
        height - 1,
        edged[0][height - 1].path_direction,
        (width * height) as nat,
    );
    let enclosed = enclosed_grid(width, height, first, genes);
    lemma_scan_rows_keeps_passages(enclosed, Seq::empty(), width, height, height as nat);
    let tiled = partition(enclosed, width, height);
    lemma_boundaries_keep_rest(tiled.0, width, height, tiled.1, tiled.1.len());
}

/// Before the first rectangle is opened, no wall stands between two
/// neighbours in the same rectangle.
pub proof fn lemma_free_passage_is_open(
    width: int,
    height: int,
    first: Orientation,
    genes: Seq<PathGene>,
    j: int,
    c: (int, int),
    d: (int, int),
)
    requires
        1 <= width <= u32::MAX,
        1 <= height <= u32::MAX,
        genes_in_grid(width, height, genes),
        0 <= j < partition(enclosed_grid(width, height, first, genes), width, height).1.len(),
        partition(enclosed_grid(width, height, first, genes), width, height).1[j].contains(c.0, c.1),
        partition(enclosed_grid(width, height, first, genes), width, height).1[j].contains(d.0, d.1),
        (d.0 == c.0 && d.1 == c.1 + 1) || (d.1 == c.1 && d.0 == c.0 + 1),
    ensures
        passable(
            with_boundaries(
                partition(enclosed_grid(width, height, first, genes), width, height).0,
                partition(enclosed_grid(width, height, first, genes), width, height).1,
                partition(enclosed_grid(width, height, first, genes), width, height).1.len(),
            ),
            width,
            height,
            c,
            d,
        ),
{
    let blank = blank_grid(width, height);
    assert(is_bare(blank, width, height));
    lemma_carved_is_bare(blank, width, height, first, genes, genes.len() + 1);
    lemma_carved_is_ready(blank, width, height, first, genes, genes.len() + 1);
    let carved = with_path(blank, first, width, height, genes);
    lemma_edges_keep_rest(carved, width, height);
    let edged = with_edges(carved, width, height);
    lemma_enclosure_keeps_rest(
        edged,
        width,
        height,
        0,
        height - 1,
        edged[0][height - 1].path_direction,
        (width * height) as nat,
    );
    let enclosed = enclosed_grid(width, height, first, genes);
    assert(ready_for_tiling(enclosed, width, height));
    lemma_partition_tiles(enclosed, width, height);
    let tiled = partition(enclosed, width, height);
    let rectangles = tiled.1;
    let r = rectangles[j];
    assert(r.fits(width, height));
    assert(in_grid(width, height, c.0, c.1) && in_grid(width, height, d.0, d.1));
    assert(passable(carved, width, height, c, d));
    lemma_edges_keep_passages(carved, width, height, c, d);
    assert(enclosed[c.0][c.1].path_direction == PathDirection::Unset);
    assert(enclosed[d.0][d.1].path_direction == PathDirection::Unset);
    lemma_enclosure_keeps_free_passages(
        edged,
        width,
        height,
        0,
        height - 1,
        edged[0][height - 1].path_direction,
        (width * height) as nat,
        c,
        d,
    );
    lemma_scan_rows_keeps_passages(enclosed, Seq::empty(), width, height, height as nat);
    assert(passable(tiled.0, width, height, c, d));
    assert forall|i: int| 0 <= i < rectangles.len() implies (#[trigger] rectangles[i]).fits(width, height)
        && rectangles[i].contains(c.0, c.1) == rectangles[i].contains(d.0, d.1) by {
        if i < j {
            assert(!(rectangles[i].contains(c.0, c.1) && rectangles[j].contains(c.0, c.1)));
            assert(!(rectangles[i].contains(d.0, d.1) && rectangles[j].contains(d.0, d.1)));
        } else if i > j {
            assert(!(rectangles[j].contains(c.0, c.1) && rectangles[i].contains(c.0, c.1)));
            assert(!(rectangles[j].contains(d.0, d.1) && rectangles[i].contains(d.0, d.1)));
        }
    }
    lemma_boundaries_keep_passage(tiled.0, width, height, rectangles, rectangles.len(), c, d);
}

/// On the grid on which the free space is tiled, the passage from each
/// cell of a valid route to the next is open.
pub proof fn lemma_enclosed_route_is_open(
    width: int,
    height: int,
    first: Orientation,
    genes: Seq<PathGene>,
    s: nat,
)
    requires
        valid_path(width, height, first, genes),
        s < route_length(width, height, genes),
    ensures
        carries_route(enclosed_grid(width, height, first, genes), width, height, first, genes),
        passable(
            enclosed_grid(width, height, first, genes),
            width,
            height,
            route_cell(enclosed_grid(width, height, first, genes), height, s),
            route_cell(enclosed_grid(width, height, first, genes), height, s + 1),
        ),
{
    let blank = blank_grid(width, height);
    assert(is_bare(blank, width, height));
    lemma_carved_is_bare(blank, width, height, first, genes, genes.len() + 1);
    let carved = with_path(blank, first, width, height, genes);
    assert(carries_route(carved, width, height, first, genes));
    lemma_edges_keep_rest(carved, width, height);
    let edged = with_edges(carved, width, height);
    lemma_enclosure_keeps_rest(
        edged,
        width,
        height,
        0,
        height - 1,
        edged[0][height - 1].path_direction,
        (width * height) as nat,
    );
    let enclosed = enclosed_grid(width, height, first, genes);
    assert(carries_route(enclosed, width, height, first, genes));
    lemma_same_route(carved, enclosed, width, height, first, genes, s);
    lemma_same_route(carved, enclosed, width, height, first, genes, s + 1);
    lemma_route_step(carved, width, height, first, genes, s);
    let from = route_cell(carved, height, s);
    let to = route_cell(carved, height, s + 1);
    assert(passable(carved, width, height, from, to));
    lemma_edges_keep_passages(carved, width, height, from, to);
    assert(entered_at(carved, height, 0) == edged[0][height - 1].path_direction);
    lemma_enclosure_keeps_route_open(
        carved,
        edged,
        width,
        height,
        first,
        genes,
        0,
        (width * height) as nat,
        s,
    );
}

/// Before the first rectangle is opened, the passage from each cell of a
/// valid route to the next is open.
pub proof fn lemma_bounded_route_is_open(
    width: int,
    height: int,
    first: Orientation,
    genes: Seq<PathGene>,
    s: nat,
)
    requires
        valid_path(width, height, first, genes),
        width <= u32::MAX,
        height <= u32::MAX,
        s < route_length(width, height, genes),
    ensures
        passable(
            bounded_grid(width, height, first, genes),
            width,
            height,
            route_cell(enclosed_grid(width, height, first, genes), height, s),
            route_cell(enclosed_grid(width, height, first, genes), height, s + 1),
        ),
{
    let enclosed = enclosed_grid(width, height, first, genes);
    let rectangles = rectangles_of(width, height, first, genes);
    lemma_enclosed_grid(width, height, first, genes);
    lemma_enclosed_route_is_open(width, height, first, genes, s);
    lemma_route_step(enclosed, width, height, first, genes, s);
    lemma_walk_reaches_exit(enclosed, width, height, first, genes);
    let from = route_cell(enclosed, height, s);
    let to = route_cell(enclosed, height, s + 1);
    let tiled = partition(enclosed, width, height);
    lemma_scan_rows_keeps_passages(enclosed, Seq::empty(), width, height, height as nat);
    assert(passable(tiled.0, width, height, from, to));
    assert(enclosed[from.0][from.1].path_direction != PathDirection::Unset);
    assert(enclosed[to.0][to.1].path_direction != PathDirection::Unset) by {
        if s + 1 < route_length(width, height, genes) {
            lemma_route_step(enclosed, width, height, first, genes, s + 1);
        }
    }
    assert forall|i: int| 0 <= i < rectangles.len() implies (#[trigger] rectangles[i]).fits(width, height)
        && rectangles[i].contains(from.0, from.1) == rectangles[i].contains(to.0, to.1) by {
        assert(!rectangles[i].contains(from.0, from.1));
        assert(!rectangles[i].contains(to.0, to.1));
    }
    lemma_boundaries_keep_passage(tiled.0, width, height, rectangles, rectangles.len(), from, to);
}

/// The cells that are settled when the turn of rectangle `k` comes: the
/// cells of the path and the cells of the rectangles before it.
pub open spec fn settled(
    start: CellGrid,
    rectangles: Seq<MazeSubdivision>,
    k: int,
    width: int,
    height: int,
) -> spec_fn(int, int) -> bool {
    |x: int, y: int|
        in_grid(width, height, x, y) && (start[x][y].path_direction != PathDirection::Unset || covered_before(
            rectangles,
            k,
            x,
            y,
        ))
}

/// What holds when the turn of rectangle `k` comes: the rectangles
/// before it are open and no other cell is marked as connected, the
/// rectangles from it on have no walls inside, and every settled cell
/// can be reached from the entrance through settled cells.
pub open spec fn is_joined(
    start: CellGrid,
    grid: CellGrid,
    width: int,
    height: int,
    rectangles: Seq<MazeSubdivision>,
    k: int,
) -> bool {
    &&& same_path(start, grid, width, height)
    &&& are_open(grid, rectangles, k)
    &&& forall|x: int, y: int|
        in_grid(width, height, x, y) && (#[trigger] grid[x][y]).is_connected ==> covered_before(rectangles, k, x, y)
    &&& forall|j: int| k <= j < rectangles.len() ==> is_hollow(grid, #[trigger] rectangles[j])
    &&& forall|c: (int, int)|
        settled(start, rectangles, k, width, height)(c.0, c.1) ==> #[trigger] connected(
            grid,
            width,
            height,
            settled(start, rectangles, k, width, height),
            (0, height - 1),
            c,
        )
}

/// Before the first rectangle is opened, the path is joined: each cell
/// of the route can be reached from the entrance along the route.
pub proof fn lemma_route_is_joined(width: int, height: int, first: Orientation, genes: Seq<PathGene>, s: nat)
    requires
        valid_path(width, height, first, genes),
        width <= u32::MAX,
        height <= u32::MAX,
        s <= route_length(width, height, genes),
    ensures
        connected(
            bounded_grid(width, height, first, genes),
            width,
            height,
            settled(
                enclosed_grid(width, height, first, genes),
                rectangles_of(width, height, first, genes),
                0,
                width,
                height,
            ),
            (0, height - 1),
            route_cell(enclosed_grid(width, height, first, genes), height, s),
        ),
    decreases s,
{
    let enclosed = enclosed_grid(width, height, first, genes);
    let rectangles = rectangles_of(width, height, first, genes);
    let bounded = bounded_grid(width, height, first, genes);
    let region = settled(enclosed, rectangles, 0, width, height);
    lemma_enclosed_grid(width, height, first, genes);
    if s == 0 {
        lemma_connected_to_itself(bounded, width, height, region, (0, height - 1));
    } else {
        let before = (s - 1) as nat;
        lemma_route_is_joined(width, height, first, genes, before);
        lemma_bounded_route_is_open(width, height, first, genes, before);
        let to = route_cell(enclosed, height, s);
        lemma_walk_reaches_exit(enclosed, width, height, first, genes);
        assert(enclosed[to.0][to.1].path_direction != PathDirection::Unset) by {
            if s < route_length(width, height, genes) {
                lemma_route_step(enclosed, width, height, first, genes, s);
            }
        }
        assert(region(to.0, to.1));
        lemma_connected_one_more(
            bounded,
            width,
            height,
            region,
            (0, height - 1),
            route_cell(enclosed, height, before),
            to,
        );
    }
}

/// Opening and bisecting a rectangle joins it to the settled cells.
pub proof fn lemma_room_joins(
    start: CellGrid,
    before: CellGrid,
    width: int,
    height: int,
    rectangles: Seq<MazeSubdivision>,
    genes: Seq<WallGene>,
    k: int,
)
    requires
        is_partition_of(start, rectangles, width, height),
        are_disjoint(rectangles),
        0 <= k < rectangles.len(),
        is_joined(start, before, width, height, rectangles, k),
        opening_of(before, width, height, rectangles[k], genes[k % (genes.len() as int)]) is Some,
    ensures
        is_joined(
            start,
            with_bisection(
                with_opening(before, width, height, rectangles[k], genes[k % (genes.len() as int)]),
                rectangles[k],
                k % (genes.len() as int),
                genes,
            ),
            width,
            height,
            rectangles,
            k + 1,
        ),
{
    let r = rectangles[k];
    let gene_index = k % (genes.len() as int);
    let gene = genes[gene_index];
    let entrance = (0int, height - 1);
    let region = settled(start, rectangles, k, width, height);
    let larger = settled(start, rectangles, k + 1, width, height);
    lemma_opening_connects(before, width, height, r, gene);
    lemma_opening_is_a_passage(before, width, height, r, gene);
    let opened = with_opening(before, width, height, r, gene);
    let (side, place) = opening_of(before, width, height, r, gene)->0;
    let (own, across) = opening_cells(r, side, place);
    lemma_opening_walls_fall(before, width, height, r, gene);
    assert(is_hollow(opened, r));
    lemma_bisection_keeps_whole(opened, width, height, r, gene_index, genes);
    lemma_bisection_stays_inside(opened, width, height, r, gene_index, genes);
    let after = with_bisection(opened, r, gene_index, genes);
    // A settled cell lies in no later rectangle.
    assert forall|x: int, y: int| region(x, y) implies !r.contains(x, y) && #[trigger] larger(x, y) by {
        if covered_before(rectangles, k, x, y) {
            let e = choose|e: int| 0 <= e < k && e < rectangles.len() && (#[trigger] rectangles[e]).contains(x, y);
            assert(!(rectangles[e].contains(x, y) && rectangles[k].contains(x, y)));
            assert(covered_before(rectangles, k + 1, x, y));
        }
    }
    assert forall|c: (int, int), d: (int, int)|
        region(c.0, c.1) && region(d.0, d.1) && #[trigger] passable(before, width, height, c, d) implies passable(
        after,
        width,
        height,
        c,
        d,
    ) by {
        assert(passable(opened, width, height, c, d));
        lemma_outside_passage_kept(opened, after, width, height, r, c, d);
    }
    assert(same_path(start, after, width, height));
    assert forall|i: int, x: int, y: int|
        0 <= i < k + 1 && i < rectangles.len() && #[trigger] rectangles[i].contains(x, y) implies after[x][y].is_connected by {
        assert(in_grid(width, height, x, y));
        assert(opened[x][y].is_connected == (before[x][y].is_connected || r.contains(x, y)));
    }
    assert forall|x: int, y: int|
        in_grid(width, height, x, y) && (#[trigger] after[x][y]).is_connected implies covered_before(
        rectangles,
        k + 1,
        x,
        y,
    ) by {
        assert(opened[x][y].is_connected == (before[x][y].is_connected || r.contains(x, y)));
        if r.contains(x, y) {
            assert(rectangles[k].contains(x, y));
        } else {
            let e = choose|e: int| 0 <= e < k && e < rectangles.len() && (#[trigger] rectangles[e]).contains(x, y);
            assert(rectangles[e].contains(x, y));
        }
    }
    assert forall|j: int| k + 1 <= j < rectangles.len() implies is_hollow(after, #[trigger] rectangles[j]) by {
        let other = rectangles[j];
        assert(is_hollow(before, other));
        assert forall|x: int, y: int| other.contains(x, y) implies #[trigger] after[x][y] == opened[x][y] by {
            assert(!(rectangles[k].contains(x, y) && rectangles[j].contains(x, y)));
        }
    }
    // The cell across the opening is settled, and the entrance is
    // connected to it.
    assert(region(across.0, across.1)) by {
        if start[across.0][across.1].path_direction == PathDirection::Unset {
            assert(before[across.0][across.1].is_connected);
        }
    }
    assert(connected(before, width, height, region, entrance, across));
    lemma_connected_still(before, after, width, height, region, larger, entrance, across);
    lemma_outside_passage_kept(opened, after, width, height, r, across, own);
    assert(rectangles[k].contains(own.0, own.1));
    assert(larger(own.0, own.1));
    lemma_connected_one_more(after, width, height, larger, entrance, across, own);
    assert forall|c: (int, int)| larger(c.0, c.1) implies #[trigger] connected(
        after,
        width,
        height,
        larger,
        entrance,
        c,
    ) by {
        if region(c.0, c.1) {
            assert(connected(before, width, height, region, entrance, c));
            lemma_connected_still(before, after, width, height, region, larger, entrance, c);
        } else {
            let e = choose|e: int| 0 <= e < k + 1 && e < rectangles.len() && (#[trigger] rectangles[e]).contains(
                c.0,
                c.1,
            );
            if e < k {
                assert(covered_before(rectangles, k, c.0, c.1));
            }
            assert(r.contains(c.0, c.1));
            assert(connected(after, width, height, inside(r), own, c));
            assert forall|x: int, y: int| #[trigger] inside(r)(x, y) implies larger(x, y) by {
                assert(rectangles[k].contains(x, y));
                assert(covered_before(rectangles, k + 1, x, y));
            }
            lemma_connected_still(after, after, width, height, inside(r), larger, own, c);
            lemma_connected_through(after, width, height, larger, entrance, own, c);
        }
    }
}

/// Opening and bisecting the rectangles one after the other joins them
/// all to the path.
pub proof fn lemma_rooms_join(
    start: CellGrid,
    bounded: CellGrid,
    width: int,
    height: int,
    rectangles: Seq<MazeSubdivision>,
    genes: Seq<WallGene>,
    count: nat,
)
    requires
        is_partition_of(start, rectangles, width, height),
        are_disjoint(rectangles),
        is_joined(start, bounded, width, height, rectangles, 0),
        count <= rectangles.len(),
    ensures
        is_joined(
            start,
            with_rooms(bounded, width, height, rectangles, genes, count),
            width,
            height,
            rectangles,
            count as int,
        ),
    decreases count,
{
    if count > 0 {
        let k = count - 1;
        lemma_rooms_join(start, bounded, width, height, rectangles, genes, k as nat);
        lemma_rooms_open(start, bounded, width, height, rectangles, genes, count);
        let before = with_rooms(bounded, width, height, rectangles, genes, k as nat);
        assert(opening_of(before, width, height, rectangles[k], genes[k % (genes.len() as int)]) is Some);
        lemma_room_joins(start, before, width, height, rectangles, genes, k);
    }
}

/// All the cells of the grid, as a region.
pub open spec fn everywhere() -> spec_fn(int, int) -> bool {
    |x: int, y: int| true
}

/// The maze of a valid genome is in one piece: every cell can be reached
/// from the entrance without passing a wall. The path leads from the
/// entrance to the exit, every free rectangle opens towards the path or
/// towards a rectangle that was opened before it, and every dividing wall
/// inside a rectangle has a gap.
pub proof fn lemma_compiled_maze_is_connected(
    width: int,
    height: int,
    first_direction: Orientation,
    path_genes: Seq<PathGene>,
    wall_genes: Seq<WallGene>,
)
    requires
        valid_path(width, height, first_direction, path_genes),
        width <= u32::MAX,
        height <= u32::MAX,
    ensures
        forall|x: int, y: int|
            in_grid(width, height, x, y) ==> #[trigger] connected(
                compiled_grid(width, height, first_direction, path_genes, wall_genes),
                width,
                height,
                everywhere(),
                (0, height - 1),
                (x, y),
            ),
{
    let first = first_direction;
    let genes = path_genes;
    let enclosed = enclosed_grid(width, height, first, genes);
    let rectangles = rectangles_of(width, height, first, genes);
    let bounded = bounded_grid(width, height, first, genes);
    lemma_enclosed_grid(width, height, first, genes);
    let tiled = partition(enclosed, width, height);
    lemma_boundaries_keep_rest(tiled.0, width, height, rectangles, rectangles.len());
    lemma_scan_rows_keeps_passages(enclosed, Seq::empty(), width, height, height as nat);
    assert(same_path(enclosed, bounded, width, height));
    let region = settled(enclosed, rectangles, 0, width, height);
    let entrance = (0int, height - 1);
    // No rectangle has a wall inside before its turn comes.
    assert forall|j: int| 0 <= j < rectangles.len() implies is_hollow(bounded, #[trigger] rectangles[j]) by {
        let r = rectangles[j];
        assert forall|x: int, y: int| r.contains(x, y) && r.contains(x, y + 1) implies !(#[trigger] bounded[x][y]).north_wall by {
            lemma_free_passage_is_open(width, height, first, genes, j, (x, y), (x, y + 1));
        }
        assert forall|x: int, y: int| r.contains(x, y) && r.contains(x + 1, y) implies !(#[trigger] bounded[x][y]).east_wall by {
            lemma_free_passage_is_open(width, height, first, genes, j, (x, y), (x + 1, y));
        }
    }
    // No cell is marked as connected yet.
    lemma_bounded_is_unmarked(width, height, first, genes);
    // The cells of the path are joined along the route.
    assert forall|c: (int, int)| region(c.0, c.1) implies #[trigger] connected(
        bounded,
        width,
        height,
        region,
        entrance,
        c,
    ) by {
        assert(!covered_before(rectangles, 0, c.0, c.1));
        let s = lemma_direction_means_route(enclosed, width, height, first, genes, c.0, c.1);
        lemma_route_is_joined(width, height, first, genes, s);
    }
    assert(is_joined(enclosed, bounded, width, height, rectangles, 0));
    lemma_rooms_join(enclosed, bounded, width, height, rectangles, wall_genes, rectangles.len());
    let compiled = compiled_grid(width, height, first, genes, wall_genes);
    let all = settled(enclosed, rectangles, rectangles.len() as int, width, height);
    assert forall|x: int, y: int| in_grid(width, height, x, y) implies #[trigger] connected(
        compiled,
        width,
        height,
        everywhere(),
        entrance,
        (x, y),
    ) by {
        if enclosed[x][y].path_direction == PathDirection::Unset {
            assert(covered(rectangles, x, y));
            let i = choose|i: int| 0 <= i < rectangles.len() && (#[trigger] rectangles[i]).contains(x, y);
            assert(covered_before(rectangles, rectangles.len() as int, x, y));
        }
        assert(all(x, y));
        assert(connected(compiled, width, height, all, entrance, (x, y)));
        lemma_connected_still(compiled, compiled, width, height, all, everywhere(), entrance, (x, y));
    }
}

} // verus!
