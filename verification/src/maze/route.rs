//! The cells of a valid route: the walk along the directions visits them
//! one after the other, each once, and they are all the cells that carry
//! a direction.

use crate::maze::{Orientation, PathDirection};
use crate::maze::connectivity::{connected, leads};
use crate::maze::grid::{blank_grid, grid_wf, in_grid, CellGrid};
use crate::maze::maze_genotype::{legs_length, lemma_legs_length_grows, route_length, PathGene};
use crate::maze::path::{
    between, gap, genes_in_grid, lemma_claimed_by, lemma_route_in_grid, lemma_with_leg,
    route_leg_claims, route_point, valid_path, with_legs, with_path,
};
use crate::maze::walk::{
    leg_cell, leg_length, lemma_claimed_direction, lemma_leg_cells, lemma_walk_follows_route,
    lemma_walk_reaches_exit, walk,
};
use crate::maze::walls::step_from;
use vstd::prelude::*;

verus! {

/// `grid` carries the directions of the carved path of a valid route.
pub open spec fn carries_route(grid: CellGrid, width: int, height: int, first: Orientation, genes: Seq<PathGene>) -> bool {
    &&& grid_wf(grid, width, height)
    &&& valid_path(width, height, first, genes)
    &&& forall|x: int, y: int|
        in_grid(width, height, x, y) ==> (#[trigger] grid[x][y]).path_direction == with_path(
            blank_grid(width, height),
            first,
            width,
            height,
            genes,
        )[x][y].path_direction
}

/// The cell of the route after `s` steps: the walk from the entrance
/// along the directions.
pub open spec fn route_cell(grid: CellGrid, height: int, s: nat) -> (int, int) {
    walk(grid, 0, height - 1, s)
}

/// No cell of `grid` has a wall or is marked as connected.
pub open spec fn is_bare(grid: CellGrid, width: int, height: int) -> bool {
    &&& grid_wf(grid, width, height)
    &&& forall|x: int, y: int|
        in_grid(width, height, x, y) ==> {
            &&& !(#[trigger] grid[x][y]).north_wall
            &&& !grid[x][y].east_wall
            &&& !grid[x][y].south_wall
            &&& !grid[x][y].west_wall
            &&& !grid[x][y].is_connected
        }
}

/// Carving builds no wall.
pub proof fn lemma_carved_is_bare(
    grid: CellGrid,
    width: int,
    height: int,
    first: Orientation,
    genes: Seq<PathGene>,
    count: nat,
)
    requires
        is_bare(grid, width, height),
        width >= 1,
        height >= 1,
        genes_in_grid(width, height, genes),
    ensures
        is_bare(with_legs(grid, first, width, height, genes, count), width, height),
    decreases count,
{
    if count > 0 {
        lemma_carved_is_bare(grid, width, height, first, genes, (count - 1) as nat);
        lemma_route_in_grid(width, height, first, genes, count - 1);
        lemma_route_in_grid(width, height, first, genes, count as int);
        lemma_with_leg(
            with_legs(grid, first, width, height, genes, (count - 1) as nat),
            width,
            height,
            first,
            route_point(width, height, genes, count - 1),
            route_point(width, height, genes, count as int),
        );
    }
}

/// Carving writes a direction into the exit.
pub proof fn lemma_exit_is_carved(grid: CellGrid, width: int, height: int, first: Orientation, genes: Seq<PathGene>)
    requires
        grid_wf(grid, width, height),
        width >= 1,
        height >= 1,
        genes_in_grid(width, height, genes),
    ensures
        with_path(grid, first, width, height, genes)[width - 1][0].path_direction != PathDirection::Unset,
{
    let count = genes.len() + 1;
    lemma_route_in_grid(width, height, first, genes, count - 1);
    lemma_route_in_grid(width, height, first, genes, count as int);
    crate::maze::walk::lemma_legs_shape(grid, width, height, first, genes, (count - 1) as nat);
    lemma_with_leg(
        with_legs(grid, first, width, height, genes, (count - 1) as nat),
        width,
        height,
        first,
        route_point(width, height, genes, count - 1),
        route_point(width, height, genes, count as int),
    );
}

/// The cells of a leg are different cells.
pub proof fn lemma_leg_cells_differ(first: Orientation, a: (int, int), b: (int, int), t: int, u: int)
    requires
        0 <= t < u <= leg_length(a, b),
    ensures
        leg_cell(first, a, b, t) != leg_cell(first, a, b, u),
{
}

/// Before the exit, the route leaves each of its cells in the direction
/// written into the cell, which leads to the next cell of the route, a
/// neighbour in the grid.
pub proof fn lemma_route_step(
    grid: CellGrid,
    width: int,
    height: int,
    first: Orientation,
    genes: Seq<PathGene>,
    s: nat,
)
    requires
        carries_route(grid, width, height, first, genes),
        s < route_length(width, height, genes),
    ensures
        in_grid(width, height, route_cell(grid, height, s).0, route_cell(grid, height, s).1),
        in_grid(width, height, route_cell(grid, height, s + 1).0, route_cell(grid, height, s + 1).1),
        grid[route_cell(grid, height, s).0][route_cell(grid, height, s).1].path_direction != PathDirection::Unset,
        route_cell(grid, height, s + 1) == step_from(
            route_cell(grid, height, s).0,
            route_cell(grid, height, s).1,
            grid[route_cell(grid, height, s).0][route_cell(grid, height, s).1].path_direction,
        ),
{
    lemma_walk_reaches_exit(grid, width, height, first, genes);
    let (k, t) = lemma_walk_follows_route(grid, width, height, first, genes, s);
    let a = route_point(width, height, genes, k);
    let b = route_point(width, height, genes, k + 1);
    let cell = leg_cell(first, a, b, t);
    lemma_leg_cells(first, a, b, t);
    assert(route_leg_claims(width, height, first, genes, k, cell.0, cell.1));
    lemma_route_in_grid(width, height, first, genes, k);
    lemma_claimed_direction(
        blank_grid(width, height),
        width,
        height,
        first,
        genes,
        k,
        genes.len() + 1,
        cell.0,
        cell.1,
    );
    if s + 1 < route_length(width, height, genes) {
        assert(in_grid(width, height, route_cell(grid, height, s + 1).0, route_cell(grid, height, s + 1).1));
    }
}

/// The route visits no cell twice.
pub proof fn lemma_route_cells_differ(
    grid: CellGrid,
    width: int,
    height: int,
    first: Orientation,
    genes: Seq<PathGene>,
    s: nat,
    later: nat,
)
    requires
        carries_route(grid, width, height, first, genes),
        s < later <= route_length(width, height, genes),
    ensures
        route_cell(grid, height, s) != route_cell(grid, height, later),
{
    lemma_walk_reaches_exit(grid, width, height, first, genes);
    if later < route_length(width, height, genes) {
        let (k, t) = lemma_walk_follows_route(grid, width, height, first, genes, s);
        let (l, u) = lemma_walk_follows_route(grid, width, height, first, genes, later);
        let a = route_point(width, height, genes, k);
        let b = route_point(width, height, genes, k + 1);
        let c = route_point(width, height, genes, l);
        let d = route_point(width, height, genes, l + 1);
        lemma_leg_cells(first, a, b, t);
        lemma_leg_cells(first, c, d, u);
        if k == l {
            lemma_leg_cells_differ(first, a, b, t, u);
        } else {
            let cell = leg_cell(first, a, b, t);
            if cell == leg_cell(first, c, d, u) {
                assert(route_leg_claims(width, height, first, genes, k, cell.0, cell.1));
                assert(route_leg_claims(width, height, first, genes, l, cell.0, cell.1));
                if k < l {
                    lemma_claimed_by(width, height, first, genes, l as nat, k, cell.0, cell.1);
                } else {
                    lemma_claimed_by(width, height, first, genes, k as nat, l, cell.0, cell.1);
                }
            }
        }
    }
}

/// Grids that carry the same route have the same cells of the route.
pub proof fn lemma_same_route(
    one: CellGrid,
    other: CellGrid,
    width: int,
    height: int,
    first: Orientation,
    genes: Seq<PathGene>,
    s: nat,
)
    requires
        carries_route(one, width, height, first, genes),
        carries_route(other, width, height, first, genes),
        s <= route_length(width, height, genes),
    ensures
        route_cell(one, height, s) == route_cell(other, height, s),
    decreases s,
{
    if s > 0 {
        lemma_same_route(one, other, width, height, first, genes, (s - 1) as nat);
        lemma_route_step(one, width, height, first, genes, (s - 1) as nat);
        lemma_route_step(other, width, height, first, genes, (s - 1) as nat);
    }
}

/// After the steps of the legs before leg `k` and `t` steps of leg `k`,
/// the walk along the directions stands at cell `t` of leg `k`.
pub proof fn lemma_walk_at(
    grid: CellGrid,
    width: int,
    height: int,
    first: Orientation,
    genes: Seq<PathGene>,
    k: int,
    t: int,
)
    requires
        carries_route(grid, width, height, first, genes),
        0 <= k <= genes.len(),
        0 <= t <= leg_length(route_point(width, height, genes, k), route_point(width, height, genes, k + 1)),
    ensures
        legs_length(width, height, genes, k as nat) >= 0,
        legs_length(width, height, genes, k as nat) + t <= route_length(width, height, genes),
        route_cell(grid, height, (legs_length(width, height, genes, k as nat) + t) as nat) == leg_cell(
            first,
            route_point(width, height, genes, k),
            route_point(width, height, genes, k + 1),
            t,
        ),
    decreases k, t,
{
    let a = route_point(width, height, genes, k);
    let b = route_point(width, height, genes, k + 1);
    lemma_legs_length_grows(width, height, genes, 0, k as nat);
    lemma_legs_length_grows(width, height, genes, (k + 1) as nat, genes.len() + 1);
    assert(legs_length(width, height, genes, (k + 1) as nat) == legs_length(width, height, genes, k as nat)
        + leg_length(a, b));
    lemma_leg_cells(first, a, b, t);
    if t > 0 {
        lemma_walk_at(grid, width, height, first, genes, k, t - 1);
        let cell = leg_cell(first, a, b, t - 1);
        lemma_leg_cells(first, a, b, t - 1);
        assert(route_leg_claims(width, height, first, genes, k, cell.0, cell.1));
        lemma_route_in_grid(width, height, first, genes, k);
        lemma_claimed_direction(
            blank_grid(width, height),
            width,
            height,
            first,
            genes,
            k,
            genes.len() + 1,
            cell.0,
            cell.1,
        );
        let s = (legs_length(width, height, genes, k as nat) + t - 1) as nat;
        assert(route_cell(grid, height, s + 1) == step_from(cell.0, cell.1, grid[cell.0][cell.1].path_direction));
    } else if k > 0 {
        let before = route_point(width, height, genes, k - 1);
        lemma_walk_at(grid, width, height, first, genes, k - 1, leg_length(before, a));
        lemma_leg_cells(first, before, a, leg_length(before, a));
        assert(legs_length(width, height, genes, k as nat) == legs_length(width, height, genes, (k - 1) as nat)
            + leg_length(before, a));
    }
}

/// The leg from `a` to `b` writes a direction into the cell `(x, y)`:
/// the cell lies on one of the two segments of the leg.
pub open spec fn leg_writes(first: Orientation, a: (int, int), b: (int, int), x: int, y: int) -> bool {
    match first {
        Orientation::Horizontal => (y == a.1 && between(a.0, b.0, x)) || (x == b.0 && between(a.1, b.1, y)),
        Orientation::Vertical => (x == a.0 && between(a.1, b.1, y)) || (y == b.1 && between(a.0, b.0, x)),
    }
}

/// The place on the leg from `a` to `b` of a cell into which the leg
/// writes a direction.
pub open spec fn leg_place(first: Orientation, a: (int, int), b: (int, int), x: int, y: int) -> int {
    match first {
        Orientation::Horizontal => if y == a.1 && between(a.0, b.0, x) {
            gap(a.0, x)
        } else {
            gap(a.0, b.0) + gap(a.1, y)
        },
        Orientation::Vertical => if x == a.0 && between(a.1, b.1, y) {
            gap(a.1, y)
        } else {
            gap(a.1, b.1) + gap(a.0, x)
        },
    }
}

/// A cell into which a leg writes a direction is a cell of the leg.
pub proof fn lemma_written_is_on_leg(first: Orientation, a: (int, int), b: (int, int), x: int, y: int)
    requires
        leg_writes(first, a, b, x, y),
    ensures
        0 <= leg_place(first, a, b, x, y) <= leg_length(a, b),
        leg_cell(first, a, b, leg_place(first, a, b, x, y)) == (x, y),
{
}

/// A cell that has a direction after `count` legs have been carved into
/// a grid without directions lies on one of these legs.
pub proof fn lemma_direction_is_written(
    width: int,
    height: int,
    first: Orientation,
    genes: Seq<PathGene>,
    count: nat,
    x: int,
    y: int,
) -> (k: int)
    requires
        width >= 1,
        height >= 1,
        genes_in_grid(width, height, genes),
        in_grid(width, height, x, y),
        with_legs(blank_grid(width, height), first, width, height, genes, count)[x][y].path_direction
            != PathDirection::Unset,
    ensures
        0 <= k < count,
        leg_writes(first, route_point(width, height, genes, k), route_point(width, height, genes, k + 1), x, y),
    decreases count,
{
    let blank = blank_grid(width, height);
    if count == 0 {
        0
    } else {
        let before = with_legs(blank, first, width, height, genes, (count - 1) as nat);
        let a = route_point(width, height, genes, count - 1);
        let b = route_point(width, height, genes, count as int);
        lemma_route_in_grid(width, height, first, genes, count - 1);
        lemma_route_in_grid(width, height, first, genes, count as int);
        assert(is_bare(blank, width, height));
        lemma_carved_is_bare(blank, width, height, first, genes, (count - 1) as nat);
        lemma_with_leg(before, width, height, first, a, b);
        if leg_writes(first, a, b, x, y) {
            count - 1
        } else {
            assert(before[x][y].path_direction != PathDirection::Unset);
            lemma_direction_is_written(width, height, first, genes, (count - 1) as nat, x, y)
        }
    }
}

/// On a valid route, every cell with a direction is a cell of the route.
pub proof fn lemma_direction_means_route(
    grid: CellGrid,
    width: int,
    height: int,
    first: Orientation,
    genes: Seq<PathGene>,
    x: int,
    y: int,
) -> (s: nat)
    requires
        carries_route(grid, width, height, first, genes),
        in_grid(width, height, x, y),
        grid[x][y].path_direction != PathDirection::Unset,
    ensures
        s <= route_length(width, height, genes),
        route_cell(grid, height, s) == (x, y),
{
    let k = lemma_direction_is_written(width, height, first, genes, genes.len() + 1, x, y);
    let a = route_point(width, height, genes, k);
    let b = route_point(width, height, genes, k + 1);
    lemma_written_is_on_leg(first, a, b, x, y);
    let t = leg_place(first, a, b, x, y);
    lemma_walk_at(grid, width, height, first, genes, k, t);
    (legs_length(width, height, genes, k as nat) + t) as nat
}

} // verus!
