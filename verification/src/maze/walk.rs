//! Walking a carved path: on a valid route the directions written into
//! the cells lead from the entrance to the exit, one step for each unit
//! of the Manhattan length of the route.

use crate::maze::grid::{blank_grid, grid_wf, in_grid, CellGrid};
use crate::maze::maze_genotype::{legs_length, lemma_legs_length_grows, route_length, PathGene};
use crate::maze::path::{
    claimed, gap, genes_in_grid, leg_claims, leg_direction, lemma_claimed_by, lemma_route_in_grid,
    route_leg_claims, route_point, valid_path, with_leg, with_legs, with_path,
};
use crate::maze::walls::step_from;
use crate::maze::Orientation;
use vstd::prelude::*;

verus! {

/// The cell reached from `(x, y)` after `steps` steps, each in the
/// direction written into the cell that it leaves.
pub open spec fn walk(grid: CellGrid, x: int, y: int, steps: nat) -> (int, int)
    decreases steps,
{
    if steps == 0 {
        (x, y)
    } else {
        let from = walk(grid, x, y, (steps - 1) as nat);
        step_from(from.0, from.1, grid[from.0][from.1].path_direction)
    }
}

/// The number of steps of the leg from `a` to `b`.
pub open spec fn leg_length(a: (int, int), b: (int, int)) -> int {
    gap(a.0, b.0) + gap(a.1, b.1)
}

/// `from` moved by `distance` towards `to`.
pub open spec fn towards(from: int, to: int, distance: int) -> int {
    if from <= to {
        from + distance
    } else {
        from - distance
    }
}

/// The cell of the leg from `a` to `b` that is reached after `t` steps.
pub open spec fn leg_cell(first: Orientation, a: (int, int), b: (int, int), t: int) -> (int, int) {
    match first {
        Orientation::Horizontal => if t <= gap(a.0, b.0) {
            (towards(a.0, b.0, t), a.1)
        } else {
            (b.0, towards(a.1, b.1, t - gap(a.0, b.0)))
        },
        Orientation::Vertical => if t <= gap(a.1, b.1) {
            (a.0, towards(a.1, b.1, t))
        } else {
            (towards(a.0, b.0, t - gap(a.1, b.1)), b.1)
        },
    }
}

/// The cells of a leg in order: the leg starts at `a` and ends at `b`;
/// every cell before the last is claimed by the leg, and a step in the
/// direction in which the leg leaves it leads to the next cell.
pub proof fn lemma_leg_cells(first: Orientation, a: (int, int), b: (int, int), t: int)
    requires
        0 <= t <= leg_length(a, b),
    ensures
        leg_cell(first, a, b, 0) == a,
        leg_cell(first, a, b, leg_length(a, b)) == b,
        t < leg_length(a, b) ==> leg_claims(first, a, b, leg_cell(first, a, b, t).0, leg_cell(first, a, b, t).1),
        t < leg_length(a, b) ==> step_from(
            leg_cell(first, a, b, t).0,
            leg_cell(first, a, b, t).1,
            leg_direction(first, a, b, leg_cell(first, a, b, t).0, leg_cell(first, a, b, t).1),
        ) == leg_cell(first, a, b, t + 1),
{
}

/// Carving a leg keeps the shape of the grid; it writes the direction in
/// which the leg leaves into the cells that it claims, and leaves the
/// direction of every cell but these and its target as it was.
pub proof fn lemma_leg_directions(
    grid: CellGrid,
    width: int,
    height: int,
    first: Orientation,
    a: (int, int),
    b: (int, int),
    x: int,
    y: int,
)
    requires
        grid_wf(grid, width, height),
        in_grid(width, height, a.0, a.1),
        in_grid(width, height, b.0, b.1),
        in_grid(width, height, x, y),
    ensures
        grid_wf(with_leg(grid, first, a, b), width, height),
        leg_claims(first, a, b, x, y) ==> with_leg(grid, first, a, b)[x][y].path_direction == leg_direction(
            first,
            a,
            b,
            x,
            y,
        ),
        !leg_claims(first, a, b, x, y) && (x, y) != b ==> with_leg(grid, first, a, b)[x][y].path_direction
            == grid[x][y].path_direction,
{
    crate::maze::path::lemma_with_leg(grid, width, height, first, a, b);
}

/// Carving legs keeps the shape of the grid.
pub proof fn lemma_legs_shape(
    grid: CellGrid,
    width: int,
    height: int,
    first: Orientation,
    genes: Seq<PathGene>,
    count: nat,
)
    requires
        grid_wf(grid, width, height),
        width >= 1,
        height >= 1,
        genes_in_grid(width, height, genes),
    ensures
        grid_wf(with_legs(grid, first, width, height, genes, count), width, height),
    decreases count,
{
    if count > 0 {
        lemma_legs_shape(grid, width, height, first, genes, (count - 1) as nat);
        lemma_route_in_grid(width, height, first, genes, count - 1);
        lemma_route_in_grid(width, height, first, genes, count as int);
        lemma_leg_directions(
            with_legs(grid, first, width, height, genes, (count - 1) as nat),
            width,
            height,
            first,
            route_point(width, height, genes, count - 1),
            route_point(width, height, genes, count as int),
            0,
            0,
        );
    }
}

/// On a valid route, no leg up to leg `k` claims the target of leg `k`:
/// that cell is claimed by a later leg, or it is the exit.
pub proof fn lemma_target_is_unclaimed(
    width: int,
    height: int,
    first: Orientation,
    genes: Seq<PathGene>,
    k: int,
    j: int,
)
    requires
        valid_path(width, height, first, genes),
        0 <= j <= k <= genes.len(),
    ensures
        !route_leg_claims(
            width,
            height,
            first,
            genes,
            j,
            route_point(width, height, genes, k + 1).0,
            route_point(width, height, genes, k + 1).1,
        ),
    decreases genes.len() - k,
{
    let target = route_point(width, height, genes, k + 1);
    if route_leg_claims(width, height, first, genes, j, target.0, target.1) {
        if k == genes.len() {
            lemma_claimed_by(width, height, first, genes, genes.len() + 1, j, target.0, target.1);
        } else {
            let next = route_point(width, height, genes, k + 2);
            if target == next {
                lemma_target_is_unclaimed(width, height, first, genes, k + 1, j);
            } else {
                assert(leg_claims(first, target, next, target.0, target.1));
                assert(route_leg_claims(width, height, first, genes, k + 1, target.0, target.1));
                lemma_claimed_by(width, height, first, genes, (k + 1) as nat, j, target.0, target.1);
            }
        }
    }
}

/// On a valid route, a cell that leg `k` claims carries, after any
/// number of later legs, the direction in which leg `k` leaves it.
pub proof fn lemma_claimed_direction(
    grid: CellGrid,
    width: int,
    height: int,
    first: Orientation,
    genes: Seq<PathGene>,
    k: int,
    count: nat,
    x: int,
    y: int,
)
    requires
        grid_wf(grid, width, height),
        valid_path(width, height, first, genes),
        0 <= k < count <= genes.len() + 1,
        route_leg_claims(width, height, first, genes, k, x, y),
    ensures
        with_legs(grid, first, width, height, genes, count)[x][y].path_direction == leg_direction(
            first,
            route_point(width, height, genes, k),
            route_point(width, height, genes, k + 1),
            x,
            y,
        ),
    decreases count,
{
    let last = count - 1;
    let before = with_legs(grid, first, width, height, genes, last as nat);
    lemma_legs_shape(grid, width, height, first, genes, last as nat);
    lemma_route_in_grid(width, height, first, genes, k);
    lemma_route_in_grid(width, height, first, genes, last);
    lemma_route_in_grid(width, height, first, genes, last + 1);
    lemma_leg_directions(
        before,
        width,
        height,
        first,
        route_point(width, height, genes, last),
        route_point(width, height, genes, last + 1),
        x,
        y,
    );
    if k < last {
        lemma_claimed_direction(grid, width, height, first, genes, k, last as nat, x, y);
        lemma_claimed_by(width, height, first, genes, last as nat, k, x, y);
        assert(!route_leg_claims(width, height, first, genes, last, x, y));
        lemma_target_is_unclaimed(width, height, first, genes, last, k);
    }
}

/// The leg at which step `s` of a valid route is taken, and the number
/// of the step within that leg: leg `k` and step `t` with
/// `s == legs_length(k) + t` and `t` below the length of leg `k`. The
/// walk from the entrance stands, after `s` steps, at cell `t` of leg
/// `k`.
pub proof fn lemma_walk_follows_route(
    grid: CellGrid,
    width: int,
    height: int,
    first: Orientation,
    genes: Seq<PathGene>,
    s: nat,
) -> (place: (int, int))
    requires
        grid_wf(grid, width, height),
        valid_path(width, height, first, genes),
        forall|x: int, y: int|
            in_grid(width, height, x, y) ==> (#[trigger] grid[x][y]).path_direction == with_path(
                blank_grid(width, height),
                first,
                width,
                height,
                genes,
            )[x][y].path_direction,
        s < route_length(width, height, genes),
    ensures
        0 <= place.0 <= genes.len(),
        0 <= place.1 < leg_length(
            route_point(width, height, genes, place.0),
            route_point(width, height, genes, place.0 + 1),
        ),
        s == legs_length(width, height, genes, place.0 as nat) + place.1,
        walk(grid, 0, height - 1, s) == leg_cell(
            first,
            route_point(width, height, genes, place.0),
            route_point(width, height, genes, place.0 + 1),
            place.1,
        ),
    decreases s,
{
    if s == 0 {
        lemma_first_real_leg(width, height, genes, 0, 0)
    } else {
        let (k, t) = lemma_walk_follows_route(grid, width, height, first, genes, (s - 1) as nat);
        let a = route_point(width, height, genes, k);
        let b = route_point(width, height, genes, k + 1);
        let cell = leg_cell(first, a, b, t);
        lemma_leg_cells(first, a, b, t);
        assert(route_leg_claims(width, height, first, genes, k, cell.0, cell.1));
        lemma_route_in_grid(width, height, first, genes, k);
        lemma_claimed_direction(
            blank_grid(width, height),
            width,
            height,
            first,
            genes,
            k,
            genes.len() + 1,
            cell.0,
            cell.1,
        );
        assert(walk(grid, 0, height - 1, s) == leg_cell(first, a, b, t + 1));
        if t + 1 < leg_length(a, b) {
            (k, t + 1)
        } else {
            lemma_leg_cells(first, a, b, t + 1);
            lemma_legs_length_grows(width, height, genes, (k + 1) as nat, genes.len() + 1);
            lemma_first_real_leg(width, height, genes, k + 1, s)
        }
    }
}

/// The first leg from leg `k` on that has a step, when `s` steps have
/// been taken before leg `k` and the route is longer than `s`: the legs
/// between have no step, so it starts where leg `k` starts.
pub proof fn lemma_first_real_leg(width: int, height: int, genes: Seq<PathGene>, k: int, s: nat) -> (place: (
    int,
    int,
))
    requires
        0 <= k <= genes.len(),
        s == legs_length(width, height, genes, k as nat),
        s < route_length(width, height, genes),
    ensures
        k <= place.0 <= genes.len(),
        place.1 == 0,
        0 < leg_length(
            route_point(width, height, genes, place.0),
            route_point(width, height, genes, place.0 + 1),
        ),
        s == legs_length(width, height, genes, place.0 as nat),
        route_point(width, height, genes, place.0) == route_point(width, height, genes, k),
    decreases genes.len() - k,
{
    let a = route_point(width, height, genes, k);
    let b = route_point(width, height, genes, k + 1);
    if leg_length(a, b) > 0 {
        (k, 0)
    } else {
        assert(legs_length(width, height, genes, (k + 1) as nat) == legs_length(width, height, genes, k as nat));
        assert(a == b);
        lemma_first_real_leg(width, height, genes, k + 1, s)
    }
}

/// Where all legs from leg `k` on have no step, leg `k` starts at the
/// exit.
pub proof fn lemma_rest_without_steps(width: int, height: int, genes: Seq<PathGene>, k: int)
    requires
        0 <= k <= genes.len() + 1,
        legs_length(width, height, genes, k as nat) == route_length(width, height, genes),
    ensures
        route_point(width, height, genes, k) == (width - 1, 0int),
    decreases genes.len() + 1 - k,
{
    if k <= genes.len() {
        lemma_legs_length_grows(width, height, genes, (k + 1) as nat, genes.len() + 1);
        let a = route_point(width, height, genes, k);
        let b = route_point(width, height, genes, k + 1);
        assert(legs_length(width, height, genes, (k + 1) as nat) == legs_length(width, height, genes, k as nat)
            + leg_length(a, b));
        assert(a == b);
        lemma_rest_without_steps(width, height, genes, k + 1);
    }
}

/// On a valid route, the walk from the entrance along the directions of
/// the cells reaches the exit after exactly as many steps as the route
/// is long, and not before; on the way it stays in the grid.
///
/// `grid` is any grid that carries the directions of the carved path.
pub proof fn lemma_walk_reaches_exit(
    grid: CellGrid,
    width: int,
    height: int,
    first: Orientation,
    genes: Seq<PathGene>,
)
    requires
        grid_wf(grid, width, height),
        valid_path(width, height, first, genes),
        forall|x: int, y: int|
            in_grid(width, height, x, y) ==> (#[trigger] grid[x][y]).path_direction == with_path(
                blank_grid(width, height),
                first,
                width,
                height,
                genes,
            )[x][y].path_direction,
    ensures
        walk(grid, 0, height - 1, route_length(width, height, genes) as nat) == (width - 1, 0int),
        forall|s: nat|
            s < route_length(width, height, genes) ==> #[trigger] walk(grid, 0, height - 1, s) != (
                width - 1,
                0int,
            ) && in_grid(width, height, walk(grid, 0, height - 1, s).0, walk(grid, 0, height - 1, s).1),
        route_length(width, height, genes) >= 0,
{
    let length = route_length(width, height, genes);
    lemma_legs_length_grows(width, height, genes, 0, genes.len() + 1);
    assert forall|s: nat| s < length implies #[trigger] walk(grid, 0, height - 1, s) != (width - 1, 0int)
        && in_grid(width, height, walk(grid, 0, height - 1, s).0, walk(grid, 0, height - 1, s).1) by {
        let (k, t) = lemma_walk_follows_route(grid, width, height, first, genes, s);
        let a = route_point(width, height, genes, k);
        let b = route_point(width, height, genes, k + 1);
        lemma_leg_cells(first, a, b, t);
        let cell = leg_cell(first, a, b, t);
        assert(route_leg_claims(width, height, first, genes, k, cell.0, cell.1));
        lemma_route_in_grid(width, height, first, genes, k);
        if cell == (width - 1, 0int) {
            lemma_claimed_by(width, height, first, genes, genes.len() + 1, k, cell.0, cell.1);
        }
    }
    if length == 0 {
        lemma_rest_without_steps(width, height, genes, 0);
    } else {
        let (k, t) = lemma_walk_follows_route(grid, width, height, first, genes, (length - 1) as nat);
        let a = route_point(width, height, genes, k);
        let b = route_point(width, height, genes, k + 1);
        let cell = leg_cell(first, a, b, t);
        lemma_leg_cells(first, a, b, t);
        lemma_leg_cells(first, a, b, t + 1);
        assert(route_leg_claims(width, height, first, genes, k, cell.0, cell.1));
        lemma_route_in_grid(width, height, first, genes, k);
        lemma_claimed_direction(
            blank_grid(width, height),
            width,
            height,
            first,
            genes,
            k,
            genes.len() + 1,
            cell.0,
            cell.1,
        );
        assert(walk(grid, 0, height - 1, length as nat) == leg_cell(first, a, b, t + 1));
        lemma_legs_length_grows(width, height, genes, (k + 1) as nat, genes.len() + 1);
        assert(legs_length(width, height, genes, (k + 1) as nat) == legs_length(width, height, genes, k as nat)
            + leg_length(a, b));
        assert(t + 1 == leg_length(a, b));
        lemma_rest_without_steps(width, height, genes, k + 1);
    }
}

} // verus!
