//! The path that a genome declares: from the entrance through the
//! waypoints to the exit, each leg an axis-aligned "L".

use crate::maze::grid::{grid_map, grid_wf, in_grid, with_cell, CellGrid, MazeCell};
use crate::maze::maze_genotype::PathGene;
use crate::maze::{Orientation, PathDirection};
use vstd::prelude::*;

verus! {

/// The `k`-th point of the route: the entrance `(0, height - 1)` for
/// `k == 0`, then the waypoints in order, then the exit `(width - 1, 0)`.
pub open spec fn route_point(width: int, height: int, genes: Seq<PathGene>, k: int) -> (int, int) {
    if k <= 0 {
        (0, height - 1)
    } else if k <= genes.len() {
        genes[k - 1].point()
    } else {
        (width - 1, 0)
    }
}

/// `v` lies between `a` and `b`, both included, whichever is larger.
pub open spec fn between(a: int, b: int, v: int) -> bool {
    (a <= v <= b) || (b <= v <= a)
}

/// The distance between `a` and `b`.
pub open spec fn gap(a: int, b: int) -> int {
    if a <= b {
        b - a
    } else {
        a - b
    }
}

/// The direction of a vertical segment from row `from_y` to row `to_y`;
/// a segment of one cell counts as going north.
pub open spec fn vertical_direction(from_y: int, to_y: int) -> PathDirection {
    if from_y <= to_y {
        PathDirection::North
    } else {
        PathDirection::South
    }
}

/// The direction of a horizontal segment from column `from_x` to column
/// `to_x`; a segment of one cell counts as going east.
pub open spec fn horizontal_direction(from_x: int, to_x: int) -> PathDirection {
    if from_x <= to_x {
        PathDirection::East
    } else {
        PathDirection::West
    }
}

/// `grid` with the direction of a vertical segment written into every
/// cell of column `x` from row `from_y` to row `to_y`, both included.
pub open spec fn with_vertical_segment(grid: CellGrid, x: int, from_y: int, to_y: int) -> CellGrid {
    grid_map(
        grid,
        |i: int, j: int, c: MazeCell|
            if i == x && between(from_y, to_y, j) {
                MazeCell { path_direction: vertical_direction(from_y, to_y), ..c }
            } else {
                c
            },
    )
}

/// `grid` with the direction of a horizontal segment written into every
/// cell of row `y` from column `from_x` to column `to_x`, both included.
pub open spec fn with_horizontal_segment(grid: CellGrid, y: int, from_x: int, to_x: int) -> CellGrid {
    grid_map(
        grid,
        |i: int, j: int, c: MazeCell|
            if j == y && between(from_x, to_x, i) {
                MazeCell { path_direction: horizontal_direction(from_x, to_x), ..c }
            } else {
                c
            },
    )
}

/// The cell at which the leg from `a` to `b` turns.
pub open spec fn leg_corner(first: Orientation, a: (int, int), b: (int, int)) -> (int, int) {
    match first {
        Orientation::Horizontal => (b.0, a.1),
        Orientation::Vertical => (a.0, b.1),
    }
}

/// `grid` after carving the leg from `a` to `b`.
///
/// The target is marked as a waypoint. The first segment runs along the
/// axis `first` and the second along the other; the second is written
/// last, so the corner carries its direction. Where the leg really turns,
/// the corner is marked as a juncture.
pub open spec fn with_leg(grid: CellGrid, first: Orientation, a: (int, int), b: (int, int)) -> CellGrid {
    let marked = with_cell(grid, b.0, b.1, MazeCell { is_waypoint: true, ..grid[b.0][b.1] });
    let carved = match first {
        Orientation::Horizontal => with_vertical_segment(
            with_horizontal_segment(marked, a.1, a.0, b.0),
            b.0,
            a.1,
            b.1,
        ),
        Orientation::Vertical => with_horizontal_segment(
            with_vertical_segment(marked, a.0, a.1, b.1),
            b.1,
            a.0,
            b.0,
        ),
    };
    if a.0 != b.0 && a.1 != b.1 {
        let corner = leg_corner(first, a, b);
        with_cell(
            carved,
            corner.0,
            corner.1,
            MazeCell { is_juncture: true, ..carved[corner.0][corner.1] },
        )
    } else {
        carved
    }
}

/// `grid` after carving the first `count` legs of the route.
pub open spec fn with_legs(
    grid: CellGrid,
    first: Orientation,
    width: int,
    height: int,
    genes: Seq<PathGene>,
    count: nat,
) -> CellGrid
    decreases count,
{
    if count == 0 {
        grid
    } else {
        with_leg(
            with_legs(grid, first, width, height, genes, (count - 1) as nat),
            first,
            route_point(width, height, genes, count - 1),
            route_point(width, height, genes, count as int),
        )
    }
}

/// `grid` after carving the whole route, entrance to exit.
pub open spec fn with_path(grid: CellGrid, first: Orientation, width: int, height: int, genes: Seq<PathGene>) -> CellGrid {
    with_legs(grid, first, width, height, genes, genes.len() + 1)
}

/// Every waypoint is a cell of the `width` by `height` grid.
pub open spec fn genes_in_grid(width: int, height: int, genes: Seq<PathGene>) -> bool {
    forall|k: int| 0 <= k < genes.len() ==> (#[trigger] genes[k]).x < width && genes[k].y < height
}

/// Replacing a cell keeps the shape of the grid and every other cell.
pub proof fn lemma_with_cell(grid: CellGrid, width: int, height: int, x: int, y: int, cell: MazeCell)
    requires
        grid_wf(grid, width, height),
    ensures
        grid_wf(with_cell(grid, x, y, cell), width, height),
        forall|i: int, j: int|
            in_grid(width, height, i, j) ==> #[trigger] with_cell(grid, x, y, cell)[i][j] == (if i == x && j == y {
                cell
            } else {
                grid[i][j]
            }),
{
}

/// A vertical segment keeps the shape of the grid and changes the
/// direction of its cells only.
pub proof fn lemma_vertical_segment(grid: CellGrid, width: int, height: int, x: int, from_y: int, to_y: int)
    requires
        grid_wf(grid, width, height),
    ensures
        grid_wf(with_vertical_segment(grid, x, from_y, to_y), width, height),
        forall|i: int, j: int|
            in_grid(width, height, i, j) ==> #[trigger] with_vertical_segment(grid, x, from_y, to_y)[i][j] == (if i
                == x && between(from_y, to_y, j) {
                MazeCell { path_direction: vertical_direction(from_y, to_y), ..grid[i][j] }
            } else {
                grid[i][j]
            }),
{
}

/// A horizontal segment keeps the shape of the grid and changes the
/// direction of its cells only.
pub proof fn lemma_horizontal_segment(grid: CellGrid, width: int, height: int, y: int, from_x: int, to_x: int)
    requires
        grid_wf(grid, width, height),
    ensures
        grid_wf(with_horizontal_segment(grid, y, from_x, to_x), width, height),
        forall|i: int, j: int|
            in_grid(width, height, i, j) ==> #[trigger] with_horizontal_segment(grid, y, from_x, to_x)[i][j] == (if j
                == y && between(from_x, to_x, i) {
                MazeCell { path_direction: horizontal_direction(from_x, to_x), ..grid[i][j] }
            } else {
                grid[i][j]
            }),
{
}

/// What carving a leg does to a cell: the target becomes a waypoint,
/// the corner of a leg that turns becomes a juncture, and the cells of
/// the two segments get their directions, the second segment last.
pub open spec fn leg_cell_after(
    cell: MazeCell,
    first: Orientation,
    a: (int, int),
    b: (int, int),
    x: int,
    y: int,
) -> MazeCell {
    let on_horizontal = between(a.0, b.0, x) && y == (match first {
        Orientation::Horizontal => a.1,
        Orientation::Vertical => b.1,
    });
    let on_vertical = between(a.1, b.1, y) && x == (match first {
        Orientation::Horizontal => b.0,
        Orientation::Vertical => a.0,
    });
    let direction = match first {
        Orientation::Horizontal => if on_vertical {
            vertical_direction(a.1, b.1)
        } else if on_horizontal {
            horizontal_direction(a.0, b.0)
        } else {
            cell.path_direction
        },
        Orientation::Vertical => if on_horizontal {
            horizontal_direction(a.0, b.0)
        } else if on_vertical {
            vertical_direction(a.1, b.1)
        } else {
            cell.path_direction
        },
    };
    MazeCell {
        path_direction: direction,
        is_waypoint: cell.is_waypoint || (x, y) == b,
        is_juncture: cell.is_juncture || (a.0 != b.0 && a.1 != b.1 && (x, y) == leg_corner(first, a, b)),
        ..cell
    }
}

/// Carving a leg keeps the shape of the grid.
pub proof fn lemma_with_leg_shape(
    grid: CellGrid,
    width: int,
    height: int,
    first: Orientation,
    a: (int, int),
    b: (int, int),
)
    requires
        grid_wf(grid, width, height),
    ensures
        grid_wf(with_leg(grid, first, a, b), width, height),
{
    let marked = with_cell(grid, b.0, b.1, MazeCell { is_waypoint: true, ..grid[b.0][b.1] });
    lemma_with_cell(grid, width, height, b.0, b.1, MazeCell { is_waypoint: true, ..grid[b.0][b.1] });
    let carved = match first {
        Orientation::Horizontal => {
            lemma_horizontal_segment(marked, width, height, a.1, a.0, b.0);
            lemma_vertical_segment(
                with_horizontal_segment(marked, a.1, a.0, b.0),
                width,
                height,
                b.0,
                a.1,
                b.1,
            );
            with_vertical_segment(with_horizontal_segment(marked, a.1, a.0, b.0), b.0, a.1, b.1)
        },
        Orientation::Vertical => {
            lemma_vertical_segment(marked, width, height, a.0, a.1, b.1);
            lemma_horizontal_segment(
                with_vertical_segment(marked, a.0, a.1, b.1),
                width,
                height,
                b.1,
                a.0,
                b.0,
            );
            with_horizontal_segment(with_vertical_segment(marked, a.0, a.1, b.1), b.1, a.0, b.0)
        },
    };
    let corner = leg_corner(first, a, b);
    lemma_with_cell(
        carved,
        width,
        height,
        corner.0,
        corner.1,
        MazeCell { is_juncture: true, ..carved[corner.0][corner.1] },
    );
}

/// `after` is `before` with the cells that satisfy `chosen` changed by
/// `change`.
pub open spec fn changed_where(
    before: CellGrid,
    after: CellGrid,
    width: int,
    height: int,
    chosen: spec_fn(int, int) -> bool,
    change: spec_fn(MazeCell) -> MazeCell,
) -> bool {
    forall|i: int, j: int|
        in_grid(width, height, i, j) ==> #[trigger] after[i][j] == (if chosen(i, j) {
            change(before[i][j])
        } else {
            before[i][j]
        })
}

/// The four steps of carving a leg, taken one after the other, change
/// every cell as `leg_cell_after` says.
proof fn lemma_leg_steps(
    grid: CellGrid,
    marked: CellGrid,
    halfway: CellGrid,
    carved: CellGrid,
    turned: CellGrid,
    width: int,
    height: int,
    first: Orientation,
    a: (int, int),
    b: (int, int),
)
    requires
        changed_where(
            grid,
            marked,
            width,
            height,
            |i: int, j: int| i == b.0 && j == b.1,
            |c: MazeCell| MazeCell { is_waypoint: true, ..c },
        ),
        first == Orientation::Horizontal ==> changed_where(
            marked,
            halfway,
            width,
            height,
            |i: int, j: int| j == a.1 && between(a.0, b.0, i),
            |c: MazeCell| MazeCell { path_direction: horizontal_direction(a.0, b.0), ..c },
        ) && changed_where(
            halfway,
            carved,
            width,
            height,
            |i: int, j: int| i == b.0 && between(a.1, b.1, j),
            |c: MazeCell| MazeCell { path_direction: vertical_direction(a.1, b.1), ..c },
        ),
        first == Orientation::Vertical ==> changed_where(
            marked,
            halfway,
            width,
            height,
            |i: int, j: int| i == a.0 && between(a.1, b.1, j),
            |c: MazeCell| MazeCell { path_direction: vertical_direction(a.1, b.1), ..c },
        ) && changed_where(
            halfway,
            carved,
            width,
            height,
            |i: int, j: int| j == b.1 && between(a.0, b.0, i),
            |c: MazeCell| MazeCell { path_direction: horizontal_direction(a.0, b.0), ..c },
        ),
        changed_where(
            carved,
            turned,
            width,
            height,
            |i: int, j: int| a.0 != b.0 && a.1 != b.1 && (i, j) == leg_corner(first, a, b),
            |c: MazeCell| MazeCell { is_juncture: true, ..c },
        ),
    ensures
        forall|i: int, j: int|
            in_grid(width, height, i, j) ==> #[trigger] turned[i][j] == leg_cell_after(grid[i][j], first, a, b, i, j),
{
    assert forall|i: int, j: int| in_grid(width, height, i, j) implies #[trigger] turned[i][j] == leg_cell_after(
        grid[i][j],
        first,
        a,
        b,
        i,
        j,
    ) by {
        let c0 = grid[i][j];
        let c1 = marked[i][j];
        let c2 = halfway[i][j];
        let c3 = carved[i][j];
        let c4 = turned[i][j];
        assert(c1.path_direction == c0.path_direction);
        assert(c4.path_direction == c3.path_direction);
    }
}

/// Carving a leg keeps the shape of the grid and changes every cell as
/// `leg_cell_after` says.
pub proof fn lemma_with_leg(grid: CellGrid, width: int, height: int, first: Orientation, a: (int, int), b: (int, int))
    requires
        grid_wf(grid, width, height),
        in_grid(width, height, a.0, a.1),
        in_grid(width, height, b.0, b.1),
    ensures
        grid_wf(with_leg(grid, first, a, b), width, height),
        forall|i: int, j: int|
            in_grid(width, height, i, j) ==> #[trigger] with_leg(grid, first, a, b)[i][j] == leg_cell_after(
                grid[i][j],
                first,
                a,
                b,
                i,
                j,
            ),
{
    lemma_with_leg_shape(grid, width, height, first, a, b);
    let target = MazeCell { is_waypoint: true, ..grid[b.0][b.1] };
    let marked = with_cell(grid, b.0, b.1, target);
    lemma_with_cell(grid, width, height, b.0, b.1, target);
    let halfway = match first {
        Orientation::Horizontal => with_horizontal_segment(marked, a.1, a.0, b.0),
        Orientation::Vertical => with_vertical_segment(marked, a.0, a.1, b.1),
    };
    let carved = match first {
        Orientation::Horizontal => with_vertical_segment(halfway, b.0, a.1, b.1),
        Orientation::Vertical => with_horizontal_segment(halfway, b.1, a.0, b.0),
    };
    match first {
        Orientation::Horizontal => {
            lemma_horizontal_segment(marked, width, height, a.1, a.0, b.0);
            lemma_vertical_segment(halfway, width, height, b.0, a.1, b.1);
        },
        Orientation::Vertical => {
            lemma_vertical_segment(marked, width, height, a.0, a.1, b.1);
            lemma_horizontal_segment(halfway, width, height, b.1, a.0, b.0);
        },
    }
    let corner = leg_corner(first, a, b);
    let turned = with_leg(grid, first, a, b);
    if a.0 != b.0 && a.1 != b.1 {
        lemma_with_cell(
            carved,
            width,
            height,
            corner.0,
            corner.1,
            MazeCell { is_juncture: true, ..carved[corner.0][corner.1] },
        );
    }
    lemma_leg_steps(grid, marked, halfway, carved, turned, width, height, first, a, b);
}

/// The leg from `a` to `b` claims the cell `(x, y)`: the cell lies on one
/// of its two segments and is not the last cell of that segment. The
/// claims of a leg are the cells that the path leaves while travelling
/// along it; the target `b` is left for the next leg to claim.
pub open spec fn leg_claims(first: Orientation, a: (int, int), b: (int, int), x: int, y: int) -> bool {
    match first {
        Orientation::Horizontal => (y == a.1 && between(a.0, b.0, x) && x != b.0) || (x == b.0 && between(
            a.1,
            b.1,
            y,
        ) && y != b.1),
        Orientation::Vertical => (x == a.0 && between(a.1, b.1, y) && y != b.1) || (y == b.1 && between(
            a.0,
            b.0,
            x,
        ) && x != b.0),
    }
}

/// The direction in which the leg from `a` to `b` leaves the cell
/// `(x, y)`, which it claims.
pub open spec fn leg_direction(first: Orientation, a: (int, int), b: (int, int), x: int, y: int) -> PathDirection {
    match first {
        Orientation::Horizontal => if x != b.0 {
            horizontal_direction(a.0, b.0)
        } else {
            vertical_direction(a.1, b.1)
        },
        Orientation::Vertical => if y != b.1 {
            vertical_direction(a.1, b.1)
        } else {
            horizontal_direction(a.0, b.0)
        },
    }
}

/// What replaying the leg from `a` to `b` on a scratch grid does to a
/// cell: a cell that the leg claims gets the direction in which the leg
/// leaves it, the target becomes a waypoint, and the corner of a leg
/// that turns becomes a juncture.
pub open spec fn replayed_cell(cell: MazeCell, first: Orientation, a: (int, int), b: (int, int), x: int, y: int) -> MazeCell {
    MazeCell {
        path_direction: if leg_claims(first, a, b, x, y) {
            leg_direction(first, a, b, x, y)
        } else {
            cell.path_direction
        },
        is_waypoint: cell.is_waypoint || (x, y) == b,
        is_juncture: cell.is_juncture || (a.0 != b.0 && a.1 != b.1 && (x, y) == leg_corner(first, a, b)),
        ..cell
    }
}

/// `grid` after the leg from `a` to `b` has been replayed on it.
pub open spec fn with_replayed_leg(grid: CellGrid, first: Orientation, a: (int, int), b: (int, int)) -> CellGrid {
    grid_map(grid, |x: int, y: int, c: MazeCell| replayed_cell(c, first, a, b, x, y))
}

/// `grid` after the first `count` legs of the route have been replayed
/// on it.
pub open spec fn with_replayed_legs(
    grid: CellGrid,
    first: Orientation,
    width: int,
    height: int,
    genes: Seq<PathGene>,
    count: nat,
) -> CellGrid
    decreases count,
{
    if count == 0 {
        grid
    } else {
        with_replayed_leg(
            with_replayed_legs(grid, first, width, height, genes, (count - 1) as nat),
            first,
            route_point(width, height, genes, count - 1),
            route_point(width, height, genes, count as int),
        )
    }
}

/// The scratch grid of a route that has been replayed in full: every
/// leg on a blank grid, and the exit, which no leg claims, marked as
/// left southwards.
pub open spec fn replayed_route(width: int, height: int, first: Orientation, genes: Seq<PathGene>) -> CellGrid {
    let legs = with_replayed_legs(crate::maze::grid::blank_grid(width, height), first, width, height, genes, genes.len() + 1);
    with_cell(
        legs,
        width - 1,
        0,
        MazeCell { path_direction: PathDirection::South, ..legs[width - 1][0] },
    )
}

/// The steps of replaying a leg, taken one after the other, change every
/// cell as `replayed_cell` says.
pub proof fn lemma_replay_steps(
    grid: CellGrid,
    marked: CellGrid,
    halfway: CellGrid,
    carved: CellGrid,
    turned: CellGrid,
    width: int,
    height: int,
    first: Orientation,
    a: (int, int),
    b: (int, int),
)
    requires
        changed_where(
            grid,
            marked,
            width,
            height,
            |i: int, j: int| i == b.0 && j == b.1,
            |c: MazeCell| MazeCell { is_waypoint: true, ..c },
        ),
        first == Orientation::Horizontal ==> changed_where(
            marked,
            halfway,
            width,
            height,
            |i: int, j: int| j == a.1 && between(a.0, b.0, i) && i != b.0,
            |c: MazeCell| MazeCell { path_direction: horizontal_direction(a.0, b.0), ..c },
        ) && changed_where(
            halfway,
            carved,
            width,
            height,
            |i: int, j: int| i == b.0 && between(a.1, b.1, j) && j != b.1,
            |c: MazeCell| MazeCell { path_direction: vertical_direction(a.1, b.1), ..c },
        ),
        first == Orientation::Vertical ==> changed_where(
            marked,
            halfway,
            width,
            height,
            |i: int, j: int| i == a.0 && between(a.1, b.1, j) && j != b.1,
            |c: MazeCell| MazeCell { path_direction: vertical_direction(a.1, b.1), ..c },
        ) && changed_where(
            halfway,
            carved,
            width,
            height,
            |i: int, j: int| j == b.1 && between(a.0, b.0, i) && i != b.0,
            |c: MazeCell| MazeCell { path_direction: horizontal_direction(a.0, b.0), ..c },
        ),
        changed_where(
            carved,
            turned,
            width,
            height,
            |i: int, j: int| a.0 != b.0 && a.1 != b.1 && (i, j) == leg_corner(first, a, b),
            |c: MazeCell| MazeCell { is_juncture: true, ..c },
        ),
    ensures
        forall|i: int, j: int|
            in_grid(width, height, i, j) ==> #[trigger] turned[i][j] == replayed_cell(grid[i][j], first, a, b, i, j),
{
    assert forall|i: int, j: int| in_grid(width, height, i, j) implies #[trigger] turned[i][j] == replayed_cell(
        grid[i][j],
        first,
        a,
        b,
        i,
        j,
    ) by {
        let c0 = grid[i][j];
        let c1 = marked[i][j];
        let c2 = halfway[i][j];
        let c3 = carved[i][j];
        let c4 = turned[i][j];
        assert(c1.path_direction == c0.path_direction);
        assert(c4.path_direction == c3.path_direction);
    }
}

/// On a grid that starts blank, the cells with a direction after
/// `count` legs have been replayed are the cells that these legs claim.
pub proof fn lemma_replayed_directions(
    width: int,
    height: int,
    first: Orientation,
    genes: Seq<PathGene>,
    count: nat,
)
    requires
        width >= 1,
        height >= 1,
        genes_in_grid(width, height, genes),
    ensures
        grid_wf(
            with_replayed_legs(crate::maze::grid::blank_grid(width, height), first, width, height, genes, count),
            width,
            height,
        ),
        forall|x: int, y: int|
            in_grid(width, height, x, y) ==> ((#[trigger] with_replayed_legs(
                crate::maze::grid::blank_grid(width, height),
                first,
                width,
                height,
                genes,
                count,
            )[x][y]).path_direction != PathDirection::Unset <==> claimed(width, height, first, genes, count, x, y)),
    decreases count,
{
    let blank = crate::maze::grid::blank_grid(width, height);
    if count == 0 {
        assert(grid_wf(blank, width, height));
    } else {
        lemma_replayed_directions(width, height, first, genes, (count - 1) as nat);
        let before = with_replayed_legs(blank, first, width, height, genes, (count - 1) as nat);
        let a = route_point(width, height, genes, count - 1);
        let b = route_point(width, height, genes, count as int);
        let after = with_replayed_leg(before, first, a, b);
        assert(grid_wf(after, width, height));
        assert forall|x: int, y: int| in_grid(width, height, x, y) implies ((#[trigger] after[x][y]).path_direction
            != PathDirection::Unset <==> claimed(width, height, first, genes, count, x, y)) by {
            assert(after[x][y] == replayed_cell(before[x][y], first, a, b, x, y));
            assert(route_leg_claims(width, height, first, genes, count - 1, x, y) == leg_claims(first, a, b, x, y));
        }
    }
}

/// Leg `k` of the route claims the cell `(x, y)`.
pub open spec fn route_leg_claims(
    width: int,
    height: int,
    first: Orientation,
    genes: Seq<PathGene>,
    k: int,
    x: int,
    y: int,
) -> bool {
    leg_claims(first, route_point(width, height, genes, k), route_point(width, height, genes, k + 1), x, y)
}

/// One of the first `count` legs of the route claims the cell `(x, y)`.
pub open spec fn claimed(
    width: int,
    height: int,
    first: Orientation,
    genes: Seq<PathGene>,
    count: nat,
    x: int,
    y: int,
) -> bool
    decreases count,
{
    count > 0 && (claimed(width, height, first, genes, (count - 1) as nat, x, y) || route_leg_claims(
        width,
        height,
        first,
        genes,
        count - 1,
        x,
        y,
    ))
}

/// The route visits no cell twice: the waypoints lie in the grid, no leg
/// claims a cell that an earlier leg has claimed, and no leg claims the
/// exit.
pub open spec fn valid_path(width: int, height: int, first: Orientation, genes: Seq<PathGene>) -> bool {
    &&& width >= 1
    &&& height >= 1
    &&& genes_in_grid(width, height, genes)
    &&& forall|k: int, x: int, y: int|
        0 <= k <= genes.len() && #[trigger] route_leg_claims(width, height, first, genes, k, x, y) ==> !claimed(
            width,
            height,
            first,
            genes,
            k as nat,
            x,
            y,
        )
    &&& !claimed(width, height, first, genes, genes.len() + 1, width - 1, 0)
}

/// The cells of the route in the grid: every point of the route lies in
/// it, and so does every cell that a leg claims.
pub proof fn lemma_route_in_grid(width: int, height: int, first: Orientation, genes: Seq<PathGene>, k: int)
    requires
        width >= 1,
        height >= 1,
        genes_in_grid(width, height, genes),
    ensures
        in_grid(width, height, route_point(width, height, genes, k).0, route_point(width, height, genes, k).1),
        forall|x: int, y: int| #[trigger]
            route_leg_claims(width, height, first, genes, k, x, y) ==> in_grid(width, height, x, y),
{
    let a = route_point(width, height, genes, k);
    let b = route_point(width, height, genes, k + 1);
    assert(in_grid(width, height, a.0, a.1));
    assert(in_grid(width, height, b.0, b.1));
}

/// A cell that one of the first `count` legs claims is claimed by a leg
/// with an index below `count`, and that leg is returned.
pub proof fn lemma_claiming_leg(
    width: int,
    height: int,
    first: Orientation,
    genes: Seq<PathGene>,
    count: nat,
    x: int,
    y: int,
) -> (k: int)
    requires
        claimed(width, height, first, genes, count, x, y),
    ensures
        0 <= k < count,
        route_leg_claims(width, height, first, genes, k, x, y),
    decreases count,
{
    if route_leg_claims(width, height, first, genes, count - 1, x, y) {
        count - 1
    } else {
        lemma_claiming_leg(width, height, first, genes, (count - 1) as nat, x, y)
    }
}

/// A cell that leg `k` claims counts as claimed among the first `count`
/// legs for every `count` above `k`.
pub proof fn lemma_claimed_by(
    width: int,
    height: int,
    first: Orientation,
    genes: Seq<PathGene>,
    count: nat,
    k: int,
    x: int,
    y: int,
)
    requires
        0 <= k < count,
        route_leg_claims(width, height, first, genes, k, x, y),
    ensures
        claimed(width, height, first, genes, count, x, y),
    decreases count,
{
    if k < count - 1 {
        lemma_claimed_by(width, height, first, genes, (count - 1) as nat, k, x, y);
    }
}

/// What a leg claims once the grid has grown by a row and a column: what
/// it claimed before, or a cell of the new top row (the first leg), or a
/// cell of the new east column or the former exit (the last leg).
pub proof fn lemma_grown_claims(
    width: int,
    height: int,
    first: Orientation,
    genes: Seq<PathGene>,
    k: int,
    x: int,
    y: int,
)
    requires
        width >= 1,
        height >= 1,
        genes_in_grid(width, height, genes),
        0 <= k <= genes.len(),
        route_leg_claims(width + 1, height + 1, first, genes, k, x, y),
    ensures
        route_leg_claims(width, height, first, genes, k, x, y) || (k == 0 && y == height && (genes.len() >= 1
            ==> x < width)) || (k == genes.len() && (x == width || (x == width - 1 && y == 0))),
        !(x == width && y == 0),
{
    let a = route_point(width, height, genes, k);
    let b = route_point(width, height, genes, k + 1);
    assert(in_grid(width, height, a.0, a.1));
    assert(in_grid(width, height, b.0, b.1));
}

/// Growing the grid by a row and a column keeps a valid path valid.
pub proof fn lemma_growth_keeps_valid(width: int, height: int, first: Orientation, genes: Seq<PathGene>)
    requires
        valid_path(width, height, first, genes),
    ensures
        valid_path(width + 1, height + 1, first, genes),
{
    let n = genes.len() as int;
    assert forall|k: int, x: int, y: int|
        0 <= k <= genes.len() && #[trigger] route_leg_claims(
            width + 1,
            height + 1,
            first,
            genes,
            k,
            x,
            y,
        ) implies !claimed(width + 1, height + 1, first, genes, k as nat, x, y) by {
        if claimed(width + 1, height + 1, first, genes, k as nat, x, y) {
            let j = lemma_claiming_leg(width + 1, height + 1, first, genes, k as nat, x, y);
            lemma_grown_claims(width, height, first, genes, k, x, y);
            lemma_grown_claims(width, height, first, genes, j, x, y);
            lemma_route_in_grid(width, height, first, genes, k);
            lemma_route_in_grid(width, height, first, genes, j);
            if route_leg_claims(width, height, first, genes, j, x, y) {
                lemma_claimed_by(width, height, first, genes, k as nat, j, x, y);
                lemma_claimed_by(width, height, first, genes, (n + 1) as nat, j, x, y);
            }
            if route_leg_claims(width, height, first, genes, k, x, y) {
                lemma_claimed_by(width, height, first, genes, (n + 1) as nat, k, x, y);
            }
            assert(false);
        }
    }
    if claimed(width + 1, height + 1, first, genes, (n + 1) as nat, width, 0) {
        let j = lemma_claiming_leg(width + 1, height + 1, first, genes, (n + 1) as nat, width, 0);
        lemma_grown_claims(width, height, first, genes, j, width, 0);
        assert(false);
    }
}

} // verus!
