//! A free rectangle stays in one piece when it is bisected: every
//! dividing wall has a gap.

use crate::maze::Orientation;
use crate::maze::connectivity::{
    connected, lemma_connected_one_more, lemma_connected_still, lemma_connected_through,
    lemma_connected_to_itself, passable,
};
use crate::maze::frame::{lemma_bisection_stays_inside, same_outside};
use crate::maze::grid::{grid_wf, in_grid, CellGrid};
use crate::maze::maze_genotype::WallGene;
use crate::maze::path::{between, gap};
use crate::maze::walls::{
    dividing_column, dividing_row, eastern_part, gap_column, gap_row, lemma_split, lower_part,
    upper_part, western_part, with_bisection, with_horizontal_divide, with_vertical_divide,
    MazeSubdivision,
};
use vstd::prelude::*;

verus! {

/// The cells of `rectangle`, as a region.
pub open spec fn inside(rectangle: MazeSubdivision) -> spec_fn(int, int) -> bool {
    |x: int, y: int| rectangle.contains(x, y)
}

/// No wall stands between two cells of `rectangle`.
pub open spec fn is_hollow(grid: CellGrid, rectangle: MazeSubdivision) -> bool {
    &&& forall|x: int, y: int|
        rectangle.contains(x, y) && rectangle.contains(x, y + 1) ==> !(#[trigger] grid[x][y]).north_wall
    &&& forall|x: int, y: int|
        rectangle.contains(x, y) && rectangle.contains(x + 1, y) ==> !(#[trigger] grid[x][y]).east_wall
}

/// Every cell of `rectangle` can be reached from every other without
/// leaving the rectangle.
pub open spec fn is_whole(grid: CellGrid, width: int, height: int, rectangle: MazeSubdivision) -> bool {
    forall|a: (int, int), b: (int, int)|
        rectangle.contains(a.0, a.1) && rectangle.contains(b.0, b.1) ==> #[trigger] connected(
            grid,
            width,
            height,
            inside(rectangle),
            a,
            b,
        )
}

/// In a rectangle without walls, every cell can be reached from every
/// other: first along the row, then along the column.
pub proof fn lemma_hollow_connects(
    grid: CellGrid,
    width: int,
    height: int,
    rectangle: MazeSubdivision,
    a: (int, int),
    b: (int, int),
)
    requires
        rectangle.fits(width, height),
        is_hollow(grid, rectangle),
        rectangle.contains(a.0, a.1),
        rectangle.contains(b.0, b.1),
    ensures
        connected(grid, width, height, inside(rectangle), a, b),
    decreases (if a.0 <= b.0 { b.0 - a.0 } else { a.0 - b.0 }) + (if a.1 <= b.1 { b.1 - a.1 } else { a.1 - b.1 }),
{
    let region = inside(rectangle);
    if a == b {
        lemma_connected_to_itself(grid, width, height, region, a);
    } else {
        // The cell before `b` on the way: one column nearer to `a`, or,
        // in the column of `a`, one row nearer.
        let before = if b.0 > a.0 {
            (b.0 - 1, b.1)
        } else if b.0 < a.0 {
            (b.0 + 1, b.1)
        } else if b.1 > a.1 {
            (b.0, b.1 - 1)
        } else {
            (b.0, b.1 + 1)
        };
        assert(rectangle.contains(before.0, before.1));
        lemma_hollow_connects(grid, width, height, rectangle, a, before);
        assert(passable(grid, width, height, before, b));
        lemma_connected_one_more(grid, width, height, region, a, before, b);
    }
}

/// A rectangle without walls is whole.
pub proof fn lemma_hollow_is_whole(grid: CellGrid, width: int, height: int, rectangle: MazeSubdivision)
    requires
        rectangle.fits(width, height),
        is_hollow(grid, rectangle),
    ensures
        is_whole(grid, width, height, rectangle),
{
    assert forall|a: (int, int), b: (int, int)|
        rectangle.contains(a.0, a.1) && rectangle.contains(b.0, b.1) implies #[trigger] connected(
        grid,
        width,
        height,
        inside(rectangle),
        a,
        b,
    ) by {
        lemma_hollow_connects(grid, width, height, rectangle, a, b);
    }
}

/// A change that stays inside a rectangle keeps every passage that does
/// not lie between two cells of the rectangle.
pub proof fn lemma_outside_passage_kept(
    before: CellGrid,
    after: CellGrid,
    width: int,
    height: int,
    changed: MazeSubdivision,
    c: (int, int),
    d: (int, int),
)
    requires
        same_outside(before, after, width, height, changed),
        !(changed.contains(c.0, c.1) && changed.contains(d.0, d.1)),
    ensures
        passable(before, width, height, c, d) == passable(after, width, height, c, d),
{
    if in_grid(width, height, c.0, c.1) && in_grid(width, height, d.0, d.1) {
        assert(after[c.0][c.1].north_wall == before[c.0][c.1].north_wall || changed.contains(c.0, c.1));
        assert(after[d.0][d.1].north_wall == before[d.0][d.1].north_wall || changed.contains(d.0, d.1));
    }
}

/// Two parts of a rectangle, each whole, with a passage between a cell
/// of the one and a cell of the other, make the rectangle whole.
pub proof fn lemma_parts_make_whole(
    grid: CellGrid,
    width: int,
    height: int,
    rectangle: MazeSubdivision,
    one: MazeSubdivision,
    other: MazeSubdivision,
    from: (int, int),
    to: (int, int),
)
    requires
        is_whole(grid, width, height, one),
        is_whole(grid, width, height, other),
        forall|x: int, y: int| rectangle.contains(x, y) <==> (one.contains(x, y) || other.contains(x, y)),
        one.contains(from.0, from.1),
        other.contains(to.0, to.1),
        passable(grid, width, height, from, to),
    ensures
        is_whole(grid, width, height, rectangle),
{
    let region = inside(rectangle);
    assert forall|a: (int, int), b: (int, int)|
        rectangle.contains(a.0, a.1) && rectangle.contains(b.0, b.1) implies #[trigger] connected(
        grid,
        width,
        height,
        region,
        a,
        b,
    ) by {
        // From `a` to the passage, through it if need be, and on to `b`.
        let first = if one.contains(a.0, a.1) {
            one
        } else {
            other
        };
        let second = if one.contains(b.0, b.1) {
            one
        } else {
            other
        };
        let near = if one.contains(a.0, a.1) {
            from
        } else {
            to
        };
        let far = if one.contains(b.0, b.1) {
            from
        } else {
            to
        };
        assert(connected(grid, width, height, inside(first), a, near));
        assert(connected(grid, width, height, inside(second), far, b));
        lemma_connected_still(grid, grid, width, height, inside(first), region, a, near);
        lemma_connected_still(grid, grid, width, height, inside(second), region, far, b);
        if near == far {
            lemma_connected_through(grid, width, height, region, a, near, b);
        } else {
            assert(passable(grid, width, height, near, far));
            lemma_connected_one_more(grid, width, height, region, a, near, far);
            lemma_connected_through(grid, width, height, region, a, far, b);
        }
    }
}

/// A whole rectangle stays whole when a change stays inside another
/// rectangle that shares no cell with it.
pub proof fn lemma_whole_kept(
    before: CellGrid,
    after: CellGrid,
    width: int,
    height: int,
    changed: MazeSubdivision,
    rectangle: MazeSubdivision,
)
    requires
        same_outside(before, after, width, height, changed),
        is_whole(before, width, height, rectangle),
        forall|x: int, y: int| rectangle.contains(x, y) ==> !changed.contains(x, y),
    ensures
        is_whole(after, width, height, rectangle),
{
    let region = inside(rectangle);
    assert forall|a: (int, int), b: (int, int)|
        rectangle.contains(a.0, a.1) && rectangle.contains(b.0, b.1) implies #[trigger] connected(
        after,
        width,
        height,
        region,
        a,
        b,
    ) by {
        assert(connected(before, width, height, region, a, b));
        assert forall|c: (int, int), d: (int, int)|
            region(c.0, c.1) && region(d.0, d.1) && #[trigger] passable(before, width, height, c, d) implies passable(
            after,
            width,
            height,
            c,
            d,
        ) by {
            lemma_outside_passage_kept(before, after, width, height, changed, c, d);
        }
        lemma_connected_still(before, after, width, height, region, region, a, b);
    }
}

/// A rectangle without walls is whole after its bisection: every
/// dividing wall has a gap.
pub proof fn lemma_bisection_keeps_whole(
    grid: CellGrid,
    width: int,
    height: int,
    rectangle: MazeSubdivision,
    gene_index: int,
    genes: Seq<WallGene>,
)
    requires
        grid_wf(grid, width, height),
        rectangle.fits(width, height),
        is_hollow(grid, rectangle),
    ensures
        is_whole(with_bisection(grid, rectangle, gene_index, genes), width, height, rectangle),
    decreases rectangle.width + rectangle.height,
{
    let r = rectangle;
    if r.width <= 1 || r.height <= 1 {
        lemma_hollow_is_whole(grid, width, height, r);
    } else {
        let gene = genes[gene_index];
        let next = (gene_index + 1) % (genes.len() as int);
        lemma_split(r, gene);
        match gene.orientation {
            Orientation::Horizontal => {
                let row = dividing_row(r, gene);
                let gap = gap_column(r, gene);
                let divided = with_horizontal_divide(grid, r, row, gap);
                let upper = upper_part(r, row);
                let lower = lower_part(r, row);
                assert(grid_wf(divided, width, height));
                assert(is_hollow(divided, upper));
                assert(is_hollow(divided, lower));
                lemma_bisection_keeps_whole(divided, width, height, upper, next, genes);
                lemma_bisection_stays_inside(divided, width, height, upper, next, genes);
                let halfway = with_bisection(divided, upper, next, genes);
                assert(is_hollow(halfway, lower));
                lemma_bisection_keeps_whole(halfway, width, height, lower, next, genes);
                lemma_bisection_stays_inside(halfway, width, height, lower, next, genes);
                let done = with_bisection(halfway, lower, next, genes);
                lemma_whole_kept(halfway, done, width, height, lower, upper);
                assert(!divided[gap][row - 1].north_wall);
                assert(!halfway[gap][row - 1].north_wall);
                assert(!done[gap][row - 1].north_wall);
                assert(passable(done, width, height, (gap, row), (gap, row - 1)));
                lemma_parts_make_whole(done, width, height, r, upper, lower, (gap, row), (gap, row - 1));
            },
            Orientation::Vertical => {
                let column = dividing_column(r, gene);
                let gap = gap_row(r, gene);
                let divided = with_vertical_divide(grid, r, column, gap);
                let western = western_part(r, column);
                let eastern = eastern_part(r, column);
                assert(grid_wf(divided, width, height));
                assert(is_hollow(divided, western));
                assert(is_hollow(divided, eastern));
                lemma_bisection_keeps_whole(divided, width, height, western, next, genes);
                lemma_bisection_stays_inside(divided, width, height, western, next, genes);
                let halfway = with_bisection(divided, western, next, genes);
                assert(is_hollow(halfway, eastern));
                lemma_bisection_keeps_whole(halfway, width, height, eastern, next, genes);
                lemma_bisection_stays_inside(halfway, width, height, eastern, next, genes);
                let done = with_bisection(halfway, eastern, next, genes);
                lemma_whole_kept(halfway, done, width, height, eastern, western);
                assert(!divided[column][gap].east_wall);
                assert(!halfway[column][gap].east_wall);
                assert(!done[column][gap].east_wall);
                assert(passable(done, width, height, (column, gap), (column + 1, gap)));
                lemma_parts_make_whole(
                    done,
                    width,
                    height,
                    r,
                    western,
                    eastern,
                    (column, gap),
                    (column + 1, gap),
                );
            },
        }
    }
}

} // verus!
