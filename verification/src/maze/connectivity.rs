//! Ways through a maze: which cells can be reached from which without
//! passing a wall.

use crate::maze::grid::{in_grid, CellGrid};
use vstd::prelude::*;

verus! {

/// The cells `a` and `b` are neighbours in the grid, and no wall stands
/// between them. The wall between two cells is read from the western or
/// southern of the two: its east or north wall.
pub open spec fn passable(grid: CellGrid, width: int, height: int, a: (int, int), b: (int, int)) -> bool {
    &&& in_grid(width, height, a.0, a.1)
    &&& in_grid(width, height, b.0, b.1)
    &&& {
        ||| (b.0 == a.0 && b.1 == a.1 + 1 && !grid[a.0][a.1].north_wall)
        ||| (b.0 == a.0 && a.1 == b.1 + 1 && !grid[b.0][b.1].north_wall)
        ||| (b.1 == a.1 && b.0 == a.0 + 1 && !grid[a.0][a.1].east_wall)
        ||| (b.1 == a.1 && a.0 == b.0 + 1 && !grid[b.0][b.1].east_wall)
    }
}

/// `way` is a way through cells of `region`: each of its cells lies in
/// the grid and in the region, and each is a passable neighbour of the
/// next.
pub open spec fn is_way(
    grid: CellGrid,
    width: int,
    height: int,
    region: spec_fn(int, int) -> bool,
    way: Seq<(int, int)>,
) -> bool {
    &&& way.len() >= 1
    &&& forall|i: int|
        0 <= i < way.len() ==> in_grid(width, height, (#[trigger] way[i]).0, way[i].1) && region(
            way[i].0,
            way[i].1,
        )
    &&& forall|i: int, j: int|
        0 <= i && j == i + 1 && j < way.len() ==> passable(grid, width, height, #[trigger] way[i], #[trigger] way[j])
}

/// `way` is a way from `a` to `b` through cells of `region`.
pub open spec fn leads(
    grid: CellGrid,
    width: int,
    height: int,
    region: spec_fn(int, int) -> bool,
    way: Seq<(int, int)>,
    a: (int, int),
    b: (int, int),
) -> bool {
    is_way(grid, width, height, region, way) && way[0] == a && way[way.len() - 1] == b
}

/// The cell `b` can be reached from the cell `a` through cells of
/// `region`.
pub open spec fn connected(
    grid: CellGrid,
    width: int,
    height: int,
    region: spec_fn(int, int) -> bool,
    a: (int, int),
    b: (int, int),
) -> bool {
    exists|way: Seq<(int, int)>| #[trigger] leads(grid, width, height, region, way, a, b)
}

/// A cell of the region is connected to itself.
pub proof fn lemma_connected_to_itself(
    grid: CellGrid,
    width: int,
    height: int,
    region: spec_fn(int, int) -> bool,
    a: (int, int),
)
    requires
        in_grid(width, height, a.0, a.1),
        region(a.0, a.1),
    ensures
        connected(grid, width, height, region, a, a),
{
    assert(leads(grid, width, height, region, seq![a], a, a));
}

/// A way goes on by one step to a passable neighbour in the region.
pub proof fn lemma_connected_one_more(
    grid: CellGrid,
    width: int,
    height: int,
    region: spec_fn(int, int) -> bool,
    a: (int, int),
    b: (int, int),
    c: (int, int),
)
    requires
        connected(grid, width, height, region, a, b),
        passable(grid, width, height, b, c),
        region(c.0, c.1),
    ensures
        connected(grid, width, height, region, a, c),
{
    let way = choose|way: Seq<(int, int)>| #[trigger] leads(grid, width, height, region, way, a, b);
    let longer = way.push(c);
    assert forall|i: int, j: int| 0 <= i && j == i + 1 && j < longer.len() implies passable(
        grid,
        width,
        height,
        #[trigger] longer[i],
        #[trigger] longer[j],
    ) by {
        assert(longer[i] == way[i]);
        if j < way.len() {
            assert(longer[j] == way[j]);
        }
    }
    assert forall|i: int| 0 <= i < longer.len() implies in_grid(width, height, (#[trigger] longer[i]).0, longer[i].1)
        && region(longer[i].0, longer[i].1) by {
        if i < way.len() {
            assert(longer[i] == way[i]);
        }
    }
    assert(leads(grid, width, height, region, longer, a, c));
}

/// Two ways that meet make one way.
pub proof fn lemma_connected_through(
    grid: CellGrid,
    width: int,
    height: int,
    region: spec_fn(int, int) -> bool,
    a: (int, int),
    b: (int, int),
    c: (int, int),
)
    requires
        connected(grid, width, height, region, a, b),
        connected(grid, width, height, region, b, c),
    ensures
        connected(grid, width, height, region, a, c),
{
    let first = choose|way: Seq<(int, int)>| #[trigger] leads(grid, width, height, region, way, a, b);
    let second = choose|way: Seq<(int, int)>| #[trigger] leads(grid, width, height, region, way, b, c);
    let whole = first.drop_last() + second;
    assert forall|i: int| 0 <= i < whole.len() implies in_grid(width, height, (#[trigger] whole[i]).0, whole[i].1)
        && region(whole[i].0, whole[i].1) by {
        if i < first.len() - 1 {
            assert(whole[i] == first[i]);
        } else {
            assert(whole[i] == second[i - (first.len() - 1)]);
        }
    }
    assert forall|i: int, j: int| 0 <= i && j == i + 1 && j < whole.len() implies passable(
        grid,
        width,
        height,
        #[trigger] whole[i],
        #[trigger] whole[j],
    ) by {
        if i < first.len() - 1 {
            assert(whole[i] == first[i]);
            if j < first.len() - 1 {
                assert(whole[j] == first[j]);
            } else {
                assert(whole[j] == second[0]);
                assert(first[j] == b);
            }
        } else {
            assert(whole[i] == second[i - (first.len() - 1)]);
            assert(whole[j] == second[j - (first.len() - 1)]);
        }
    }
    if first.len() == 1 {
        assert(whole[0] == second[0]);
    } else {
        assert(whole[0] == first[0]);
    }
    assert(whole[whole.len() - 1] == second[second.len() - 1]);
    assert(leads(grid, width, height, region, whole, a, c));
}

/// A way stays a way where the region grows and where no wall comes to
/// stand between two cells of the old region.
pub proof fn lemma_connected_still(
    before: CellGrid,
    after: CellGrid,
    width: int,
    height: int,
    region: spec_fn(int, int) -> bool,
    larger: spec_fn(int, int) -> bool,
    a: (int, int),
    b: (int, int),
)
    requires
        connected(before, width, height, region, a, b),
        forall|x: int, y: int| #[trigger] region(x, y) ==> larger(x, y),
        forall|c: (int, int), d: (int, int)|
            region(c.0, c.1) && region(d.0, d.1) && #[trigger] passable(before, width, height, c, d) ==> passable(
                after,
                width,
                height,
                c,
                d,
            ),
    ensures
        connected(after, width, height, larger, a, b),
{
    let way = choose|way: Seq<(int, int)>| #[trigger] leads(before, width, height, region, way, a, b);
    assert forall|i: int, j: int| 0 <= i && j == i + 1 && j < way.len() implies passable(
        after,
        width,
        height,
        #[trigger] way[i],
        #[trigger] way[j],
    ) by {
        assert(passable(before, width, height, way[i], way[j]));
    }
    assert(leads(after, width, height, larger, way, a, b));
}

} // verus!
