//! The validator: a replay of path carving on a scratch grid that tells
//! whether a route visits a cell twice.

use crate::maze::grid::{blank_grid, in_grid, CellGrid, MazeCell};
use crate::maze::maze_genotype::PathGene;
use crate::maze::maze_phenotype::MazePhenotype;
use crate::maze::path::{
    between, changed_where, claimed, genes_in_grid, horizontal_direction, leg_claims,
    lemma_replay_steps, lemma_replayed_directions, lemma_route_in_grid, replayed_route,
    route_leg_claims, route_point, valid_path, vertical_direction, with_replayed_leg,
    with_replayed_legs,
};
use crate::maze::{Orientation, PathDirection};
use vstd::prelude::*;

verus! {

/// A scratch grid on which a route is replayed leg by leg.
///
/// Each leg claims the cells that it leaves; a leg that reaches a cell
/// which is already claimed makes the route invalid.
#[derive(Debug)]
pub struct MazeValidator {
    pub width: u32,
    pub height: u32,
    pub first_direction: Orientation,
    /// The scratch grid: a cell has a direction once a leg has claimed it.
    pub maze: MazePhenotype,
}

/// No cell of `grid` that satisfies `claim` has a direction yet.
pub open spec fn claim_is_fresh(grid: CellGrid, width: int, height: int, claim: spec_fn(int, int) -> bool) -> bool {
    forall|i: int, j: int|
        in_grid(width, height, i, j) && claim(i, j) ==> (#[trigger] grid[i][j]).path_direction
            == PathDirection::Unset
}

impl MazeValidator {
    /// The scratch grid has the validator's dimensions.
    pub open spec fn wf(&self) -> bool {
        &&& self.maze.wf()
        &&& self.maze.width == self.width
        &&& self.maze.height == self.height
        &&& self.maze.first_direction == self.first_direction
    }

    /// `self` is well formed and has the dimensions and first direction
    /// of `other`.
    pub open spec fn same_frame(&self, other: &MazeValidator) -> bool {
        &&& self.wf()
        &&& self.width == other.width
        &&& self.height == other.height
        &&& self.first_direction == other.first_direction
    }

    /// The validator on whose grid the route through `path_genes` has
    /// been replayed. The grid of a valid route shows the route: every
    /// cell of it has the direction in which the route leaves it.
    pub fn new(width: u32, height: u32, first_direction: Orientation, path_genes: &Vec<PathGene>) -> (validator:
        MazeValidator)
        requires
            width >= 1,
            height >= 1,
            genes_in_grid(width as int, height as int, path_genes@),
        ensures
            validator.wf(),
            validator.width == width,
            validator.height == height,
            validator.first_direction == first_direction,
            valid_path(width as int, height as int, first_direction, path_genes@) ==> validator.maze@
                == replayed_route(width as int, height as int, first_direction, path_genes@),
    {
        let mut validator = MazeValidator {
            width,
            height,
            first_direction,
            maze: MazePhenotype::blank(width, height, first_direction),
        };
        let _ = validator.add_path(path_genes);
        validator
    }

    /// Whether the route through `path_genes` on a `width` by `height`
    /// grid visits no cell twice.
    pub fn validate_new_path(
        width: u32,
        height: u32,
        first_direction: Orientation,
        path_genes: &Vec<PathGene>,
    ) -> (valid: bool)
        ensures
            valid == valid_path(width as int, height as int, first_direction, path_genes@),
    {
        if width < 1 || height < 1 {
            return false;
        }
        let mut k: usize = 0;
        while k < path_genes.len()
            invariant
                k <= path_genes@.len(),
                forall|n: int| 0 <= n < k ==> (#[trigger] path_genes@[n]).x < width && path_genes@[n].y < height,
            decreases path_genes@.len() - k,
        {
            if path_genes[k].x >= width || path_genes[k].y >= height {
                return false;
            }
            k += 1;
        }
        let mut validator = MazeValidator {
            width,
            height,
            first_direction,
            maze: MazePhenotype::blank(width, height, first_direction),
        };
        validator.add_path(path_genes)
    }

    /// The cell at `(x, y)` of the scratch grid.
    pub fn get_cell_at(&self, x: u32, y: u32) -> (cell: MazeCell)
        requires
            self.wf(),
            x < self.width,
            y < self.height,
        ensures
            cell == self.maze@[x as int][y as int],
    {
        self.maze.get_cell_at(x, y)
    }

    /// Marks or unmarks `(x, y)` as a corner of the route.
    pub fn update_cell_is_juncture(&mut self, x: u32, y: u32, is_juncture: bool)
        requires
            old(self).wf(),
            x < old(self).width,
            y < old(self).height,
        ensures
            final(self).same_frame(old(self)),
            forall|i: int, j: int|
                in_grid(old(self).width as int, old(self).height as int, i, j) ==> #[trigger] final(self).maze@[i][j]
                    == (if i == x && j == y {
                    MazeCell { is_juncture, ..old(self).maze@[i][j] }
                } else {
                    old(self).maze@[i][j]
                }),
    {
        self.maze.update_cell_is_juncture(x, y, is_juncture);
    }

    /// Marks or unmarks `(x, y)` as a waypoint.
    pub fn update_cell_is_waypoint(&mut self, x: u32, y: u32, is_waypoint: bool)
        requires
            old(self).wf(),
            x < old(self).width,
            y < old(self).height,
        ensures
            final(self).same_frame(old(self)),
            forall|i: int, j: int|
                in_grid(old(self).width as int, old(self).height as int, i, j) ==> #[trigger] final(self).maze@[i][j]
                    == (if i == x && j == y {
                    MazeCell { is_waypoint, ..old(self).maze@[i][j] }
                } else {
                    old(self).maze@[i][j]
                }),
    {
        self.maze.update_cell_is_waypoint(x, y, is_waypoint);
    }

    /// Sets the direction of `(x, y)`.
    pub fn update_cell_path_direction(&mut self, x: u32, y: u32, path_direction: PathDirection)
        requires
            old(self).wf(),
            x < old(self).width,
            y < old(self).height,
        ensures
            final(self).same_frame(old(self)),
            forall|i: int, j: int|
                in_grid(old(self).width as int, old(self).height as int, i, j) ==> #[trigger] final(self).maze@[i][j]
                    == (if i == x && j == y {
                    MazeCell { path_direction, ..old(self).maze@[i][j] }
                } else {
                    old(self).maze@[i][j]
                }),
    {
        self.maze.update_cell_path_direction(x, y, path_direction);
    }

    /// Replays the whole route on a blank grid. The result tells whether
    /// the route is valid; if it is, the grid then shows the route.
    pub fn add_path(&mut self, path_genes: &Vec<PathGene>) -> (valid: bool)
        requires
            old(self).wf(),
            old(self).width >= 1,
            old(self).height >= 1,
            genes_in_grid(old(self).width as int, old(self).height as int, path_genes@),
            old(self).maze@ == blank_grid(old(self).width as int, old(self).height as int),
        ensures
            final(self).same_frame(old(self)),
            valid == valid_path(
                old(self).width as int,
                old(self).height as int,
                old(self).first_direction,
                path_genes@,
            ),
            valid ==> final(self).maze@ == replayed_route(
                old(self).width as int,
                old(self).height as int,
                old(self).first_direction,
                path_genes@,
            ),
    {
        let ghost width = self.width as int;
        let ghost height = self.height as int;
        let ghost first = self.first_direction;
        let ghost blank = blank_grid(width, height);
        let mut current = PathGene::new(0, self.height - 1);
        let mut k: usize = 0;
        let mut done = false;
        let ghost mut count: nat = 0;
        while !done
            invariant
                self.same_frame(old(self)),
                done ==> count == path_genes@.len() + 1,
                !done ==> count == k && k <= path_genes@.len(),
                width == self.width,
                height == self.height,
                first == self.first_direction,
                blank == blank_grid(width, height),
                width >= 1,
                height >= 1,
                genes_in_grid(width, height, path_genes@),
                count <= path_genes@.len() + 1,
                current.point() == route_point(width, height, path_genes@, count as int),
                current.x < self.width,
                current.y < self.height,
                self.maze@ == with_replayed_legs(blank, first, width, height, path_genes@, count),
                forall|n: int, x: int, y: int|
                    0 <= n < count && #[trigger] route_leg_claims(width, height, first, path_genes@, n, x, y)
                        ==> !claimed(width, height, first, path_genes@, n as nat, x, y),
            decreases path_genes@.len() + 1 - count,
        {
            let last = k >= path_genes.len();
            let target = if k < path_genes.len() {
                path_genes[k]
            } else {
                PathGene::new(self.width - 1, 0)
            };
            assert(target.point() == route_point(width, height, path_genes@, (count + 1) as int));
            let ghost before = self.maze@;
            let fresh = self.add_waypoint(&current, &target);
            proof {
                lemma_route_in_grid(width, height, first, path_genes@, count as int);
                lemma_replayed_directions(width, height, first, path_genes@, count);
            }
            if !fresh {
                proof {
                    let (x, y) = choose|x: int, y: int|
                        in_grid(width, height, x, y) && leg_claims(first, current.point(), target.point(), x, y)
                            && (#[trigger] before[x][y]).path_direction != PathDirection::Unset;
                    assert(route_leg_claims(width, height, first, path_genes@, count as int, x, y));
                    assert(claimed(width, height, first, path_genes@, count, x, y));
                }
                return false;
            }
            proof {
                assert forall|n: int, x: int, y: int|
                    0 <= n < count + 1 && #[trigger] route_leg_claims(
                        width,
                        height,
                        first,
                        path_genes@,
                        n,
                        x,
                        y,
                    ) implies !claimed(width, height, first, path_genes@, n as nat, x, y) by {
                    if n == count {
                        assert(in_grid(width, height, x, y));
                        assert(before[x][y].path_direction == PathDirection::Unset);
                    }
                }
            }
            current = target;
            if last {
                done = true;
            } else {
                k += 1;
            }
            proof {
                count = count + 1;
            }
        }
        proof {
            lemma_replayed_directions(width, height, first, path_genes@, path_genes@.len() + 1);
        }
        let exit = self.get_cell_at(self.width - 1, 0);
        if exit.path_direction != PathDirection::Unset {
            return false;
        }
        self.maze.update_cell_path_direction(self.width - 1, 0, PathDirection::South);
        true
    }

    /// Replays the leg from `current_point` to `target_point`. The
    /// result tells whether every cell that the leg claims was without a
    /// direction; if so, the leg is then replayed in full.
    pub fn add_waypoint(&mut self, current_point: &PathGene, target_point: &PathGene) -> (fresh: bool)
        requires
            old(self).wf(),
            current_point.x < old(self).width,
            current_point.y < old(self).height,
            target_point.x < old(self).width,
            target_point.y < old(self).height,
        ensures
            final(self).same_frame(old(self)),
            fresh == claim_is_fresh(
                old(self).maze@,
                old(self).width as int,
                old(self).height as int,
                |i: int, j: int|
                    leg_claims(old(self).first_direction, current_point.point(), target_point.point(), i, j),
            ),
            fresh ==> final(self).maze@ == with_replayed_leg(
                old(self).maze@,
                old(self).first_direction,
                current_point.point(),
                target_point.point(),
            ),
    {
        let ghost width = self.width as int;
        let ghost height = self.height as int;
        let ghost a = current_point.point();
        let ghost b = target_point.point();
        let ghost first = self.first_direction;
        let ghost start = self.maze@;
        self.update_cell_is_waypoint(target_point.x, target_point.y, true);
        let ghost marked = self.maze@;
        let first_fresh = match self.first_direction {
            Orientation::Vertical => self.add_vertical_path_segment(
                current_point.x,
                current_point.y,
                target_point.y,
            ),
            Orientation::Horizontal => self.add_horizontal_path_segment(
                current_point.y,
                current_point.x,
                target_point.x,
            ),
        };
        if !first_fresh {
            proof {
                let (i, j) = choose|i: int, j: int|
                    in_grid(width, height, i, j) && leg_claims(first, a, b, i, j) && (#[trigger] marked[i][j]).path_direction
                        != PathDirection::Unset;
                assert(start[i][j].path_direction != PathDirection::Unset);
            }
            return false;
        }
        let ghost halfway = self.maze@;
        let second_fresh = match self.first_direction {
            Orientation::Vertical => self.add_horizontal_path_segment(
                target_point.y,
                current_point.x,
                target_point.x,
            ),
            Orientation::Horizontal => self.add_vertical_path_segment(
                target_point.x,
                current_point.y,
                target_point.y,
            ),
        };
        if !second_fresh {
            proof {
                let (i, j) = choose|i: int, j: int|
                    in_grid(width, height, i, j) && leg_claims(first, a, b, i, j) && (#[trigger] halfway[i][j]).path_direction
                        != PathDirection::Unset && halfway[i][j] == marked[i][j];
                assert(start[i][j].path_direction != PathDirection::Unset);
            }
            return false;
        }
        let ghost carved = self.maze@;
        if current_point.x != target_point.x && current_point.y != target_point.y {
            match self.first_direction {
                Orientation::Vertical => self.update_cell_is_juncture(current_point.x, target_point.y, true),
                Orientation::Horizontal => self.update_cell_is_juncture(target_point.x, current_point.y, true),
            }
        }
        proof {
            lemma_replay_steps(start, marked, halfway, carved, self.maze@, width, height, first, a, b);
            assert forall|i: int, j: int| in_grid(width, height, i, j) && leg_claims(first, a, b, i, j) implies (
            #[trigger] start[i][j]).path_direction == PathDirection::Unset by {
                assert(marked[i][j].path_direction == start[i][j].path_direction);
                if halfway[i][j] != marked[i][j] {
                } else {
                    assert(halfway[i][j].path_direction == PathDirection::Unset);
                }
            }
            assert(self.maze@ =~~= with_replayed_leg(start, first, a, b));
        }
        true
    }

    /// Claims the cells of column `from_x` from row `from_y` towards row
    /// `to_y`, that row excluded. The result tells whether all of them
    /// were without a direction.
    pub fn add_vertical_path_segment(&mut self, from_x: u32, from_y: u32, to_y: u32) -> (fresh: bool)
        requires
            old(self).wf(),
            from_x < old(self).width,
            from_y < old(self).height,
            to_y < old(self).height,
        ensures
            final(self).same_frame(old(self)),
            fresh == claim_is_fresh(
                old(self).maze@,
                old(self).width as int,
                old(self).height as int,
                |i: int, j: int| i == from_x && between(from_y as int, to_y as int, j) && j != to_y,
            ),
            fresh ==> changed_where(
                old(self).maze@,
                final(self).maze@,
                old(self).width as int,
                old(self).height as int,
                |i: int, j: int| i == from_x && between(from_y as int, to_y as int, j) && j != to_y,
                |c: MazeCell| MazeCell { path_direction: vertical_direction(from_y as int, to_y as int), ..c },
            ),
            !fresh ==> exists|i: int, j: int|
                in_grid(old(self).width as int, old(self).height as int, i, j) && i == from_x && between(
                    from_y as int,
                    to_y as int,
                    j,
                ) && j != to_y && (#[trigger] old(self).maze@[i][j]).path_direction != PathDirection::Unset
                    && final(self).maze@[i][j] == old(self).maze@[i][j],
    {
        let (low, high, direction) = if from_y <= to_y {
            (from_y, to_y, PathDirection::North)
        } else {
            (to_y + 1, from_y + 1, PathDirection::South)
        };
        let mut y: u32 = low;
        while y < high
            invariant
                self.same_frame(old(self)),
                from_x < self.width,
                high <= self.height,
                low <= y <= high || low > high,
                low == if from_y <= to_y { from_y as int } else { to_y + 1 },
                high == if from_y <= to_y { to_y as int } else { from_y + 1 },
                direction == vertical_direction(from_y as int, to_y as int),
                direction != PathDirection::Unset,
                forall|j: int| low <= j < y ==> (#[trigger] old(self).maze@[from_x as int][j]).path_direction
                    == PathDirection::Unset,
                forall|i: int, j: int|
                    in_grid(self.width as int, self.height as int, i, j) ==> #[trigger] self.maze@[i][j] == (if i
                        == from_x && low <= j < y {
                        MazeCell { path_direction: direction, ..old(self).maze@[i][j] }
                    } else {
                        old(self).maze@[i][j]
                    }),
            decreases high - y,
        {
            if self.get_cell_at(from_x, y).path_direction != PathDirection::Unset {
                assert(self.maze@[from_x as int][y as int] == old(self).maze@[from_x as int][y as int]);
                return false;
            }
            self.update_cell_path_direction(from_x, y, direction);
            y += 1;
        }
        true
    }

    /// Claims the cells of row `from_y` from column `from_x` towards
    /// column `to_x`, that column excluded. The result tells whether all
    /// of them were without a direction.
    pub fn add_horizontal_path_segment(&mut self, from_y: u32, from_x: u32, to_x: u32) -> (fresh: bool)
        requires
            old(self).wf(),
            from_y < old(self).height,
            from_x < old(self).width,
            to_x < old(self).width,
        ensures
            final(self).same_frame(old(self)),
            fresh == claim_is_fresh(
                old(self).maze@,
                old(self).width as int,
                old(self).height as int,
                |i: int, j: int| j == from_y && between(from_x as int, to_x as int, i) && i != to_x,
            ),
            fresh ==> changed_where(
                old(self).maze@,
                final(self).maze@,
                old(self).width as int,
                old(self).height as int,
                |i: int, j: int| j == from_y && between(from_x as int, to_x as int, i) && i != to_x,
                |c: MazeCell| MazeCell { path_direction: horizontal_direction(from_x as int, to_x as int), ..c },
            ),
            !fresh ==> exists|i: int, j: int|
                in_grid(old(self).width as int, old(self).height as int, i, j) && j == from_y && between(
                    from_x as int,
                    to_x as int,
                    i,
                ) && i != to_x && (#[trigger] old(self).maze@[i][j]).path_direction != PathDirection::Unset
                    && final(self).maze@[i][j] == old(self).maze@[i][j],
    {
        let (low, high, direction) = if from_x <= to_x {
            (from_x, to_x, PathDirection::East)
        } else {
            (to_x + 1, from_x + 1, PathDirection::West)
        };
        let mut x: u32 = low;
        while x < high
            invariant
                self.same_frame(old(self)),
                from_y < self.height,
                high <= self.width,
                low <= x <= high || low > high,
                low == if from_x <= to_x { from_x as int } else { to_x + 1 },
                high == if from_x <= to_x { to_x as int } else { from_x + 1 },
                direction == horizontal_direction(from_x as int, to_x as int),
                direction != PathDirection::Unset,
                forall|i: int| low <= i < x ==> (#[trigger] old(self).maze@[i][from_y as int]).path_direction
                    == PathDirection::Unset,
                forall|i: int, j: int|
                    in_grid(self.width as int, self.height as int, i, j) ==> #[trigger] self.maze@[i][j] == (if j
                        == from_y && low <= i < x {
                        MazeCell { path_direction: direction, ..old(self).maze@[i][j] }
                    } else {
                        old(self).maze@[i][j]
                    }),
            decreases high - x,
        {
            if self.get_cell_at(x, from_y).path_direction != PathDirection::Unset {
                assert(self.maze@[x as int][from_y as int] == old(self).maze@[x as int][from_y as int]);
                return false;
            }
            self.update_cell_path_direction(x, from_y, direction);
            x += 1;
        }
        true
    }
}

} // verus!
