//! The maze phenotype: the grid that a genome compiles to.

use crate::maze::frame::lemma_corridor_keeps_rest;
use crate::maze::grid::{
    blank_cell, blank_grid, cell_is_open, in_grid, lemma_wall_east_by_cells,
    lemma_wall_north_by_cells, lemma_wall_south_by_cells, lemma_wall_west_by_cells, with_cell,
    with_wall_east, with_wall_north, with_wall_south, with_wall_west, CellGrid, MazeCell,
};
use crate::maze::maze_genotype::{PathGene, WallGene};
use crate::maze::path::{
    between, genes_in_grid, horizontal_direction, route_point, vertical_direction,
    with_horizontal_segment, with_leg, with_legs, with_path, with_vertical_segment,
};
use crate::maze::walls::{
    cell_blocks, drop_end, first_open_in_column, first_open_in_row, lemma_split, open_in_column,
    open_in_row, opening_of, opening_side, partition, rectangle_at, row_blocked, run_end, scan_row,
    scan_rows, with_bisection, with_boundaries, with_boundary, with_corridor_walls, with_edges,
    with_enclosed_path, with_enclosed_walk, with_horizontal_divide, with_opening,
    with_rectangle_connected, with_rectangle_marked, with_rooms, with_vertical_divide, with_walls,
    MazeSubdivision,
};
use crate::maze::{OpeningLocation, Orientation, PathDirection};
use vstd::prelude::*;

verus! {

impl MazeCell {
    /// A cell without walls, marks or direction.
    pub fn new() -> (cell: MazeCell)
        ensures
            cell == blank_cell(),
    {
        MazeCell {
            north_wall: false,
            east_wall: false,
            south_wall: false,
            west_wall: false,
            is_waypoint: false,
            is_juncture: false,
            path_direction: PathDirection::Unset,
            in_subdivision: false,
            is_connected: false,
        }
    }
}

/// A compiled maze: `width` columns of `height` cells.
///
/// The entrance is the cell `(0, height - 1)` and the exit is
/// `(width - 1, 0)`.
#[derive(Debug)]
pub struct MazePhenotype {
    pub width: u32,
    pub height: u32,
    pub first_direction: Orientation,
    pub grid: Vec<Vec<MazeCell>>,
}

impl View for MazePhenotype {
    type V = CellGrid;

    /// The cells, column by column.
    open spec fn view(&self) -> CellGrid {
        Seq::new(self.grid@.len(), |x: int| self.grid@[x]@)
    }
}

/// The grid that a genome compiles to: the path carved into a blank grid,
/// then all the walls.
pub open spec fn compiled_grid(
    width: int,
    height: int,
    first_direction: Orientation,
    path_genes: Seq<PathGene>,
    wall_genes: Seq<WallGene>,
) -> CellGrid {
    with_walls(
        with_path(blank_grid(width, height), first_direction, width, height, path_genes),
        width,
        height,
        wall_genes,
    )
}

impl MazePhenotype {
    /// The grid has `width` columns of `height` cells.
    pub open spec fn wf(&self) -> bool {
        &&& self.grid@.len() == self.width
        &&& forall|x: int| 0 <= x < self.width ==> (#[trigger] self.grid@[x])@.len() == self.height
    }

    /// `self` is well formed and has the dimensions and first direction
    /// of `other`.
    pub open spec fn same_frame(&self, other: &MazePhenotype) -> bool {
        &&& self.wf()
        &&& self.width == other.width
        &&& self.height == other.height
        &&& self.first_direction == other.first_direction
    }

    /// Compiles a maze of `width` by `height` cells: carves the path
    /// through `path_genes`, then builds the walls with `wall_genes`.
    ///
    /// In the maze, every cell off the path lies in a free rectangle,
    /// every free rectangle has got its opening, and neighbours agree
    /// about the wall between them.
    pub fn new(
        width: u32,
        height: u32,
        first_direction: Orientation,
        path_genes: &Vec<PathGene>,
        wall_genes: &Vec<WallGene>,
    ) -> (phenotype: MazePhenotype)
        requires
            width >= 1,
            height >= 1,
            genes_in_grid(width as int, height as int, path_genes@),
            wall_genes@.len() >= 1,
        ensures
            phenotype.wf(),
            phenotype.width == width,
            phenotype.height == height,
            phenotype.first_direction == first_direction,
            phenotype@ == compiled_grid(
                width as int,
                height as int,
                first_direction,
                path_genes@,
                wall_genes@,
            ),
            forall|x: int, y: int|
                in_grid(width as int, height as int, x, y) ==> {
                    &&& (#[trigger] phenotype@[x][y]).in_subdivision == (phenotype@[x][y].path_direction
                        == PathDirection::Unset)
                    &&& cell_is_open(phenotype@[x][y])
                },
            crate::maze::agreement::walls_agree(phenotype@, width as int, height as int),
    {
        proof {
            crate::maze::agreement::lemma_compiled_walls_agree(
                width as int,
                height as int,
                first_direction,
                path_genes@,
                wall_genes@,
            );
            crate::maze::tiling::lemma_compiled_tiling(
                width as int,
                height as int,
                first_direction,
                path_genes@,
                wall_genes@,
            );
            crate::maze::openings::lemma_compiled_rooms_are_open(
                width as int,
                height as int,
                first_direction,
                path_genes@,
                wall_genes@,
            );
        }
        let mut phenotype = MazePhenotype::blank(width, height, first_direction);
        phenotype.add_path(path_genes);
        phenotype.add_walls(wall_genes);
        phenotype
    }

    /// The maze of `width` by `height` blank cells.
    pub fn blank(width: u32, height: u32, first_direction: Orientation) -> (phenotype: MazePhenotype)
        ensures
            phenotype.wf(),
            phenotype.width == width,
            phenotype.height == height,
            phenotype.first_direction == first_direction,
            phenotype@ == blank_grid(width as int, height as int),
    {
        let mut grid: Vec<Vec<MazeCell>> = Vec::new();
        let mut x: u32 = 0;
        while x < width
            invariant
                x <= width,
                grid@.len() == x,
                forall|i: int| 0 <= i < x ==> (#[trigger] grid@[i])@.len() == height,
                forall|i: int, j: int| 0 <= i < x && 0 <= j < height ==> (#[trigger] grid@[i]@[j]) == blank_cell(),
            decreases width - x,
        {
            let mut column: Vec<MazeCell> = Vec::new();
            let mut y: u32 = 0;
            while y < height
                invariant
                    y <= height,
                    column@.len() == y,
                    forall|j: int| 0 <= j < y ==> (#[trigger] column@[j]) == blank_cell(),
                decreases height - y,
            {
                column.push(MazeCell::new());
                y += 1;
            }
            grid.push(column);
            x += 1;
        }
        let phenotype = MazePhenotype { width, height, first_direction, grid };
        assert(phenotype@ =~~= blank_grid(width as int, height as int));
        phenotype
    }

    /// The cell at `(x, y)`.
    pub fn get_cell_at(&self, x: u32, y: u32) -> (cell: MazeCell)
        requires
            self.wf(),
            x < self.width,
            y < self.height,
        ensures
            cell == self@[x as int][y as int],
    {
        self.grid[x as usize][y as usize]
    }

    /// Replaces the cell at `(x, y)`.
    fn set_cell(&mut self, x: u32, y: u32, cell: MazeCell)
        requires
            old(self).wf(),
            x < old(self).width,
            y < old(self).height,
        ensures
            final(self).same_frame(old(self)),
            final(self)@ == with_cell(old(self)@, x as int, y as int, cell),
    {
        self.grid[x as usize][y as usize] = cell;
        proof {
            let expected = with_cell(old(self)@, x as int, y as int, cell);
            assert(self@.len() == expected.len());
            assert forall|i: int| 0 <= i < self@.len() implies #[trigger] self@[i] == expected[i] by {
                assert(self@[i] == self.grid@[i]@);
                assert(old(self)@[i] == old(self).grid@[i]@);
                assert(self@[i] =~= expected[i]);
            }
            assert(self@ =~= expected);
        }
    }

    /// Marks or unmarks `(x, y)` as a corner of the path.
    pub fn update_cell_is_juncture(&mut self, x: u32, y: u32, is_juncture: bool)
        requires
            old(self).wf(),
            x < old(self).width,
            y < old(self).height,
        ensures
            final(self).same_frame(old(self)),
            final(self)@ == with_cell(
                old(self)@,
                x as int,
                y as int,
                (MazeCell { is_juncture, ..old(self)@[x as int][y as int] }),
            ),
    {
        let cell = self.get_cell_at(x, y);
        self.set_cell(x, y, MazeCell { is_juncture, ..cell });
    }

    /// Marks or unmarks `(x, y)` as a waypoint.
    pub fn update_cell_is_waypoint(&mut self, x: u32, y: u32, is_waypoint: bool)
        requires
            old(self).wf(),
            x < old(self).width,
            y < old(self).height,
        ensures
            final(self).same_frame(old(self)),
            final(self)@ == with_cell(
                old(self)@,
                x as int,
                y as int,
                (MazeCell { is_waypoint, ..old(self)@[x as int][y as int] }),
            ),
    {
        let cell = self.get_cell_at(x, y);
        self.set_cell(x, y, MazeCell { is_waypoint, ..cell });
    }

    /// Sets the direction in which the path leaves `(x, y)`.
    pub fn update_cell_path_direction(&mut self, x: u32, y: u32, path_direction: PathDirection)
        requires
            old(self).wf(),
            x < old(self).width,
            y < old(self).height,
        ensures
            final(self).same_frame(old(self)),
            final(self)@ == with_cell(
                old(self)@,
                x as int,
                y as int,
                (MazeCell { path_direction, ..old(self)@[x as int][y as int] }),
            ),
    {
        let cell = self.get_cell_at(x, y);
        self.set_cell(x, y, MazeCell { path_direction, ..cell });
    }

    /// Sets the wall between `(x, y)` and its northern neighbour.
    pub fn update_cell_wall_north(&mut self, x: u32, y: u32, wall: bool)
        requires
            old(self).wf(),
            x < old(self).width,
            y < old(self).height,
        ensures
            final(self).same_frame(old(self)),
            final(self)@ == with_wall_north(old(self)@, x as int, y as int, wall),
    {
        let cell = self.get_cell_at(x, y);
        self.set_cell(x, y, MazeCell { north_wall: wall, ..cell });
        proof {
            lemma_wall_north_by_cells(old(self)@, x as int, y as int, wall);
        }
        if y < self.height - 1 {
            let neighbour = self.get_cell_at(x, y + 1);
            self.set_cell(x, y + 1, MazeCell { south_wall: wall, ..neighbour });
        }
    }

    /// Sets the wall between `(x, y)` and its eastern neighbour.
    pub fn update_cell_wall_east(&mut self, x: u32, y: u32, wall: bool)
        requires
            old(self).wf(),
            x < old(self).width,
            y < old(self).height,
        ensures
            final(self).same_frame(old(self)),
            final(self)@ == with_wall_east(old(self)@, x as int, y as int, wall),
    {
        let cell = self.get_cell_at(x, y);
        self.set_cell(x, y, MazeCell { east_wall: wall, ..cell });
        proof {
            lemma_wall_east_by_cells(old(self)@, x as int, y as int, wall);
        }
        if x < self.width - 1 {
            let neighbour = self.get_cell_at(x + 1, y);
            self.set_cell(x + 1, y, MazeCell { west_wall: wall, ..neighbour });
        }
    }

    /// Sets the wall between `(x, y)` and its southern neighbour.
    pub fn update_cell_wall_south(&mut self, x: u32, y: u32, wall: bool)
        requires
            old(self).wf(),
            x < old(self).width,
            y < old(self).height,
        ensures
            final(self).same_frame(old(self)),
            final(self)@ == with_wall_south(old(self)@, x as int, y as int, wall),
    {
        let cell = self.get_cell_at(x, y);
        self.set_cell(x, y, MazeCell { south_wall: wall, ..cell });
        proof {
            lemma_wall_south_by_cells(old(self)@, x as int, y as int, wall);
        }
        if y > 0 {
            let neighbour = self.get_cell_at(x, y - 1);
            self.set_cell(x, y - 1, MazeCell { north_wall: wall, ..neighbour });
        }
    }

    /// Sets the wall between `(x, y)` and its western neighbour.
    pub fn update_cell_wall_west(&mut self, x: u32, y: u32, wall: bool)
        requires
            old(self).wf(),
            x < old(self).width,
            y < old(self).height,
        ensures
            final(self).same_frame(old(self)),
            final(self)@ == with_wall_west(old(self)@, x as int, y as int, wall),
    {
        let cell = self.get_cell_at(x, y);
        self.set_cell(x, y, MazeCell { west_wall: wall, ..cell });
        proof {
            lemma_wall_west_by_cells(old(self)@, x as int, y as int, wall);
        }
        if x > 0 {
            let neighbour = self.get_cell_at(x - 1, y);
            self.set_cell(x - 1, y, MazeCell { east_wall: wall, ..neighbour });
        }
    }

    /// Marks or unmarks `(x, y)` as belonging to a free rectangle.
    pub fn update_cell_in_subdivision(&mut self, x: u32, y: u32, value: bool)
        requires
            old(self).wf(),
            x < old(self).width,
            y < old(self).height,
        ensures
            final(self).same_frame(old(self)),
            final(self)@ == with_cell(
                old(self)@,
                x as int,
                y as int,
                (MazeCell { in_subdivision: value, ..old(self)@[x as int][y as int] }),
            ),
    {
        let cell = self.get_cell_at(x, y);
        self.set_cell(x, y, MazeCell { in_subdivision: value, ..cell });
    }

    /// Marks every cell of the rectangle with north-west corner
    /// `(start_x, start_y)` and south-east corner `(end_x, end_y)` as
    /// held by a rectangle.
    pub fn update_cells_in_subdivision(&mut self, start_x: u32, start_y: u32, end_x: u32, end_y: u32)
        requires
            old(self).wf(),
            start_x <= end_x < old(self).width,
            end_y <= start_y < old(self).height,
        ensures
            final(self).same_frame(old(self)),
            forall|i: int, j: int|
                in_grid(old(self).width as int, old(self).height as int, i, j) ==> #[trigger] final(self)@[i][j]
                    == (if start_x <= i <= end_x && end_y <= j <= start_y {
                    MazeCell { in_subdivision: true, ..old(self)@[i][j] }
                } else {
                    old(self)@[i][j]
                }),
    {
        let mut x: u32 = start_x;
        while x <= end_x
            invariant
                self.same_frame(old(self)),
                start_x <= x <= end_x + 1,
                end_x < self.width,
                end_y <= start_y < self.height,
                forall|i: int, j: int|
                    in_grid(self.width as int, self.height as int, i, j) ==> #[trigger] self@[i][j] == (if start_x
                        <= i < x && end_y <= j <= start_y {
                        MazeCell { in_subdivision: true, ..old(self)@[i][j] }
                    } else {
                        old(self)@[i][j]
                    }),
            decreases end_x + 1 - x,
        {
            let mut y: u32 = end_y;
            while y <= start_y
                invariant
                    self.same_frame(old(self)),
                    start_x <= x <= end_x,
                    end_x < self.width,
                    end_y <= y <= start_y + 1,
                    start_y < self.height,
                    forall|i: int, j: int|
                        in_grid(self.width as int, self.height as int, i, j) ==> #[trigger] self@[i][j] == (if (
                        start_x <= i < x && end_y <= j <= start_y) || (i == x && end_y <= j < y) {
                            MazeCell { in_subdivision: true, ..old(self)@[i][j] }
                        } else {
                            old(self)@[i][j]
                        }),
                decreases start_y + 1 - y,
            {
                self.update_cell_in_subdivision(x, y, true);
                y += 1;
            }
            x += 1;
        }
    }

    /// Marks or unmarks `(x, y)` as connected to the rest of the maze.
    fn update_cell_is_connected(&mut self, x: u32, y: u32, value: bool)
        requires
            old(self).wf(),
            x < old(self).width,
            y < old(self).height,
        ensures
            final(self).same_frame(old(self)),
            final(self)@ == with_cell(
                old(self)@,
                x as int,
                y as int,
                (MazeCell { is_connected: value, ..old(self)@[x as int][y as int] }),
            ),
    {
        let cell = self.get_cell_at(x, y);
        self.set_cell(x, y, MazeCell { is_connected: value, ..cell });
    }

    /// Carves the route from the entrance through `path_genes` to the
    /// exit.
    pub fn add_path(&mut self, path_genes: &Vec<PathGene>)
        requires
            old(self).wf(),
            old(self).width >= 1,
            old(self).height >= 1,
            genes_in_grid(old(self).width as int, old(self).height as int, path_genes@),
        ensures
            final(self).same_frame(old(self)),
            final(self)@ == with_path(
                old(self)@,
                old(self).first_direction,
                old(self).width as int,
                old(self).height as int,
                path_genes@,
            ),
    {
        let mut current = PathGene::new(0, self.height - 1);
        let mut i: usize = 0;
        while i < path_genes.len()
            invariant
                self.same_frame(old(self)),
                self.width >= 1,
                self.height >= 1,
                genes_in_grid(self.width as int, self.height as int, path_genes@),
                i <= path_genes.len(),
                current.point() == route_point(self.width as int, self.height as int, path_genes@, i as int),
                current.x < self.width,
                current.y < self.height,
                self@ == with_legs(
                    old(self)@,
                    self.first_direction,
                    self.width as int,
                    self.height as int,
                    path_genes@,
                    i as nat,
                ),
            decreases path_genes.len() - i,
        {
            let target = path_genes[i];
            self.add_waypoint(&current, &target);
            current = target;
            i += 1;
        }
        let end_position = PathGene::new(self.width - 1, 0);
        self.add_waypoint(&current, &end_position);
    }

    /// Carves the leg from `current_point` to `target_point` and marks
    /// the target as a waypoint.
    pub fn add_waypoint(&mut self, current_point: &PathGene, target_point: &PathGene)
        requires
            old(self).wf(),
            current_point.x < old(self).width,
            current_point.y < old(self).height,
            target_point.x < old(self).width,
            target_point.y < old(self).height,
        ensures
            final(self).same_frame(old(self)),
            final(self)@ == with_leg(
                old(self)@,
                old(self).first_direction,
                current_point.point(),
                target_point.point(),
            ),
    {
        self.update_cell_is_waypoint(target_point.x, target_point.y, true);
        match self.first_direction {
            Orientation::Vertical => {
                self.add_vertical_path_segment(current_point.x, current_point.y, target_point.y);
                self.add_horizontal_path_segment(target_point.y, current_point.x, target_point.x);
                if current_point.x != target_point.x && current_point.y != target_point.y {
                    self.update_cell_is_juncture(current_point.x, target_point.y, true);
                }
            },
            Orientation::Horizontal => {
                self.add_horizontal_path_segment(current_point.y, current_point.x, target_point.x);
                self.add_vertical_path_segment(target_point.x, current_point.y, target_point.y);
                if current_point.x != target_point.x && current_point.y != target_point.y {
                    self.update_cell_is_juncture(target_point.x, current_point.y, true);
                }
            },
        }
    }

    /// Writes the direction of travel into the cells of column `from_x`
    /// from row `from_y` to row `to_y`.
    pub fn add_vertical_path_segment(&mut self, from_x: u32, from_y: u32, to_y: u32)
        requires
            old(self).wf(),
            from_x < old(self).width,
            from_y < old(self).height,
            to_y < old(self).height,
        ensures
            final(self).same_frame(old(self)),
            final(self)@ == with_vertical_segment(old(self)@, from_x as int, from_y as int, to_y as int),
    {
        let (low, high, direction) = if from_y <= to_y {
            (from_y, to_y, PathDirection::North)
        } else {
            (to_y, from_y, PathDirection::South)
        };
        let mut y: u32 = low;
        while y <= high
            invariant
                self.same_frame(old(self)),
                from_x < self.width,
                high < self.height,
                low <= y <= high + 1,
                low == if from_y <= to_y { from_y } else { to_y },
                high == if from_y <= to_y { to_y } else { from_y },
                direction == vertical_direction(from_y as int, to_y as int),
                forall|i: int, j: int|
                    in_grid(self.width as int, self.height as int, i, j) ==> #[trigger] self@[i][j] == (if i
                        == from_x && low <= j < y {
                        MazeCell { path_direction: direction, ..old(self)@[i][j] }
                    } else {
                        old(self)@[i][j]
                    }),
            decreases high + 1 - y,
        {
            self.update_cell_path_direction(from_x, y, direction);
            y += 1;
        }
        assert(self@ =~~= with_vertical_segment(old(self)@, from_x as int, from_y as int, to_y as int));
    }

    /// Writes the direction of travel into the cells of row `from_y` from
    /// column `from_x` to column `to_x`.
    pub fn add_horizontal_path_segment(&mut self, from_y: u32, from_x: u32, to_x: u32)
        requires
            old(self).wf(),
            from_y < old(self).height,
            from_x < old(self).width,
            to_x < old(self).width,
        ensures
            final(self).same_frame(old(self)),
            final(self)@ == with_horizontal_segment(old(self)@, from_y as int, from_x as int, to_x as int),
    {
        let (low, high, direction) = if from_x <= to_x {
            (from_x, to_x, PathDirection::East)
        } else {
            (to_x, from_x, PathDirection::West)
        };
        let mut x: u32 = low;
        while x <= high
            invariant
                self.same_frame(old(self)),
                from_y < self.height,
                high < self.width,
                low <= x <= high + 1,
                low == if from_x <= to_x { from_x } else { to_x },
                high == if from_x <= to_x { to_x } else { from_x },
                direction == horizontal_direction(from_x as int, to_x as int),
                forall|i: int, j: int|
                    in_grid(self.width as int, self.height as int, i, j) ==> #[trigger] self@[i][j] == (if j
                        == from_y && low <= i < x {
                        MazeCell { path_direction: direction, ..old(self)@[i][j] }
                    } else {
                        old(self)@[i][j]
                    }),
            decreases high + 1 - x,
        {
            self.update_cell_path_direction(x, from_y, direction);
            x += 1;
        }
        assert(self@ =~~= with_horizontal_segment(old(self)@, from_y as int, from_x as int, to_x as int));
    }

    /// Builds all the walls around the carved path: the outer boundary,
    /// the enclosure of the path, and the free rectangles with their
    /// boundaries, openings and bisections.
    pub fn add_walls(&mut self, wall_genes: &Vec<WallGene>)
        requires
            old(self).wf(),
            old(self).width >= 1,
            old(self).height >= 1,
            wall_genes@.len() >= 1,
        ensures
            final(self).same_frame(old(self)),
            final(self)@ == with_walls(
                old(self)@,
                old(self).width as int,
                old(self).height as int,
                wall_genes@,
            ),
    {
        self.enclose_edges();
        self.enclose_path();
        let subdivisions = self.subdivide_maze();
        let ghost tiled = self@;
        let mut k: usize = 0;
        while k < subdivisions.len()
            invariant
                self.same_frame(old(self)),
                k <= subdivisions@.len(),
                forall|n: int|
                    0 <= n < subdivisions@.len() ==> (#[trigger] subdivisions@[n]).fits(
                        self.width as int,
                        self.height as int,
                    ),
                self@ == with_boundaries(tiled, subdivisions@, k as nat),
            decreases subdivisions@.len() - k,
        {
            let subdivision = subdivisions[k];
            self.mark_subdivision_boundaries(&subdivision);
            k += 1;
        }
        let ghost bounded = self@;
        let mut k: usize = 0;
        while k < subdivisions.len()
            invariant
                self.same_frame(old(self)),
                k <= subdivisions@.len(),
                wall_genes@.len() >= 1,
                forall|n: int|
                    0 <= n < subdivisions@.len() ==> (#[trigger] subdivisions@[n]).fits(
                        self.width as int,
                        self.height as int,
                    ),
                self@ == with_rooms(
                    bounded,
                    self.width as int,
                    self.height as int,
                    subdivisions@,
                    wall_genes@,
                    k as nat,
                ),
            decreases subdivisions@.len() - k,
        {
            let subdivision = subdivisions[k];
            let gene_index: usize = k % wall_genes.len();
            self.insert_partition_opening(&subdivision, &wall_genes[gene_index]);
            self.subdivide_subdivision(&subdivision, gene_index, wall_genes);
            k += 1;
        }
    }

    /// Walls off the outer boundary of the grid.
    pub fn enclose_edges(&mut self)
        requires
            old(self).wf(),
            old(self).width >= 1,
            old(self).height >= 1,
        ensures
            final(self).same_frame(old(self)),
            final(self)@ == with_edges(old(self)@, old(self).width as int, old(self).height as int),
    {
        let mut x: u32 = 0;
        while x < self.width
            invariant
                self.same_frame(old(self)),
                self.height >= 1,
                x <= self.width,
                forall|i: int, j: int|
                    in_grid(self.width as int, self.height as int, i, j) ==> #[trigger] self@[i][j] == (MazeCell {
                        north_wall: old(self)@[i][j].north_wall || (i < x && j == self.height - 1),
                        south_wall: old(self)@[i][j].south_wall || (i < x && j == 0),
                        ..old(self)@[i][j]
                    }),
            decreases self.width - x,
        {
            self.update_cell_wall_south(x, 0, true);
            self.update_cell_wall_north(x, self.height - 1, true);
            x += 1;
        }
        let mut y: u32 = 0;
        while y < self.height
            invariant
                self.same_frame(old(self)),
                self.width >= 1,
                y <= self.height,
                forall|i: int, j: int|
                    in_grid(self.width as int, self.height as int, i, j) ==> #[trigger] self@[i][j] == (MazeCell {
                        north_wall: old(self)@[i][j].north_wall || j == self.height - 1,
                        south_wall: old(self)@[i][j].south_wall || j == 0,
                        west_wall: old(self)@[i][j].west_wall || (j < y && i == 0),
                        east_wall: old(self)@[i][j].east_wall || (j < y && i == self.width - 1),
                        ..old(self)@[i][j]
                    }),
            decreases self.height - y,
        {
            self.update_cell_wall_west(0, y, true);
            self.update_cell_wall_east(self.width - 1, y, true);
            y += 1;
        }
        assert(self@ =~~= with_edges(old(self)@, old(self).width as int, old(self).height as int));
    }

    /// Gives the path cell `(x, y)` its corridor walls; `entered` is the
    /// direction in which the path came into the cell.
    fn enclose_path_cell(&mut self, x: u32, y: u32, entered: PathDirection)
        requires
            old(self).wf(),
            x < old(self).width,
            y < old(self).height,
        ensures
            final(self).same_frame(old(self)),
            final(self)@ == with_corridor_walls(old(self)@, x as int, y as int, entered),
    {
        let leaving = self.get_cell_at(x, y).path_direction;
        if leaving == PathDirection::North || leaving == PathDirection::South {
            if entered != PathDirection::East {
                self.update_cell_wall_west(x, y, true);
            }
            if entered != PathDirection::West {
                self.update_cell_wall_east(x, y, true);
            }
        } else if leaving == PathDirection::West || leaving == PathDirection::East {
            if entered != PathDirection::South {
                self.update_cell_wall_north(x, y, true);
            }
            if entered != PathDirection::North {
                self.update_cell_wall_south(x, y, true);
            }
        }
    }

    /// Walks the carved path from the entrance towards the exit and walls
    /// the corridor off from the free space beside it.
    pub fn enclose_path(&mut self)
        requires
            old(self).wf(),
            old(self).width >= 1,
            old(self).height >= 1,
        ensures
            final(self).same_frame(old(self)),
            final(self)@ == with_enclosed_path(old(self)@, old(self).width as int, old(self).height as int),
    {
        proof {
            crate::fraction::lemma_product_fits(self.width as int, self.height as int);
        }
        let limit: u64 = (self.width as u64) * (self.height as u64);
        let mut steps: u64 = 0;
        let mut x: u32 = 0;
        let mut y: u32 = self.height - 1;
        let mut entered = self.get_cell_at(x, y).path_direction;
        let mut done = false;
        while !done && steps < limit
            invariant
                self.same_frame(old(self)),
                x < self.width,
                y < self.height,
                steps <= limit,
                limit == self.width * self.height,
                with_enclosed_path(old(self)@, old(self).width as int, old(self).height as int) == (if done {
                    self@
                } else {
                    with_enclosed_walk(
                        self@,
                        self.width as int,
                        self.height as int,
                        x as int,
                        y as int,
                        entered,
                        (limit - steps) as nat,
                    )
                }),
            decreases (if done { 0int } else { 1int }), limit - steps,
        {
            if x == self.width - 1 && y == 0 {
                done = true;
            } else {
                let leaving = self.get_cell_at(x, y).path_direction;
                let ghost before = self@;
                self.enclose_path_cell(x, y, entered);
                assert(self@[x as int][y as int].path_direction == leaving) by {
                    lemma_corridor_keeps_rest(before, self.width as int, self.height as int, x as int, y as int, entered);
                }
                match leaving {
                    PathDirection::North => {
                        if y + 1 < self.height {
                            y += 1;
                        } else {
                            done = true;
                        }
                    },
                    PathDirection::East => {
                        if x + 1 < self.width {
                            x += 1;
                        } else {
                            done = true;
                        }
                    },
                    PathDirection::South => {
                        if y > 0 {
                            y -= 1;
                        } else {
                            done = true;
                        }
                    },
                    PathDirection::West => {
                        if x > 0 {
                            x -= 1;
                        } else {
                            done = true;
                        }
                    },
                    PathDirection::Unset => {
                        done = true;
                    },
                }
                entered = leaving;
                steps += 1;
            }
        }
    }

    /// Whether row `y` holds a path cell in the columns
    /// `start_x..=end_x`.
    fn row_is_blocked(&self, start_x: u32, end_x: u32, y: u32) -> (blocked: bool)
        requires
            self.wf(),
            start_x <= end_x < self.width,
            y < self.height,
        ensures
            blocked == row_blocked(self@, start_x as int, end_x as int, y as int),
    {
        let mut x: u32 = start_x;
        while x <= end_x
            invariant
                self.wf(),
                start_x <= x <= end_x + 1,
                end_x < self.width,
                y < self.height,
                forall|i: int| start_x <= i < x ==> !cell_blocks(#[trigger] self@[i][y as int]),
            decreases end_x + 1 - x,
        {
            let cell = self.get_cell_at(x, y);
            if cell.path_direction != PathDirection::Unset && !cell.in_subdivision {
                return true;
            }
            x += 1;
        }
        false
    }

    /// The rectangle that starts at the free cell `(x, y)`.
    fn grow_rectangle(&self, x: u32, y: u32) -> (rectangle: MazeSubdivision)
        requires
            self.wf(),
            x < self.width,
            y < self.height,
        ensures
            rectangle == rectangle_at(self@, self.width as int, x as int, y as int),
            rectangle.fits(self.width as int, self.height as int),
            rectangle.start_x == x,
            rectangle.start_y == y,
    {
        let mut end_x: u32 = x;
        while end_x < self.width - 1 && self.get_cell_at(end_x + 1, y).path_direction
            == PathDirection::Unset && !self.get_cell_at(end_x + 1, y).in_subdivision
            invariant
                self.wf(),
                x <= end_x < self.width,
                y < self.height,
                run_end(self@, self.width as int, x as int, y as int) == run_end(
                    self@,
                    self.width as int,
                    end_x as int,
                    y as int,
                ),
            decreases self.width - end_x,
        {
            end_x += 1;
        }
        let mut end_y: u32 = y;
        let mut blocked = false;
        while end_y > 0 && !blocked
            invariant
                self.wf(),
                x <= end_x < self.width,
                end_y <= y < self.height,
                drop_end(self@, x as int, end_x as int, y as int) == (if blocked {
                    end_y as int
                } else {
                    drop_end(self@, x as int, end_x as int, end_y as int)
                }),
            decreases end_y + (if blocked { 0int } else { 1int }),
        {
            if self.row_is_blocked(x, end_x, end_y - 1) {
                blocked = true;
            } else {
                end_y -= 1;
            }
        }
        MazeSubdivision::new(x, y, end_x, end_y, end_x - x + 1, y - end_y + 1)
    }

    /// Tiles the free space with rectangles: scanning the rows from the
    /// top and each row from the west, every free cell that no rectangle
    /// holds yet starts a new one.
    pub fn subdivide_maze(&mut self) -> (subdivisions: Vec<MazeSubdivision>)
        requires
            old(self).wf(),
        ensures
            final(self).same_frame(old(self)),
            (final(self)@, subdivisions@) == partition(
                old(self)@,
                old(self).width as int,
                old(self).height as int,
            ),
            forall|k: int|
                0 <= k < subdivisions@.len() ==> (#[trigger] subdivisions@[k]).fits(
                    old(self).width as int,
                    old(self).height as int,
                ),
    {
        let mut subdivisions: Vec<MazeSubdivision> = Vec::new();
        let mut rows: u32 = self.height;
        while rows > 0
            invariant
                self.same_frame(old(self)),
                rows <= self.height,
                partition(old(self)@, old(self).width as int, old(self).height as int) == scan_rows(
                    self@,
                    subdivisions@,
                    self.width as int,
                    rows as nat,
                ),
                forall|k: int|
                    0 <= k < subdivisions@.len() ==> (#[trigger] subdivisions@[k]).fits(
                        self.width as int,
                        self.height as int,
                    ),
            decreases rows,
        {
            let y: u32 = rows - 1;
            let ghost row_grid = self@;
            let ghost row_rectangles = subdivisions@;
            let mut x: u32 = 0;
            while x < self.width
                invariant
                    self.same_frame(old(self)),
                    y < self.height,
                    x <= self.width,
                    scan_row(row_grid, row_rectangles, self.width as int, 0, y as int) == scan_row(
                        self@,
                        subdivisions@,
                        self.width as int,
                        x as int,
                        y as int,
                    ),
                    forall|k: int|
                        0 <= k < subdivisions@.len() ==> (#[trigger] subdivisions@[k]).fits(
                            self.width as int,
                            self.height as int,
                        ),
                decreases self.width - x,
            {
                let cell = self.get_cell_at(x, y);
                if cell.path_direction == PathDirection::Unset && !cell.is_waypoint
                    && !cell.in_subdivision {
                    let rectangle = self.grow_rectangle(x, y);
                    let ghost before = self@;
                    self.update_cells_in_subdivision(
                        rectangle.start_x,
                        rectangle.start_y,
                        rectangle.end_x,
                        rectangle.end_y,
                    );
                    assert(self@ =~~= with_rectangle_marked(before, rectangle));
                    subdivisions.push(rectangle);
                }
                x += 1;
            }
            rows -= 1;
        }
        subdivisions
    }

    /// Walls off all four sides of `subdivision`.
    pub fn mark_subdivision_boundaries(&mut self, subdivision: &MazeSubdivision)
        requires
            old(self).wf(),
            subdivision.fits(old(self).width as int, old(self).height as int),
        ensures
            final(self).same_frame(old(self)),
            final(self)@ == with_boundary(old(self)@, *subdivision),
    {
        let r = *subdivision;
        let mut x: u32 = r.start_x;
        while x <= r.end_x
            invariant
                self.same_frame(old(self)),
                r.fits(self.width as int, self.height as int),
                r.start_x <= x <= r.end_x + 1,
                forall|i: int, j: int|
                    in_grid(self.width as int, self.height as int, i, j) ==> #[trigger] self@[i][j] == (MazeCell {
                        north_wall: old(self)@[i][j].north_wall || (r.start_x <= i < x && (j == r.start_y
                            || j == r.end_y - 1)),
                        south_wall: old(self)@[i][j].south_wall || (r.start_x <= i < x && (j == r.end_y || j
                            == r.start_y + 1)),
                        ..old(self)@[i][j]
                    }),
            decreases r.end_x + 1 - x,
        {
            self.update_cell_wall_north(x, r.start_y, true);
            self.update_cell_wall_south(x, r.end_y, true);
            x += 1;
        }
        let mut y: u32 = r.end_y;
        while y <= r.start_y
            invariant
                self.same_frame(old(self)),
                r.fits(self.width as int, self.height as int),
                r.end_y <= y <= r.start_y + 1,
                forall|i: int, j: int|
                    in_grid(self.width as int, self.height as int, i, j) ==> #[trigger] self@[i][j] == (MazeCell {
                        north_wall: old(self)@[i][j].north_wall || (r.start_x <= i <= r.end_x && (j
                            == r.start_y || j == r.end_y - 1)),
                        south_wall: old(self)@[i][j].south_wall || (r.start_x <= i <= r.end_x && (j
                            == r.end_y || j == r.start_y + 1)),
                        west_wall: old(self)@[i][j].west_wall || (r.end_y <= j < y && (i == r.start_x || i
                            == r.end_x + 1)),
                        east_wall: old(self)@[i][j].east_wall || (r.end_y <= j < y && (i == r.end_x || i
                            == r.start_x - 1)),
                        ..old(self)@[i][j]
                    }),
            decreases r.start_y + 1 - y,
        {
            self.update_cell_wall_west(r.start_x, y, true);
            self.update_cell_wall_east(r.end_x, y, true);
            y += 1;
        }
        assert(self@ =~~= with_boundary(old(self)@, r));
    }

    /// Whether the cell at `(x, y)` is open.
    fn cell_open_at(&self, x: u32, y: u32) -> (open: bool)
        requires
            self.wf(),
            x < self.width,
            y < self.height,
        ensures
            open == cell_is_open(self@[x as int][y as int]),
    {
        let cell = self.get_cell_at(x, y);
        cell.path_direction != PathDirection::Unset || cell.is_connected
    }

    /// How many of the cells `(start_x..=end_x, y)` are open.
    fn count_open_in_row(&self, y: u32, start_x: u32, end_x: u32) -> (count: u32)
        requires
            self.wf(),
            start_x <= end_x < self.width,
            y < self.height,
        ensures
            count == open_in_row(self@, y as int, start_x as int, end_x as int),
    {
        let mut count: u32 = 0;
        let mut x: u32 = start_x;
        while x <= end_x
            invariant
                self.wf(),
                start_x <= x <= end_x + 1,
                end_x < self.width,
                y < self.height,
                count == open_in_row(self@, y as int, start_x as int, x - 1),
                count <= x - start_x,
            decreases end_x + 1 - x,
        {
            if self.cell_open_at(x, y) {
                count += 1;
            }
            x += 1;
        }
        count
    }

    /// How many of the cells `(x, end_y..=start_y)` are open.
    fn count_open_in_column(&self, x: u32, end_y: u32, start_y: u32) -> (count: u32)
        requires
            self.wf(),
            end_y <= start_y < self.height,
            x < self.width,
        ensures
            count == open_in_column(self@, x as int, end_y as int, start_y as int),
    {
        let mut count: u32 = 0;
        let mut y: u32 = end_y;
        while y <= start_y
            invariant
                self.wf(),
                end_y <= y <= start_y + 1,
                start_y < self.height,
                x < self.width,
                count == open_in_column(self@, x as int, end_y as int, y - 1),
                count <= y - end_y,
            decreases start_y + 1 - y,
        {
            if self.cell_open_at(x, y) {
                count += 1;
            }
            y += 1;
        }
        count
    }

    /// The column of the first open cell of row `y` among the `length`
    /// columns from `start_x`, tried from `offset` on and wrapping around.
    fn find_open_in_row(&self, y: u32, start_x: u32, length: u32, offset: u32) -> (found: Option<u32>)
        requires
            self.wf(),
            y < self.height,
            length >= 1,
            start_x + length <= self.width,
            offset < length,
        ensures
            match found {
                Some(x) => first_open_in_row(self@, y as int, start_x as int, length as int, offset as int, 0)
                    == Some(x as int) && start_x <= x < start_x + length,
                None => first_open_in_row(self@, y as int, start_x as int, length as int, offset as int, 0)
                    == None::<int>,
            },
    {
        let mut tried: u32 = 0;
        while tried < length
            invariant
                self.wf(),
                y < self.height,
                length >= 1,
                start_x + length <= self.width,
                offset < length,
                tried <= length,
                first_open_in_row(self@, y as int, start_x as int, length as int, offset as int, 0)
                    == first_open_in_row(
                    self@,
                    y as int,
                    start_x as int,
                    length as int,
                    offset as int,
                    tried as int,
                ),
            decreases length - tried,
        {
            let shift: u64 = (offset as u64 + tried as u64) % (length as u64);
            let x: u32 = start_x + shift as u32;
            if self.cell_open_at(x, y) {
                return Some(x);
            }
            tried += 1;
        }
        None
    }

    /// The row of the first open cell of column `x` among the `length`
    /// rows from `end_y`, tried from `offset` on and wrapping around.
    fn find_open_in_column(&self, x: u32, end_y: u32, length: u32, offset: u32) -> (found: Option<u32>)
        requires
            self.wf(),
            x < self.width,
            length >= 1,
            end_y + length <= self.height,
            offset < length,
        ensures
            match found {
                Some(y) => first_open_in_column(self@, x as int, end_y as int, length as int, offset as int, 0)
                    == Some(y as int) && end_y <= y < end_y + length,
                None => first_open_in_column(self@, x as int, end_y as int, length as int, offset as int, 0)
                    == None::<int>,
            },
    {
        let mut tried: u32 = 0;
        while tried < length
            invariant
                self.wf(),
                x < self.width,
                length >= 1,
                end_y + length <= self.height,
                offset < length,
                tried <= length,
                first_open_in_column(self@, x as int, end_y as int, length as int, offset as int, 0)
                    == first_open_in_column(
                    self@,
                    x as int,
                    end_y as int,
                    length as int,
                    offset as int,
                    tried as int,
                ),
            decreases length - tried,
        {
            let shift: u64 = (offset as u64 + tried as u64) % (length as u64);
            let y: u32 = end_y + shift as u32;
            if self.cell_open_at(x, y) {
                return Some(y);
            }
            tried += 1;
        }
        None
    }

    /// Marks every cell of `subdivision` as connected.
    fn mark_connected(&mut self, subdivision: &MazeSubdivision)
        requires
            old(self).wf(),
            subdivision.fits(old(self).width as int, old(self).height as int),
        ensures
            final(self).same_frame(old(self)),
            final(self)@ == with_rectangle_connected(old(self)@, *subdivision),
    {
        let r = *subdivision;
        let mut x: u32 = r.start_x;
        while x <= r.end_x
            invariant
                self.same_frame(old(self)),
                r.fits(self.width as int, self.height as int),
                r.start_x <= x <= r.end_x + 1,
                forall|i: int, j: int|
                    in_grid(self.width as int, self.height as int, i, j) ==> #[trigger] self@[i][j] == (if r.start_x
                        <= i < x && r.end_y <= j <= r.start_y {
                        MazeCell { is_connected: true, ..old(self)@[i][j] }
                    } else {
                        old(self)@[i][j]
                    }),
            decreases r.end_x + 1 - x,
        {
            let mut y: u32 = r.end_y;
            while y <= r.start_y
                invariant
                    self.same_frame(old(self)),
                    r.fits(self.width as int, self.height as int),
                    r.start_x <= x <= r.end_x,
                    r.end_y <= y <= r.start_y + 1,
                    forall|i: int, j: int|
                        in_grid(self.width as int, self.height as int, i, j) ==> #[trigger] self@[i][j] == (if (
                        r.start_x <= i < x && r.end_y <= j <= r.start_y) || (i == x && r.end_y <= j < y) {
                            MazeCell { is_connected: true, ..old(self)@[i][j] }
                        } else {
                            old(self)@[i][j]
                        }),
                decreases r.start_y + 1 - y,
            {
                self.update_cell_is_connected(x, y, true);
                y += 1;
            }
            x += 1;
        }
        assert(self@ =~~= with_rectangle_connected(old(self)@, r));
    }

    /// The side on which `subdivision` is to be opened, and the column or
    /// row of the wall to remove along it.
    fn find_opening(&self, subdivision: &MazeSubdivision, wall_gene: &WallGene) -> (opening: Option<
        (OpeningLocation, u32),
    >)
        requires
            self.wf(),
            subdivision.fits(self.width as int, self.height as int),
        ensures
            match opening {
                Some((side, place)) => {
                    &&& opening_of(self@, self.width as int, self.height as int, *subdivision, *wall_gene)
                        == Some((side, place as int))
                    &&& (side == OpeningLocation::North || side == OpeningLocation::South)
                        ==> subdivision.start_x <= place <= subdivision.end_x
                    &&& (side == OpeningLocation::West || side == OpeningLocation::East)
                        ==> subdivision.end_y <= place <= subdivision.start_y
                },
                None => opening_of(self@, self.width as int, self.height as int, *subdivision, *wall_gene)
                    == None::<(OpeningLocation, int)>,
            },
    {
        let r = *subdivision;
        let north: u32 = if r.start_y < self.height - 1 {
            self.count_open_in_row(r.start_y + 1, r.start_x, r.end_x)
        } else {
            0
        };
        let south: u32 = if r.end_y > 0 {
            self.count_open_in_row(r.end_y - 1, r.start_x, r.end_x)
        } else {
            0
        };
        let west: u32 = if r.start_x > 0 {
            self.count_open_in_column(r.start_x - 1, r.end_y, r.start_y)
        } else {
            0
        };
        let east: u32 = if r.end_x < self.width - 1 {
            self.count_open_in_column(r.end_x + 1, r.end_y, r.start_y)
        } else {
            0
        };
        let side = choose_opening_side(north, east, south, west, wall_gene.opening_location);
        let across: u32 = wall_gene.passage_position.scale(r.width);
        let along: u32 = wall_gene.passage_position.scale(r.height);
        match side {
            Some(OpeningLocation::North) => {
                match self.find_open_in_row(r.start_y + 1, r.start_x, r.width, across) {
                    Some(x) => Some((OpeningLocation::North, x)),
                    None => None,
                }
            },
            Some(OpeningLocation::South) => {
                match self.find_open_in_row(r.end_y - 1, r.start_x, r.width, across) {
                    Some(x) => Some((OpeningLocation::South, x)),
                    None => None,
                }
            },
            Some(OpeningLocation::West) => {
                match self.find_open_in_column(r.start_x - 1, r.end_y, r.height, along) {
                    Some(y) => Some((OpeningLocation::West, y)),
                    None => None,
                }
            },
            Some(OpeningLocation::East) => {
                match self.find_open_in_column(r.end_x + 1, r.end_y, r.height, along) {
                    Some(y) => Some((OpeningLocation::East, y)),
                    None => None,
                }
            },
            None => None,
        }
    }

    /// Opens `subdivision` towards the rest of the maze: one wall of its
    /// boundary is removed, on the side that `wall_gene` prefers if an
    /// open cell lies across it, and at the place that its passage
    /// position picks.
    pub fn insert_partition_opening(&mut self, subdivision: &MazeSubdivision, wall_gene: &WallGene)
        requires
            old(self).wf(),
            subdivision.fits(old(self).width as int, old(self).height as int),
        ensures
            final(self).same_frame(old(self)),
            final(self)@ == with_opening(
                old(self)@,
                old(self).width as int,
                old(self).height as int,
                *subdivision,
                *wall_gene,
            ),
    {
        let r = *subdivision;
        match self.find_opening(subdivision, wall_gene) {
            Some((OpeningLocation::North, x)) => {
                self.update_cell_wall_north(x, r.start_y, false);
                self.mark_connected(subdivision);
            },
            Some((OpeningLocation::South, x)) => {
                self.update_cell_wall_south(x, r.end_y, false);
                self.mark_connected(subdivision);
            },
            Some((OpeningLocation::West, y)) => {
                self.update_cell_wall_west(r.start_x, y, false);
                self.mark_connected(subdivision);
            },
            Some((OpeningLocation::East, y)) => {
                self.update_cell_wall_east(r.end_x, y, false);
                self.mark_connected(subdivision);
            },
            None => {},
        }
    }

    /// Bisects `subdivision` recursively, starting with the gene at
    /// `wall_gene_index` and taking the genes in a cycle.
    ///
    /// Each split leaves two parts with fewer rows or fewer columns than
    /// the whole, so the recursion ends, at rectangles with a single row
    /// or column.
    pub fn subdivide_subdivision(
        &mut self,
        subdivision: &MazeSubdivision,
        wall_gene_index: usize,
        wall_genes: &Vec<WallGene>,
    )
        requires
            old(self).wf(),
            subdivision.fits(old(self).width as int, old(self).height as int),
            wall_gene_index < wall_genes@.len(),
        ensures
            final(self).same_frame(old(self)),
            final(self)@ == with_bisection(old(self)@, *subdivision, wall_gene_index as int, wall_genes@),
        decreases subdivision.width + subdivision.height,
    {
        let r = *subdivision;
        if r.width <= 1 || r.height <= 1 {
            return ;
        }
        let wall_gene = wall_genes[wall_gene_index];
        let new_wall_gene_index: usize = if wall_gene_index < wall_genes.len() - 1 {
            wall_gene_index + 1
        } else {
            0
        };
        proof {
            lemma_split(r, wall_gene);
            assert(new_wall_gene_index as int == (wall_gene_index as int + 1) % (wall_genes@.len() as int)) by {
                if wall_gene_index < wall_genes@.len() - 1 {
                    vstd::arithmetic::div_mod::lemma_small_mod(
                        (wall_gene_index + 1) as nat,
                        wall_genes@.len(),
                    );
                } else {
                    vstd::arithmetic::div_mod::lemma_mod_self_0(wall_genes@.len() as int);
                }
            }
        }
        match wall_gene.orientation {
            Orientation::Horizontal => {
                let mut wall_location_y: u32 = r.end_y + wall_gene.wall_position.scale(r.height);
                if wall_location_y <= r.end_y {
                    wall_location_y = r.end_y + 1;
                }
                let passage_location_x: u32 = r.start_x + wall_gene.passage_position.scale(r.width);
                let mut x: u32 = r.start_x;
                while x <= r.end_x
                    invariant
                        self.same_frame(old(self)),
                        r.fits(self.width as int, self.height as int),
                        r.start_x <= x <= r.end_x + 1,
                        r.end_y < wall_location_y <= r.start_y,
                        forall|i: int, j: int|
                            in_grid(self.width as int, self.height as int, i, j) ==> #[trigger] self@[i][j]
                                == (if r.start_x <= i < x && j == wall_location_y {
                                MazeCell { south_wall: i != passage_location_x, ..old(self)@[i][j] }
                            } else if r.start_x <= i < x && j == wall_location_y - 1 {
                                MazeCell { north_wall: i != passage_location_x, ..old(self)@[i][j] }
                            } else {
                                old(self)@[i][j]
                            }),
                    decreases r.end_x + 1 - x,
                {
                    self.update_cell_wall_south(x, wall_location_y, x != passage_location_x);
                    x += 1;
                }
                assert(self@ =~~= with_horizontal_divide(
                    old(self)@,
                    r,
                    wall_location_y as int,
                    passage_location_x as int,
                ));
                let child_1 = MazeSubdivision {
                    start_x: r.start_x,
                    start_y: r.start_y,
                    end_x: r.end_x,
                    end_y: wall_location_y,
                    width: r.width,
                    height: r.start_y - wall_location_y + 1,
                };
                let child_2 = MazeSubdivision {
                    start_x: r.start_x,
                    start_y: wall_location_y - 1,
                    end_x: r.end_x,
                    end_y: r.end_y,
                    width: r.width,
                    height: wall_location_y - r.end_y,
                };
                self.subdivide_subdivision(&child_1, new_wall_gene_index, wall_genes);
                self.subdivide_subdivision(&child_2, new_wall_gene_index, wall_genes);
            },
            Orientation::Vertical => {
                let mut wall_location_x: u32 = r.start_x + wall_gene.wall_position.scale(r.width);
                if wall_location_x >= r.end_x {
                    wall_location_x = r.end_x - 1;
                }
                let passage_location_y: u32 = r.end_y + wall_gene.passage_position.scale(r.height);
                let mut y: u32 = r.end_y;
                while y <= r.start_y
                    invariant
                        self.same_frame(old(self)),
                        r.fits(self.width as int, self.height as int),
                        r.end_y <= y <= r.start_y + 1,
                        r.start_x <= wall_location_x < r.end_x,
                        forall|i: int, j: int|
                            in_grid(self.width as int, self.height as int, i, j) ==> #[trigger] self@[i][j]
                                == (if i == wall_location_x && r.end_y <= j < y {
                                MazeCell { east_wall: j != passage_location_y, ..old(self)@[i][j] }
                            } else if i == wall_location_x + 1 && r.end_y <= j < y {
                                MazeCell { west_wall: j != passage_location_y, ..old(self)@[i][j] }
                            } else {
                                old(self)@[i][j]
                            }),
                    decreases r.start_y + 1 - y,
                {
                    self.update_cell_wall_east(wall_location_x, y, y != passage_location_y);
                    y += 1;
                }
                assert(self@ =~~= with_vertical_divide(
                    old(self)@,
                    r,
                    wall_location_x as int,
                    passage_location_y as int,
                ));
                let child_1 = MazeSubdivision {
                    start_x: r.start_x,
                    start_y: r.start_y,
                    end_x: wall_location_x,
                    end_y: r.end_y,
                    width: wall_location_x - r.start_x + 1,
                    height: r.height,
                };
                let child_2 = MazeSubdivision {
                    start_x: wall_location_x + 1,
                    start_y: r.start_y,
                    end_x: r.end_x,
                    end_y: r.end_y,
                    width: r.end_x - wall_location_x,
                    height: r.height,
                };
                self.subdivide_subdivision(&child_1, new_wall_gene_index, wall_genes);
                self.subdivide_subdivision(&child_2, new_wall_gene_index, wall_genes);
            },
        }
    }
}

/// The side on which a rectangle is opened, given how many open cells lie
/// across each of its sides.
pub fn choose_opening_side(north: u32, east: u32, south: u32, west: u32, preferred: OpeningLocation) -> (side:
    Option<OpeningLocation>)
    ensures
        side == opening_side(north as nat, east as nat, south as nat, west as nat, preferred),
{
    let preferred_count: u32 = match preferred {
        OpeningLocation::North => north,
        OpeningLocation::East => east,
        OpeningLocation::South => south,
        OpeningLocation::West => west,
    };
    if preferred_count > 0 {
        Some(preferred)
    } else if north > 0 {
        Some(OpeningLocation::North)
    } else if south > 0 {
        Some(OpeningLocation::South)
    } else if west > 0 && west >= east {
        Some(OpeningLocation::West)
    } else if east > 0 {
        Some(OpeningLocation::East)
    } else {
        None
    }
}

} // verus!
