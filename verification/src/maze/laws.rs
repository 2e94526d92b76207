//! What holds of every compiled maze.

use crate::maze::frame::{lemma_bisection_stays_inside, lemma_walls_keep_path, same_outside};
use crate::maze::grid::{blank_grid, grid_wf, in_grid, CellGrid};
use crate::maze::maze_genotype::{route_length, PathGene, WallGene};
use crate::maze::maze_phenotype::compiled_grid;
use crate::maze::path::{valid_path, with_path};
use crate::maze::walk::{lemma_legs_shape, lemma_walk_reaches_exit, walk};
use crate::maze::walls::{
    dividing_column, dividing_row, eastern_part, gap_column, gap_row, lemma_split, lower_part,
    rectangle_is_sound, upper_part, western_part, with_bisection, with_horizontal_divide,
    with_vertical_divide, MazeSubdivision,
};
use crate::maze::Orientation;
use vstd::prelude::*;

verus! {

/// The maze that a genome compiles to is a well-formed grid, and it
/// carries the carved path unchanged.
pub proof fn lemma_compiled_path(
    width: int,
    height: int,
    first_direction: Orientation,
    path_genes: Seq<PathGene>,
    wall_genes: Seq<WallGene>,
)
    requires
        width >= 1,
        height >= 1,
        crate::maze::path::genes_in_grid(width, height, path_genes),
    ensures
        grid_wf(compiled_grid(width, height, first_direction, path_genes, wall_genes), width, height),
        forall|x: int, y: int|
            in_grid(width, height, x, y) ==> (#[trigger] compiled_grid(
                width,
                height,
                first_direction,
                path_genes,
                wall_genes,
            )[x][y]).path_direction == with_path(
                blank_grid(width, height),
                first_direction,
                width,
                height,
                path_genes,
            )[x][y].path_direction,
{
    let blank = blank_grid(width, height);
    assert(grid_wf(blank, width, height));
    lemma_legs_shape(blank, width, height, first_direction, path_genes, path_genes.len() + 1);
    let carved = with_path(blank, first_direction, width, height, path_genes);
    lemma_walls_keep_path(carved, width, height, wall_genes);
}

/// In the maze of a valid genome, the walk from the entrance that
/// follows the direction of each cell reaches the exit after exactly as
/// many steps as the route is long (the sum of the Manhattan distances
/// between its consecutive points) and not before, and it stays in the
/// grid on the way.
pub proof fn lemma_solution_path(
    width: int,
    height: int,
    first_direction: Orientation,
    path_genes: Seq<PathGene>,
    wall_genes: Seq<WallGene>,
)
    requires
        valid_path(width, height, first_direction, path_genes),
    ensures
        route_length(width, height, path_genes) >= 0,
        walk(
            compiled_grid(width, height, first_direction, path_genes, wall_genes),
            0,
            height - 1,
            route_length(width, height, path_genes) as nat,
        ) == (width - 1, 0int),
        forall|s: nat|
            s < route_length(width, height, path_genes) ==> {
                let at = #[trigger] walk(
                    compiled_grid(width, height, first_direction, path_genes, wall_genes),
                    0,
                    height - 1,
                    s,
                );
                at != (width - 1, 0int) && in_grid(width, height, at.0, at.1)
            },
{
    lemma_compiled_path(width, height, first_direction, path_genes, wall_genes);
    lemma_walk_reaches_exit(
        compiled_grid(width, height, first_direction, path_genes, wall_genes),
        width,
        height,
        first_direction,
        path_genes,
    );
}

/// Compiling is a function of the genes: two mazes compiled from the
/// same dimensions, first direction and genes are the same grid, cell by
/// cell.
pub proof fn lemma_compilation_repeats(
    first: CellGrid,
    second: CellGrid,
    width: int,
    height: int,
    first_direction: Orientation,
    path_genes: Seq<PathGene>,
    wall_genes: Seq<WallGene>,
)
    requires
        first == compiled_grid(width, height, first_direction, path_genes, wall_genes),
        second == compiled_grid(width, height, first_direction, path_genes, wall_genes),
    ensures
        first == second,
        forall|x: int, y: int| first[x][y] == second[x][y],
{
}

/// `leaf` is one of the rectangles that the bisection of `rectangle`
/// ends with: rectangles with a single row or a single column.
pub open spec fn is_leaf_of(rectangle: MazeSubdivision, gene_index: int, genes: Seq<WallGene>, leaf: MazeSubdivision) -> bool
    decreases rectangle.width + rectangle.height,
{
    if rectangle.width <= 1 || rectangle.height <= 1 || !rectangle_is_sound(rectangle) {
        leaf == rectangle
    } else {
        let gene = genes[gene_index];
        let next = (gene_index + 1) % (genes.len() as int);
        proof {
            lemma_split(rectangle, gene);
        }
        match gene.orientation {
            Orientation::Horizontal => {
                let row = dividing_row(rectangle, gene);
                is_leaf_of(upper_part(rectangle, row), next, genes, leaf) || is_leaf_of(
                    lower_part(rectangle, row),
                    next,
                    genes,
                    leaf,
                )
            },
            Orientation::Vertical => {
                let column = dividing_column(rectangle, gene);
                is_leaf_of(western_part(rectangle, column), next, genes, leaf) || is_leaf_of(
                    eastern_part(rectangle, column),
                    next,
                    genes,
                    leaf,
                )
            },
        }
    }
}

/// One of the cells along the sides of `rectangle` has no wall on that
/// side.
pub open spec fn has_open_side(grid: CellGrid, rectangle: MazeSubdivision) -> bool {
    let r = rectangle;
    ||| exists|x: int| r.start_x <= x <= r.end_x && !(#[trigger] grid[x][r.start_y as int]).north_wall
    ||| exists|x: int| r.start_x <= x <= r.end_x && !(#[trigger] grid[x][r.end_y as int]).south_wall
    ||| exists|y: int| r.end_y <= y <= r.start_y && !(#[trigger] grid[r.start_x as int][y]).west_wall
    ||| exists|y: int| r.end_y <= y <= r.start_y && !(#[trigger] grid[r.end_x as int][y]).east_wall
}

/// `inner` lies within `outer`.
pub open spec fn lies_within(inner: MazeSubdivision, outer: MazeSubdivision) -> bool {
    &&& outer.start_x <= inner.start_x <= inner.end_x <= outer.end_x
    &&& outer.end_y <= inner.end_y <= inner.start_y <= outer.start_y
}

/// Every rectangle that a bisection ends with is sound and lies within
/// the rectangle that was bisected.
pub proof fn lemma_leaf_lies_within(
    rectangle: MazeSubdivision,
    gene_index: int,
    genes: Seq<WallGene>,
    leaf: MazeSubdivision,
)
    requires
        rectangle_is_sound(rectangle),
        is_leaf_of(rectangle, gene_index, genes, leaf),
    ensures
        rectangle_is_sound(leaf),
        lies_within(leaf, rectangle),
        leaf.width <= 1 || leaf.height <= 1,
    decreases rectangle.width + rectangle.height,
{
    if rectangle.width <= 1 || rectangle.height <= 1 {
    } else {
        let gene = genes[gene_index];
        let next = (gene_index + 1) % (genes.len() as int);
        lemma_split(rectangle, gene);
        match gene.orientation {
            Orientation::Horizontal => {
                let row = dividing_row(rectangle, gene);
                if is_leaf_of(upper_part(rectangle, row), next, genes, leaf) {
                    lemma_leaf_lies_within(upper_part(rectangle, row), next, genes, leaf);
                } else {
                    lemma_leaf_lies_within(lower_part(rectangle, row), next, genes, leaf);
                }
            },
            Orientation::Vertical => {
                let column = dividing_column(rectangle, gene);
                if is_leaf_of(western_part(rectangle, column), next, genes, leaf) {
                    lemma_leaf_lies_within(western_part(rectangle, column), next, genes, leaf);
                } else {
                    lemma_leaf_lies_within(eastern_part(rectangle, column), next, genes, leaf);
                }
            },
        }
    }
}

/// A change that stays inside a rectangle leaves a rectangle beside it
/// its open side.
pub proof fn lemma_open_side_kept(
    before: CellGrid,
    after: CellGrid,
    width: int,
    height: int,
    changed: MazeSubdivision,
    other: MazeSubdivision,
)
    requires
        grid_wf(before, width, height),
        same_outside(before, after, width, height, changed),
        other.fits(width, height),
        forall|x: int, y: int| other.contains(x, y) ==> !changed.contains(x, y),
        has_open_side(before, other),
    ensures
        has_open_side(after, other),
{
    let r = other;
    if exists|x: int| r.start_x <= x <= r.end_x && !(#[trigger] before[x][r.start_y as int]).north_wall {
        let x = choose|x: int| r.start_x <= x <= r.end_x && !(#[trigger] before[x][r.start_y as int]).north_wall;
        assert(r.contains(x, r.start_y as int));
        assert(after[x][r.start_y as int] == before[x][r.start_y as int]);
    } else if exists|x: int| r.start_x <= x <= r.end_x && !(#[trigger] before[x][r.end_y as int]).south_wall {
        let x = choose|x: int| r.start_x <= x <= r.end_x && !(#[trigger] before[x][r.end_y as int]).south_wall;
        assert(r.contains(x, r.end_y as int));
        assert(after[x][r.end_y as int] == before[x][r.end_y as int]);
    } else if exists|y: int| r.end_y <= y <= r.start_y && !(#[trigger] before[r.start_x as int][y]).west_wall {
        let y = choose|y: int| r.end_y <= y <= r.start_y && !(#[trigger] before[r.start_x as int][y]).west_wall;
        assert(r.contains(r.start_x as int, y));
        assert(after[r.start_x as int][y] == before[r.start_x as int][y]);
    } else {
        let y = choose|y: int| r.end_y <= y <= r.start_y && !(#[trigger] before[r.end_x as int][y]).east_wall;
        assert(r.contains(r.end_x as int, y));
        assert(after[r.end_x as int][y] == before[r.end_x as int][y]);
    }
}

/// After a bisection, every rectangle that it ends with has an open
/// side; a rectangle that is not divided at all keeps the one that it
/// had.
pub proof fn lemma_leaves_stay_open(
    grid: CellGrid,
    width: int,
    height: int,
    rectangle: MazeSubdivision,
    gene_index: int,
    genes: Seq<WallGene>,
    leaf: MazeSubdivision,
)
    requires
        grid_wf(grid, width, height),
        rectangle.fits(width, height),
        rectangle.width <= 1 || rectangle.height <= 1 ==> has_open_side(grid, rectangle),
        is_leaf_of(rectangle, gene_index, genes, leaf),
    ensures
        has_open_side(with_bisection(grid, rectangle, gene_index, genes), leaf),
    decreases rectangle.width + rectangle.height,
{
    let r = rectangle;
    if r.width <= 1 || r.height <= 1 {
    } else {
        let gene = genes[gene_index];
        let next = (gene_index + 1) % (genes.len() as int);
        lemma_split(r, gene);
        match gene.orientation {
            Orientation::Horizontal => {
                let row = dividing_row(r, gene);
                let gap = gap_column(r, gene);
                let divided = with_horizontal_divide(grid, r, row, gap);
                let upper = upper_part(r, row);
                let lower = lower_part(r, row);
                assert(grid_wf(divided, width, height));
                assert(!divided[gap][row].south_wall);
                assert(!divided[gap][row - 1].north_wall);
                assert(has_open_side(divided, upper));
                assert(has_open_side(divided, lower));
                lemma_bisection_stays_inside(divided, width, height, upper, next, genes);
                let halfway = with_bisection(divided, upper, next, genes);
                lemma_bisection_stays_inside(halfway, width, height, lower, next, genes);
                if is_leaf_of(upper, next, genes, leaf) {
                    lemma_leaves_stay_open(divided, width, height, upper, next, genes, leaf);
                    lemma_leaf_lies_within(upper, next, genes, leaf);
                    lemma_open_side_kept(
                        halfway,
                        with_bisection(halfway, lower, next, genes),
                        width,
                        height,
                        lower,
                        leaf,
                    );
                } else {
                    lemma_open_side_kept(divided, halfway, width, height, upper, lower);
                    lemma_leaves_stay_open(halfway, width, height, lower, next, genes, leaf);
                }
            },
            Orientation::Vertical => {
                let column = dividing_column(r, gene);
                let gap = gap_row(r, gene);
                let divided = with_vertical_divide(grid, r, column, gap);
                let western = western_part(r, column);
                let eastern = eastern_part(r, column);
                assert(grid_wf(divided, width, height));
                assert(!divided[column][gap].east_wall);
                assert(!divided[column + 1][gap].west_wall);
                assert(has_open_side(divided, western));
                assert(has_open_side(divided, eastern));
                lemma_bisection_stays_inside(divided, width, height, western, next, genes);
                let halfway = with_bisection(divided, western, next, genes);
                lemma_bisection_stays_inside(halfway, width, height, eastern, next, genes);
                if is_leaf_of(western, next, genes, leaf) {
                    lemma_leaves_stay_open(divided, width, height, western, next, genes, leaf);
                    lemma_leaf_lies_within(western, next, genes, leaf);
                    lemma_open_side_kept(
                        halfway,
                        with_bisection(halfway, eastern, next, genes),
                        width,
                        height,
                        eastern,
                        leaf,
                    );
                } else {
                    lemma_open_side_kept(divided, halfway, width, height, western, eastern);
                    lemma_leaves_stay_open(halfway, width, height, eastern, next, genes, leaf);
                }
            },
        }
    }
}

/// The bisection of a rectangle with more than one row and more than one
/// column ends, since each part has fewer rows or fewer columns than the
/// whole; and every rectangle that it ends with has a side without a
/// wall, towards the part that it was divided from.
pub proof fn lemma_bisection_leaves_open(
    grid: CellGrid,
    width: int,
    height: int,
    rectangle: MazeSubdivision,
    gene_index: int,
    genes: Seq<WallGene>,
    leaf: MazeSubdivision,
)
    requires
        grid_wf(grid, width, height),
        rectangle.fits(width, height),
        rectangle.width > 1,
        rectangle.height > 1,
        is_leaf_of(rectangle, gene_index, genes, leaf),
    ensures
        has_open_side(with_bisection(grid, rectangle, gene_index, genes), leaf),
        lies_within(leaf, rectangle),
        leaf.width + leaf.height < rectangle.width + rectangle.height,
{
    let r = rectangle;
    let gene = genes[gene_index];
    let next = (gene_index + 1) % (genes.len() as int);
    lemma_split(r, gene);
    lemma_leaf_lies_within(r, gene_index, genes, leaf);
    lemma_leaves_stay_open(grid, width, height, r, gene_index, genes, leaf);
    match gene.orientation {
        Orientation::Horizontal => {
            let row = dividing_row(r, gene);
            if is_leaf_of(upper_part(r, row), next, genes, leaf) {
                lemma_leaf_lies_within(upper_part(r, row), next, genes, leaf);
            } else {
                lemma_leaf_lies_within(lower_part(r, row), next, genes, leaf);
            }
        },
        Orientation::Vertical => {
            let column = dividing_column(r, gene);
            if is_leaf_of(western_part(r, column), next, genes, leaf) {
                lemma_leaf_lies_within(western_part(r, column), next, genes, leaf);
            } else {
                lemma_leaf_lies_within(eastern_part(r, column), next, genes, leaf);
            }
        },
    }
}

} // verus!
