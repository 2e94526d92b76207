//! The maze genotype: dimensions, waypoints, wall genes, and the mutations
//! that keep a genome valid.

use crate::fraction::Fraction;
use crate::maze::connectivity::connected;
use crate::maze::grid::in_grid;
use crate::maze::maze_phenotype::{compiled_grid, MazePhenotype};
use crate::maze::joined::everywhere;
use crate::maze::maze_validator::MazeValidator;
use crate::maze::path::{gap, genes_in_grid, lemma_growth_keeps_valid, route_point, valid_path};
use crate::random::{random_below, random_bits};
use crate::maze::{OpeningLocation, Orientation, PathDirection};
use vstd::prelude::*;

verus! {

/// A wall gene: how a free rectangle is opened and split.
#[derive(Debug, Clone, Copy, PartialEq, Eq, Structural)]
pub struct WallGene {
    /// Where the dividing wall stands, as a fraction of the rectangle's
    /// extent across the wall.
    pub wall_position: Fraction,
    /// Where the gap stands, as a fraction of the rectangle's extent along
    /// the wall.
    pub passage_position: Fraction,
    /// The axis of the dividing wall.
    pub orientation: Orientation,
    /// The side on which the rectangle's opening is preferred.
    pub opening_location: OpeningLocation,
}

impl WallGene {
    /// The gene with the given fields.
    pub fn new(
        wall_position: Fraction,
        passage_position: Fraction,
        orientation: Orientation,
        opening_location: OpeningLocation,
    ) -> (gene: WallGene)
        ensures
            gene == (WallGene { wall_position, passage_position, orientation, opening_location }),
    {
        WallGene { wall_position, passage_position, orientation, opening_location }
    }

    /// Replaces the position of the dividing wall.
    pub fn set_wall_position(&mut self, value: Fraction)
        ensures
            *final(self) == (WallGene { wall_position: value, ..*old(self) }),
    {
        self.wall_position = value;
    }

    /// Replaces the position of the gap.
    pub fn set_passage_position(&mut self, value: Fraction)
        ensures
            *final(self) == (WallGene { passage_position: value, ..*old(self) }),
    {
        self.passage_position = value;
    }
}

/// A waypoint of the path: a grid cell that the path passes through.
#[derive(Debug, Clone, Copy, PartialEq, Eq, Structural)]
pub struct PathGene {
    pub x: u32,
    pub y: u32,
}

impl PathGene {
    /// The waypoint at `(x, y)`.
    pub fn new(x: u32, y: u32) -> (gene: PathGene)
        ensures
            gene.x == x,
            gene.y == y,
    {
        PathGene { x, y }
    }

    /// The waypoint as a point of the plane.
    pub open spec fn point(self) -> (int, int) {
        (self.x as int, self.y as int)
    }
}

/// What a maze genome holds, as mathematical values.
pub struct MazeGenomeModel {
    pub width: u32,
    pub height: u32,
    pub first_direction: Orientation,
    pub path_genes: Seq<PathGene>,
    pub wall_genes: Seq<WallGene>,
    pub viable: bool,
    pub id: u32,
    pub successful_agent_id: Option<u32>,
}

/// A maze genome.
///
/// The path starts at the entrance `(0, height - 1)`, passes through the
/// waypoints `path_genes` in order and ends at the exit `(width - 1, 0)`.
/// The wall genes are used in a cycle when the free space is walled.
#[derive(Debug)]
pub struct MazeGenome {
    pub width: u32,
    pub height: u32,
    /// The axis of the first segment of every leg of the path.
    pub first_direction: Orientation,
    pub path_genes: Vec<PathGene>,
    pub wall_genes: Vec<WallGene>,
    /// The maze has been solved by an agent.
    pub viable: bool,
    pub id: u32,
    /// The agent that solved the maze.
    pub successful_agent_id: Option<u32>,
}

impl View for MazeGenome {
    type V = MazeGenomeModel;

    open spec fn view(&self) -> MazeGenomeModel {
        MazeGenomeModel {
            width: self.width,
            height: self.height,
            first_direction: self.first_direction,
            path_genes: self.path_genes@,
            wall_genes: self.wall_genes@,
            viable: self.viable,
            id: self.id,
            successful_agent_id: self.successful_agent_id,
        }
    }
}

impl MazeGenomeModel {
    /// The genome with the wall position of wall gene `index` replaced.
    pub open spec fn with_wall_position(self, index: int, value: Fraction) -> MazeGenomeModel {
        MazeGenomeModel {
            wall_genes: self.wall_genes.update(index, WallGene { wall_position: value, ..self.wall_genes[index] }),
            ..self
        }
    }

    /// The genome with the passage position of wall gene `index`
    /// replaced.
    pub open spec fn with_passage_position(self, index: int, value: Fraction) -> MazeGenomeModel {
        MazeGenomeModel {
            wall_genes: self.wall_genes.update(
                index,
                WallGene { passage_position: value, ..self.wall_genes[index] },
            ),
            ..self
        }
    }

    /// The genome with `gene` appended to its wall genes.
    pub open spec fn with_wall(self, gene: WallGene) -> MazeGenomeModel {
        MazeGenomeModel { wall_genes: self.wall_genes.push(gene), ..self }
    }

    /// The genome without its wall gene `index`.
    pub open spec fn without_wall(self, index: int) -> MazeGenomeModel {
        MazeGenomeModel { wall_genes: self.wall_genes.remove(index), ..self }
    }

    /// The genome with other waypoints.
    pub open spec fn with_path_genes(self, genes: Seq<PathGene>) -> MazeGenomeModel {
        MazeGenomeModel { path_genes: genes, ..self }
    }

    /// The genome on a grid with one more row and one more column.
    pub open spec fn grown(self) -> MazeGenomeModel {
        MazeGenomeModel { width: (self.width + 1) as u32, height: (self.height + 1) as u32, ..self }
    }

    /// The genome with `gene` appended to its waypoints.
    pub open spec fn with_waypoint(self, gene: PathGene) -> MazeGenomeModel {
        MazeGenomeModel { path_genes: self.path_genes.push(gene), ..self }
    }

    /// The waypoint `gene` may be appended: it lies in the grid, off the
    /// present route, in another row and another column than the last
    /// waypoint, and the route through it is valid.
    pub open spec fn accepts_waypoint(self, gene: PathGene) -> bool {
        &&& gene.x < self.width
        &&& gene.y < self.height
        &&& !(self.path_genes.len() > 0 && (gene.x == self.path_genes[self.path_genes.len() - 1].x || gene.y
            == self.path_genes[self.path_genes.len() - 1].y))
        &&& !crate::maze::path::claimed(
            self.width as int,
            self.height as int,
            self.first_direction,
            self.path_genes,
            self.path_genes.len() + 1,
            gene.x as int,
            gene.y as int,
        )
        &&& !(gene.x == self.width - 1 && gene.y == 0)
        &&& valid_path(self.width as int, self.height as int, self.first_direction, self.path_genes.push(gene))
    }

    /// The genome after `gene` has been proposed as a waypoint: with the
    /// waypoint where it may be appended, unchanged where not.
    pub open spec fn after_proposal(self, gene: PathGene) -> MazeGenomeModel {
        if self.accepts_waypoint(gene) {
            self.with_waypoint(gene)
        } else {
            self
        }
    }

    /// The genome can be compiled: the grid has at least two rows and two
    /// columns, there is a wall gene, and the path visits no cell twice.
    pub open spec fn wf(self) -> bool {
        &&& self.width >= 2
        &&& self.height >= 2
        &&& self.wall_genes.len() >= 1
        &&& valid_path(self.width as int, self.height as int, self.first_direction, self.path_genes)
    }
}

/// The chance of each kind of mutation when a maze genome mutates.
#[derive(Debug, Clone, Copy, PartialEq, Eq, Structural)]
pub struct MazeMutationConfig {
    pub mutate_wall: Fraction,
    pub mutate_passage: Fraction,
    pub mutate_waypoint: Fraction,
    pub add_wall: Fraction,
    pub delete_wall: Fraction,
    pub add_waypoint: Fraction,
    pub increase_size: Fraction,
}

impl Default for MazeMutationConfig {
    /// The usual rates: 5% for moving a wall, a passage or a waypoint,
    /// 10% for a new wall, a new waypoint or a larger grid, and 0.5% for
    /// removing a wall.
    fn default() -> (config: MazeMutationConfig)
        ensures
            config.mutate_wall.bits == 214748364,
            config.mutate_passage.bits == 214748364,
            config.mutate_waypoint.bits == 214748364,
            config.add_wall.bits == 429496729,
            config.delete_wall.bits == 21474836,
            config.add_waypoint.bits == 429496729,
            config.increase_size.bits == 429496729,
    {
        MazeMutationConfig {
            mutate_wall: Fraction::from_ratio(5, 100),
            mutate_passage: Fraction::from_ratio(5, 100),
            mutate_waypoint: Fraction::from_ratio(5, 100),
            add_wall: Fraction::from_ratio(10, 100),
            delete_wall: Fraction::from_ratio(5, 1000),
            add_waypoint: Fraction::from_ratio(10, 100),
            increase_size: Fraction::from_ratio(10, 100),
        }
    }
}

/// One if the leg from `a` to `b` turns, zero if it runs straight.
pub open spec fn leg_turns(a: (int, int), b: (int, int)) -> int {
    if a.0 != b.0 && a.1 != b.1 {
        1
    } else {
        0
    }
}

/// What the last waypoint adds to the count of junctures, besides the
/// turn of the leg that reaches it.
pub open spec fn last_waypoint_turns(width: int, first: Orientation, gene: PathGene) -> int {
    if gene.x != width - 1 && gene.y != 0 {
        1
    } else if first == Orientation::Vertical && gene.x == width - 1 && gene.y != 0 {
        1
    } else if first == Orientation::Horizontal && gene.x != width - 1 && gene.y == 0 {
        1
    } else {
        0
    }
}

/// The junctures counted at the first `count` waypoints: at each, the
/// turn of the leg that reaches it, and the turn of the leg that leaves
/// it (at the last waypoint, what `last_waypoint_turns` says instead).
pub open spec fn junctures_at_waypoints(
    width: int,
    height: int,
    first: Orientation,
    genes: Seq<PathGene>,
    count: nat,
) -> int
    decreases count,
{
    if count == 0 {
        0
    } else {
        let i = count - 1;
        junctures_at_waypoints(width, height, first, genes, i as nat) + leg_turns(
            route_point(width, height, genes, i),
            route_point(width, height, genes, i + 1),
        ) + (if i < genes.len() - 1 {
            leg_turns(route_point(width, height, genes, i + 1), route_point(width, height, genes, i + 2))
        } else {
            last_waypoint_turns(width, first, genes[i])
        })
    }
}

/// The measure of path complexity that the queues report: the junctures
/// counted at every waypoint, and the turn of the leg to the exit once
/// more.
pub open spec fn amount_of_junctures(width: int, height: int, first: Orientation, genes: Seq<PathGene>) -> int {
    junctures_at_waypoints(width, height, first, genes, genes.len()) + leg_turns(
        route_point(width, height, genes, genes.len() as int),
        (width - 1, 0),
    )
}

/// The number of steps along the first `count` legs of the route.
pub open spec fn legs_length(width: int, height: int, genes: Seq<PathGene>, count: nat) -> int
    decreases count,
{
    if count == 0 {
        0
    } else {
        let a = route_point(width, height, genes, count - 1);
        let b = route_point(width, height, genes, count as int);
        legs_length(width, height, genes, (count - 1) as nat) + gap(a.0, b.0) + gap(a.1, b.1)
    }
}

/// The number of steps from the entrance to the exit along the route:
/// the sum of the Manhattan distances between consecutive points.
pub open spec fn route_length(width: int, height: int, genes: Seq<PathGene>) -> int {
    legs_length(width, height, genes, genes.len() + 1)
}

/// The legs of a route have no negative length.
pub proof fn lemma_legs_length_grows(width: int, height: int, genes: Seq<PathGene>, shorter: nat, longer: nat)
    requires
        shorter <= longer,
    ensures
        0 <= legs_length(width, height, genes, shorter) <= legs_length(width, height, genes, longer),
    decreases longer,
{
    if longer > 0 {
        if shorter < longer {
            lemma_legs_length_grows(width, height, genes, shorter, (longer - 1) as nat);
        } else {
            lemma_legs_length_grows(width, height, genes, (shorter - 1) as nat, (longer - 1) as nat);
        }
    }
}

/// The distance between two coordinates.
fn coordinate_gap(a: u32, b: u32) -> (distance: u32)
    ensures
        distance == gap(a as int, b as int),
{
    if a <= b {
        b - a
    } else {
        a - b
    }
}

impl MazeGenome {
    /// The genome can be compiled: see [`MazeGenomeModel::wf`].
    pub open spec fn wf(&self) -> bool {
        self@.wf()
    }

    /// A genome with the given genes, marked viable and not yet solved.
    pub fn new(
        width: u32,
        height: u32,
        first_direction: Orientation,
        path_genes: Vec<PathGene>,
        wall_genes: Vec<WallGene>,
        id: u32,
    ) -> (genome: MazeGenome)
        ensures
            genome@ == (MazeGenomeModel {
                width,
                height,
                first_direction,
                path_genes: path_genes@,
                wall_genes: wall_genes@,
                viable: true,
                id,
                successful_agent_id: None,
            }),
    {
        MazeGenome {
            width,
            height,
            first_direction,
            path_genes,
            wall_genes,
            viable: true,
            id,
            successful_agent_id: None,
        }
    }

    /// Whether the genome can be compiled.
    pub fn is_valid(&self) -> (valid: bool)
        ensures
            valid == self@.wf(),
    {
        self.width >= 2 && self.height >= 2 && self.wall_genes.len() >= 1
            && MazeValidator::validate_new_path(
            self.width,
            self.height,
            self.first_direction,
            &self.path_genes,
        )
    }

    /// The complexity of the path as the queues report it.
    pub fn get_amount_of_junctures(&self) -> (amount: u32)
        requires
            self.width >= 1,
            self.height >= 1,
            self.path_genes@.len() <= 0x7FFF_FFFF,
        ensures
            amount == amount_of_junctures(
                self.width as int,
                self.height as int,
                self.first_direction,
                self.path_genes@,
            ),
    {
        let ghost width = self.width as int;
        let ghost height = self.height as int;
        let mut sum: u32 = 0;
        let mut previous_x: u32 = 0;
        let mut previous_y: u32 = self.height - 1;
        let mut i: usize = 0;
        while i < self.path_genes.len()
            invariant
                width == self.width,
                height == self.height,
                width >= 1,
                height >= 1,
                self.path_genes@.len() <= 0x7FFF_FFFF,
                i <= self.path_genes@.len(),
                (previous_x as int, previous_y as int) == route_point(width, height, self.path_genes@, i as int),
                sum == junctures_at_waypoints(width, height, self.first_direction, self.path_genes@, i as nat),
                sum <= 2 * i,
            decreases self.path_genes@.len() - i,
        {
            let path_gene = self.path_genes[i];
            if path_gene.x != previous_x && path_gene.y != previous_y {
                sum += 1;
            }
            if i < self.path_genes.len() - 1 {
                let next = self.path_genes[i + 1];
                if path_gene.x != next.x && path_gene.y != next.y {
                    sum += 1;
                }
            } else {
                if path_gene.x != self.width - 1 && path_gene.y != 0 {
                    sum += 1;
                } else if self.first_direction == Orientation::Vertical && path_gene.x == self.width - 1
                    && path_gene.y != 0 {
                    sum += 1;
                } else if self.first_direction == Orientation::Horizontal && path_gene.x != self.width
                    - 1 && path_gene.y == 0 {
                    sum += 1;
                }
            }
            previous_x = path_gene.x;
            previous_y = path_gene.y;
            i += 1;
        }
        if previous_x != self.width - 1 && previous_y != 0 {
            sum += 1;
        }
        sum
    }

    /// The number of steps from the entrance to the exit along the path.
    pub fn get_solution_path_cell_length(&self) -> (length: u32)
        requires
            self.width >= 1,
            self.height >= 1,
            route_length(self.width as int, self.height as int, self.path_genes@) <= u32::MAX,
        ensures
            length == route_length(self.width as int, self.height as int, self.path_genes@),
    {
        let ghost width = self.width as int;
        let ghost height = self.height as int;
        let ghost total = route_length(width, height, self.path_genes@);
        let mut length: u32 = 0;
        let mut current_x: u32 = 0;
        let mut current_y: u32 = self.height - 1;
        let mut i: usize = 0;
        while i < self.path_genes.len()
            invariant
                width == self.width,
                height == self.height,
                width >= 1,
                height >= 1,
                total == route_length(width, height, self.path_genes@),
                total <= u32::MAX,
                i <= self.path_genes@.len(),
                (current_x as int, current_y as int) == route_point(width, height, self.path_genes@, i as int),
                length == legs_length(width, height, self.path_genes@, i as nat),
            decreases self.path_genes@.len() - i,
        {
            let path_gene = self.path_genes[i];
            proof {
                lemma_legs_length_grows(
                    width,
                    height,
                    self.path_genes@,
                    (i + 1) as nat,
                    self.path_genes@.len() + 1,
                );
            }
            length += coordinate_gap(current_x, path_gene.x);
            length += coordinate_gap(current_y, path_gene.y);
            current_x = path_gene.x;
            current_y = path_gene.y;
            i += 1;
        }
        length += coordinate_gap(current_x, self.width - 1);
        length += coordinate_gap(current_y, 0);
        length
    }

    /// Compiles the genome into its maze.
    ///
    /// In the maze of a valid genome, the walk from the entrance along
    /// the directions of the cells reaches the exit after as many steps
    /// as the path is long, and every cell can be reached from the
    /// entrance without passing a wall.
    pub fn to_phenotype(&self) -> (phenotype: MazePhenotype)
        requires
            self.width >= 1,
            self.height >= 1,
            genes_in_grid(self.width as int, self.height as int, self.path_genes@),
            self.wall_genes@.len() >= 1,
        ensures
            phenotype.wf(),
            phenotype.width == self.width,
            phenotype.height == self.height,
            phenotype.first_direction == self.first_direction,
            phenotype@ == compiled_grid(
                self.width as int,
                self.height as int,
                self.first_direction,
                self.path_genes@,
                self.wall_genes@,
            ),
            self@.wf() ==> crate::maze::walk::walk(
                phenotype@,
                0,
                self.height - 1,
                route_length(self.width as int, self.height as int, self.path_genes@) as nat,
            ) == (self.width - 1, 0int),
            self@.wf() ==> forall|s: nat|
                s < route_length(self.width as int, self.height as int, self.path_genes@) ==> #[trigger] crate::maze::walk::walk(
                    phenotype@,
                    0,
                    self.height - 1,
                    s,
                ) != (self.width - 1, 0int),
            self@.wf() ==> forall|x: int, y: int|
                in_grid(self.width as int, self.height as int, x, y) ==> #[trigger] connected(
                    phenotype@,
                    self.width as int,
                    self.height as int,
                    everywhere(),
                    (0, self.height - 1),
                    (x, y),
                ),
    {
        proof {
            if self@.wf() {
                crate::maze::joined::lemma_compiled_maze_is_connected(
                    self.width as int,
                    self.height as int,
                    self.first_direction,
                    self.path_genes@,
                    self.wall_genes@,
                );
                crate::maze::laws::lemma_solution_path(
                    self.width as int,
                    self.height as int,
                    self.first_direction,
                    self.path_genes@,
                    self.wall_genes@,
                );
            }
        }
        MazePhenotype::new(self.width, self.height, self.first_direction, &self.path_genes, &self.wall_genes)
    }
}

/// The `index`-th of the four directions in which a waypoint can move,
/// the indices being taken in a cycle: north, east, south, west.
pub open spec fn direction_at(index: int) -> PathDirection {
    if index % 4 == 0 {
        PathDirection::North
    } else if index % 4 == 1 {
        PathDirection::East
    } else if index % 4 == 2 {
        PathDirection::South
    } else {
        PathDirection::West
    }
}

/// The waypoint `index` of `genes` may move one cell in `direction`: the
/// move stays in the grid, and it does not bring the waypoint into the
/// row (for a move north or south) or column (for a move east or west)
/// of the point before it or after it on the route.
pub open spec fn direction_is_legal(
    width: int,
    height: int,
    genes: Seq<PathGene>,
    index: int,
    direction: PathDirection,
) -> bool {
    let gene = genes[index].point();
    let before = route_point(width, height, genes, index);
    let after = route_point(width, height, genes, index + 2);
    match direction {
        PathDirection::North => gene.1 < height - 1 && after.1 != gene.1 + 1 && before.1 != gene.1 + 1,
        PathDirection::East => gene.0 < width - 1 && after.0 != gene.0 + 1 && before.0 != gene.0 + 1,
        PathDirection::South => gene.1 > 0 && after.1 != gene.1 - 1 && before.1 != gene.1 - 1,
        PathDirection::West => gene.0 > 0 && after.0 != gene.0 - 1 && before.0 != gene.0 - 1,
        PathDirection::Unset => true,
    }
}

/// The first legal direction for waypoint `index` among
/// `direction_at(start + tried)`, `direction_at(start + tried + 1)` and so
/// on, up to four directions in all.
pub open spec fn first_legal_direction(
    width: int,
    height: int,
    genes: Seq<PathGene>,
    index: int,
    start: int,
    tried: int,
) -> Option<PathDirection>
    decreases 4 - tried,
{
    if tried >= 4 {
        None
    } else if direction_is_legal(width, height, genes, index, direction_at(start + tried)) {
        Some(direction_at(start + tried))
    } else {
        first_legal_direction(width, height, genes, index, start, tried + 1)
    }
}

/// The waypoint one cell from `gene` in `direction`.
pub open spec fn moved_gene(gene: PathGene, direction: PathDirection) -> PathGene {
    match direction {
        PathDirection::North => PathGene { y: (gene.y + 1) as u32, ..gene },
        PathDirection::East => PathGene { x: (gene.x + 1) as u32, ..gene },
        PathDirection::South => PathGene { y: (gene.y - 1) as u32, ..gene },
        PathDirection::West => PathGene { x: (gene.x - 1) as u32, ..gene },
        PathDirection::Unset => gene,
    }
}

/// The move of `gene` in `direction` does not leave the range of its
/// coordinates.
pub open spec fn move_fits(gene: PathGene, direction: PathDirection) -> bool {
    match direction {
        PathDirection::North => gene.y < u32::MAX,
        PathDirection::East => gene.x < u32::MAX,
        PathDirection::South => gene.y > 0,
        PathDirection::West => gene.x > 0,
        PathDirection::Unset => true,
    }
}

impl MazeGenomeModel {
    /// The genome after an attempt to move the waypoint `index` by one
    /// cell: in the first legal direction among the four that start with
    /// `direction_at(start)`, if there is one and the path stays valid;
    /// unchanged otherwise.
    pub open spec fn after_move(self, index: int, start: int) -> MazeGenomeModel {
        match first_legal_direction(self.width as int, self.height as int, self.path_genes, index, start, 0) {
            Some(direction) => {
                let genes = self.path_genes.update(index, moved_gene(self.path_genes[index], direction));
                if valid_path(self.width as int, self.height as int, self.first_direction, genes) {
                    self.with_path_genes(genes)
                } else {
                    self
                }
            },
            None => self,
        }
    }
}

/// `after` is `before` with another wall position in one wall gene.
pub open spec fn is_wall_moved(before: MazeGenomeModel, after: MazeGenomeModel) -> bool {
    exists|index: int, value: Fraction|
        0 <= index < before.wall_genes.len() && after == #[trigger] before.with_wall_position(index, value)
}

/// `after` is `before` with another passage position in one wall gene.
pub open spec fn is_passage_moved(before: MazeGenomeModel, after: MazeGenomeModel) -> bool {
    exists|index: int, value: Fraction|
        0 <= index < before.wall_genes.len() && after == #[trigger] before.with_passage_position(index, value)
}

/// `after` is `before` after an attempt to move one of its waypoints,
/// starting with one of the four directions; without waypoints, `after`
/// is `before`.
pub open spec fn is_waypoint_moved(before: MazeGenomeModel, after: MazeGenomeModel) -> bool {
    if before.path_genes.len() == 0 {
        after == before
    } else {
        exists|index: int, start: int|
            0 <= index < before.path_genes.len() && 0 <= start < 4 && after == #[trigger] before.after_move(
                index,
                start,
            )
    }
}

/// `after` is `before` with one wall gene more.
pub open spec fn is_wall_added(before: MazeGenomeModel, after: MazeGenomeModel) -> bool {
    exists|gene: WallGene| after == #[trigger] before.with_wall(gene)
}

/// `after` is `before` without one of its wall genes; a genome with a
/// single wall gene keeps it.
pub open spec fn is_wall_deleted(before: MazeGenomeModel, after: MazeGenomeModel) -> bool {
    if before.wall_genes.len() <= 1 {
        after == before
    } else {
        exists|index: int| 0 <= index < before.wall_genes.len() && after == #[trigger] before.without_wall(index)
    }
}

/// `after` is `before` after a cell of the grid has been proposed as a
/// waypoint.
pub open spec fn is_waypoint_proposed(before: MazeGenomeModel, after: MazeGenomeModel) -> bool {
    exists|gene: PathGene|
        gene.x < before.width && gene.y < before.height && after == #[trigger] before.after_proposal(gene)
}

/// `after` is `before` on a grid with one more row and one more column.
pub open spec fn is_grown(before: MazeGenomeModel, after: MazeGenomeModel) -> bool {
    before.width < u32::MAX && before.height < u32::MAX && after == before.grown()
}

/// `states` are the genomes that a mutation passes through: the genome
/// before it, then the genome after each of the seven kinds of mutation
/// has had its turn, in this order: a wall position, a passage position,
/// a waypoint move, a new wall, the loss of a wall, a new waypoint, a
/// larger grid. A kind whose chance is zero is never applied, and a kind
/// that is not applied leaves the genome as it is.
pub open spec fn is_mutation_history(states: Seq<MazeGenomeModel>, config: MazeMutationConfig) -> bool {
    &&& states.len() == 8
    &&& states[1] == states[0] || (config.mutate_wall.bits > 0 && is_wall_moved(states[0], states[1]))
    &&& states[2] == states[1] || (config.mutate_passage.bits > 0 && is_passage_moved(states[1], states[2]))
    &&& states[3] == states[2] || (config.mutate_waypoint.bits > 0 && is_waypoint_moved(states[2], states[3]))
    &&& states[4] == states[3] || (config.add_wall.bits > 0 && is_wall_added(states[3], states[4]))
    &&& states[5] == states[4] || (config.delete_wall.bits > 0 && is_wall_deleted(states[4], states[5]))
    &&& states[6] == states[5] || (config.add_waypoint.bits > 0 && is_waypoint_proposed(states[5], states[6]))
    &&& states[7] == states[6] || (config.increase_size.bits > 0 && is_grown(states[6], states[7]))
}

/// `after` can come from `before` by a mutation with the chances of
/// `config`.
pub open spec fn is_mutation_with(before: MazeGenomeModel, after: MazeGenomeModel, config: MazeMutationConfig) -> bool {
    exists|states: Seq<MazeGenomeModel>|
        #[trigger] is_mutation_history(states, config) && states[0] == before && states[7] == after
}

/// The opening side that a random fraction picks: north below a quarter,
/// east below a half, south below three quarters, west from there on.
pub open spec fn opening_for(number: Fraction) -> OpeningLocation {
    if number.bits < 0x4000_0000 {
        OpeningLocation::North
    } else if number.bits < 0x8000_0000 {
        OpeningLocation::East
    } else if number.bits < 0xC000_0000 {
        OpeningLocation::South
    } else {
        OpeningLocation::West
    }
}

/// The orientation that a random fraction picks: horizontal above a half,
/// vertical up to it.
pub open spec fn orientation_for(number: Fraction) -> Orientation {
    if number.bits > 0x8000_0000 {
        Orientation::Horizontal
    } else {
        Orientation::Vertical
    }
}

/// The opening side that `number` picks.
pub fn get_random_opening(number: Fraction) -> (opening: OpeningLocation)
    ensures
        opening == opening_for(number),
{
    if number.bits < 0x4000_0000 {
        OpeningLocation::North
    } else if number.bits < 0x8000_0000 {
        OpeningLocation::East
    } else if number.bits < 0xC000_0000 {
        OpeningLocation::South
    } else {
        OpeningLocation::West
    }
}

/// The orientation that `number` picks.
pub fn get_random_orientation(number: Fraction) -> (orientation: Orientation)
    ensures
        orientation == orientation_for(number),
{
    if number.bits > 0x8000_0000 {
        Orientation::Horizontal
    } else {
        Orientation::Vertical
    }
}

/// The direction with the given index, the indices being taken in a
/// cycle.
pub fn direction_of_index(index: usize) -> (direction: PathDirection)
    ensures
        direction == direction_at(index as int),
{
    let turn: usize = index % 4;
    if turn == 0 {
        PathDirection::North
    } else if turn == 1 {
        PathDirection::East
    } else if turn == 2 {
        PathDirection::South
    } else {
        PathDirection::West
    }
}

/// A wall gene drawn at random.
fn random_wall_gene() -> (gene: WallGene) {
    WallGene::new(
        Fraction::from_bits(random_bits()),
        Fraction::from_bits(random_bits()),
        get_random_orientation(Fraction::from_bits(random_bits())),
        get_random_opening(Fraction::from_bits(random_bits())),
    )
}

impl MazeGenome {
    /// Gives the wall gene `index` the wall position `value`.
    pub fn set_wall_position(&mut self, index: usize, value: Fraction)
        requires
            index < old(self).wall_genes@.len(),
        ensures
            final(self)@ == old(self)@.with_wall_position(index as int, value),
    {
        let mut gene = self.wall_genes[index];
        gene.set_wall_position(value);
        self.wall_genes[index] = gene;
    }

    /// Gives the wall gene `index` the passage position `value`.
    pub fn set_passage_position(&mut self, index: usize, value: Fraction)
        requires
            index < old(self).wall_genes@.len(),
        ensures
            final(self)@ == old(self)@.with_passage_position(index as int, value),
    {
        let mut gene = self.wall_genes[index];
        gene.set_passage_position(value);
        self.wall_genes[index] = gene;
    }

    /// Gives one wall gene, picked at random, a random wall position.
    pub fn mutate_wall(&mut self)
        requires
            old(self).wall_genes@.len() >= 1,
        ensures
            exists|index: int, value: Fraction|
                0 <= index < old(self).wall_genes@.len() && final(self)@ == #[trigger] old(self)@.with_wall_position(index, value),
    {
        let index = random_below(self.wall_genes.len());
        let value = Fraction::from_bits(random_bits());
        self.set_wall_position(index, value);
        assert(self@ == old(self)@.with_wall_position(index as int, value));
    }

    /// Gives one wall gene, picked at random, a random passage position.
    pub fn mutate_passage(&mut self)
        requires
            old(self).wall_genes@.len() >= 1,
        ensures
            exists|index: int, value: Fraction|
                0 <= index < old(self).wall_genes@.len() && final(self)@ == #[trigger] old(self)@.with_passage_position(index, value),
    {
        let index = random_below(self.wall_genes.len());
        let value = Fraction::from_bits(random_bits());
        self.set_passage_position(index, value);
        assert(self@ == old(self)@.with_passage_position(index as int, value));
    }

    /// Whether the waypoint `gene_index` may move one cell in
    /// `direction`.
    pub fn validate_path_mutation_direction(&self, gene_index: usize, direction: PathDirection) -> (legal: bool)
        requires
            self.width >= 1,
            self.height >= 1,
            gene_index < self.path_genes@.len(),
        ensures
            legal == direction_is_legal(
                self.width as int,
                self.height as int,
                self.path_genes@,
                gene_index as int,
                direction,
            ),
    {
        let gene = self.path_genes[gene_index];
        let point_before = if gene_index == 0 {
            PathGene::new(0, self.height - 1)
        } else {
            self.path_genes[gene_index - 1]
        };
        let point_after = if gene_index == self.path_genes.len() - 1 {
            PathGene::new(self.width - 1, 0)
        } else {
            self.path_genes[gene_index + 1]
        };
        assert(point_before.point() == route_point(
            self.width as int,
            self.height as int,
            self.path_genes@,
            gene_index as int,
        ));
        assert(point_after.point() == route_point(
            self.width as int,
            self.height as int,
            self.path_genes@,
            gene_index + 2,
        ));
        match direction {
            PathDirection::North => {
                if gene.y >= self.height - 1 {
                    return false;
                }
                if point_after.y == gene.y + 1 || point_before.y == gene.y + 1 {
                    return false;
                }
            },
            PathDirection::East => {
                if gene.x >= self.width - 1 {
                    return false;
                }
                if point_after.x == gene.x + 1 || point_before.x == gene.x + 1 {
                    return false;
                }
            },
            PathDirection::South => {
                if gene.y == 0 {
                    return false;
                }
                if point_after.y == gene.y - 1 || point_before.y == gene.y - 1 {
                    return false;
                }
            },
            PathDirection::West => {
                if gene.x == 0 {
                    return false;
                }
                if point_after.x == gene.x - 1 || point_before.x == gene.x - 1 {
                    return false;
                }
            },
            PathDirection::Unset => {},
        }
        true
    }

    /// The path genes with the waypoint `index` moved one cell in
    /// `direction`.
    fn path_genes_after_move(&self, index: usize, direction: PathDirection) -> (genes: Vec<PathGene>)
        requires
            index < self.path_genes@.len(),
            move_fits(self.path_genes@[index as int], direction),
        ensures
            genes@ == self.path_genes@.update(index as int, moved_gene(self.path_genes@[index as int], direction)),
    {
        let mut genes = self.path_genes.clone();
        assert(genes@ =~= self.path_genes@);
        let gene = genes[index];
        let moved = match direction {
            PathDirection::North => PathGene::new(gene.x, gene.y + 1),
            PathDirection::East => PathGene::new(gene.x + 1, gene.y),
            PathDirection::South => PathGene::new(gene.x, gene.y - 1),
            PathDirection::West => PathGene::new(gene.x - 1, gene.y),
            PathDirection::Unset => gene,
        };
        genes[index] = moved;
        genes
    }

    /// Whether the path is still valid once the waypoint `index` has
    /// moved one cell in `direction`.
    pub fn valid_phenotype_after_waypoint_mutation(&self, index: usize, direction: PathDirection) -> (valid: bool)
        requires
            index < self.path_genes@.len(),
            move_fits(self.path_genes@[index as int], direction),
        ensures
            valid == valid_path(
                self.width as int,
                self.height as int,
                self.first_direction,
                self.path_genes@.update(index as int, moved_gene(self.path_genes@[index as int], direction)),
            ),
    {
        let genes = self.path_genes_after_move(index, direction);
        MazeValidator::validate_new_path(self.width, self.height, self.first_direction, &genes)
    }

    /// Moves the waypoint `index` by one cell: in the first legal
    /// direction among the four that start with `direction_at(start)`,
    /// and only if the path stays valid. The result tells whether the
    /// waypoint has moved.
    pub fn move_waypoint(&mut self, index: usize, start: usize) -> (moved: bool)
        requires
            old(self).width >= 1,
            old(self).height >= 1,
            index < old(self).path_genes@.len(),
            start < 4,
        ensures
            moved == match first_legal_direction(
                old(self).width as int,
                old(self).height as int,
                old(self).path_genes@,
                index as int,
                start as int,
                0,
            ) {
                Some(direction) => valid_path(
                    old(self).width as int,
                    old(self).height as int,
                    old(self).first_direction,
                    old(self).path_genes@.update(
                        index as int,
                        moved_gene(old(self).path_genes@[index as int], direction),
                    ),
                ),
                None => false,
            },
            moved ==> final(self)@ == old(self)@.with_path_genes(
                old(self).path_genes@.update(
                    index as int,
                    moved_gene(
                        old(self).path_genes@[index as int],
                        first_legal_direction(
                            old(self).width as int,
                            old(self).height as int,
                            old(self).path_genes@,
                            index as int,
                            start as int,
                            0,
                        )->0,
                    ),
                ),
            ),
            !moved ==> final(self)@ == old(self)@,
    {
        let mut tried: usize = 0;
        let mut found: Option<PathDirection> = None;
        while tried < 4 && found.is_none()
            invariant
                self@ == old(self)@,
                self.width >= 1,
                self.height >= 1,
                index < self.path_genes@.len(),
                start < 4,
                tried <= 4,
                first_legal_direction(
                    self.width as int,
                    self.height as int,
                    self.path_genes@,
                    index as int,
                    start as int,
                    0,
                ) == (match found {
                    Some(direction) => Some(direction),
                    None => first_legal_direction(
                        self.width as int,
                        self.height as int,
                        self.path_genes@,
                        index as int,
                        start as int,
                        tried as int,
                    ),
                }),
                found matches Some(direction) ==> direction_is_legal(
                    self.width as int,
                    self.height as int,
                    self.path_genes@,
                    index as int,
                    direction,
                ) && direction != PathDirection::Unset,
            decreases 4 - tried, (if found.is_none() { 1int } else { 0int }),
        {
            let direction = direction_of_index(start + tried);
            if self.validate_path_mutation_direction(index, direction) {
                found = Some(direction);
            } else {
                tried += 1;
            }
        }
        match found {
            None => false,
            Some(direction) => {
                if !self.valid_phenotype_after_waypoint_mutation(index, direction) {
                    return false;
                }
                let genes = self.path_genes_after_move(index, direction);
                self.path_genes = genes;
                true
            },
        }
    }

    /// Moves one waypoint, picked at random, by one cell in a direction
    /// picked at random, trying the other directions in turn while the
    /// move is not legal. The genome changes only if the path stays
    /// valid.
    pub fn mutate_waypoint(&mut self)
        requires
            old(self)@.wf(),
        ensures
            final(self)@.wf(),
            final(self)@ == old(self)@.with_path_genes(final(self).path_genes@),
            final(self).path_genes@.len() == old(self).path_genes@.len(),
            is_waypoint_moved(old(self)@, final(self)@),
    {
        if self.path_genes.len() == 0 {
            return ;
        }
        let index = random_below(self.path_genes.len());
        let start = random_below(4);
        let _ = self.move_waypoint(index, start);
        assert(self@ == old(self)@.after_move(index as int, start as int));
    }

    /// Appends `gene` to the wall genes.
    pub fn push_wall(&mut self, gene: WallGene)
        ensures
            final(self)@ == old(self)@.with_wall(gene),
    {
        self.wall_genes.push(gene);
    }

    /// Appends a wall gene drawn at random.
    pub fn add_wall(&mut self)
        ensures
            exists|gene: WallGene| final(self)@ == #[trigger] old(self)@.with_wall(gene),
    {
        let gene = random_wall_gene();
        self.push_wall(gene);
        assert(self@ == old(self)@.with_wall(gene));
    }

    /// Removes the wall gene `index`, unless it is the only one.
    pub fn remove_wall(&mut self, index: usize)
        requires
            index < old(self).wall_genes@.len(),
        ensures
            old(self).wall_genes@.len() <= 1 ==> final(self)@ == old(self)@,
            old(self).wall_genes@.len() > 1 ==> final(self)@ == old(self)@.without_wall(index as int),
    {
        if self.wall_genes.len() <= 1 {
            return ;
        }
        let _ = self.wall_genes.remove(index);
    }

    /// Removes one wall gene, picked at random, unless it is the only
    /// one: a genome never loses its last wall gene.
    pub fn delete_wall(&mut self)
        ensures
            old(self).wall_genes@.len() <= 1 ==> final(self)@ == old(self)@,
            old(self).wall_genes@.len() > 1 ==> exists|index: int|
                0 <= index < old(self).wall_genes@.len() && final(self)@ == #[trigger] old(self)@.without_wall(
                    index,
                ),
    {
        if self.wall_genes.len() <= 1 {
            return ;
        }
        let index = random_below(self.wall_genes.len());
        self.remove_wall(index);
        assert(self@ == old(self)@.without_wall(index as int));
    }

    /// The waypoint `gene` shares its column or its row with the last
    /// waypoint of `genes`.
    pub open spec fn shares_axis_with_last(genes: Seq<PathGene>, gene: PathGene) -> bool {
        genes.len() > 0 && (gene.x == genes[genes.len() - 1].x || gene.y == genes[genes.len() - 1].y)
    }

    /// The cell `(x, y)` lies on the route of this genome.
    pub open spec fn on_route(self, x: int, y: int) -> bool {
        crate::maze::path::claimed(
            self.width as int,
            self.height as int,
            self.first_direction,
            self.path_genes@,
            self.path_genes@.len() + 1,
            x,
            y,
        ) || (x == self.width - 1 && y == 0)
    }

    /// Appends `gene` to the waypoints if the path allows it: the
    /// waypoint must lie in the grid, off the present route, in another
    /// row and another column than the last waypoint, and the route
    /// through it must be valid. The result tells whether it was added.
    pub fn try_add_waypoint(&mut self, gene: PathGene) -> (added: bool)
        requires
            old(self)@.wf(),
        ensures
            added == (gene.x < old(self).width && gene.y < old(self).height && !Self::shares_axis_with_last(
                old(self).path_genes@,
                gene,
            ) && !old(self).on_route(gene.x as int, gene.y as int) && valid_path(
                old(self).width as int,
                old(self).height as int,
                old(self).first_direction,
                old(self).path_genes@.push(gene),
            )),
            added ==> final(self)@ == old(self)@.with_waypoint(gene),
            !added ==> final(self)@ == old(self)@,
            final(self)@.wf(),
    {
        if gene.x >= self.width || gene.y >= self.height {
            return false;
        }
        let count = self.path_genes.len();
        if count > 0 && (gene.x == self.path_genes[count - 1].x || gene.y == self.path_genes[count - 1].y) {
            return false;
        }
        let validator = MazeValidator::new(self.width, self.height, self.first_direction, &self.path_genes);
        proof {
            crate::maze::path::lemma_replayed_directions(
                self.width as int,
                self.height as int,
                self.first_direction,
                self.path_genes@,
                self.path_genes@.len() + 1,
            );
        }
        let cell = validator.get_cell_at(gene.x, gene.y);
        if cell.path_direction != PathDirection::Unset {
            return false;
        }
        let mut genes = self.path_genes.clone();
        assert(genes@ =~= self.path_genes@);
        genes.push(gene);
        if MazeValidator::validate_new_path(self.width, self.height, self.first_direction, &genes) {
            self.path_genes = genes;
            true
        } else {
            false
        }
    }

    /// Proposes a waypoint at a cell of the grid picked at random and
    /// adds it if the path allows it. The result tells whether it was
    /// added.
    pub fn add_waypoint(&mut self) -> (added: bool)
        requires
            old(self)@.wf(),
        ensures
            final(self)@.wf(),
            added ==> exists|gene: PathGene| final(self)@ == #[trigger] old(self)@.with_waypoint(gene),
            !added ==> final(self)@ == old(self)@,
            exists|gene: PathGene|
                gene.x < old(self).width && gene.y < old(self).height && added == old(self)@.accepts_waypoint(gene)
                    && final(self)@ == #[trigger] old(self)@.after_proposal(gene),
    {
        let gene = PathGene::new(
            random_below(self.width as usize) as u32,
            random_below(self.height as usize) as u32,
        );
        let added = self.try_add_waypoint(gene);
        if added {
            assert(self@ == old(self)@.with_waypoint(gene));
        }
        assert(added == old(self)@.accepts_waypoint(gene));
        assert(self@ == old(self)@.after_proposal(gene));
        added
    }

    /// Grows the grid by one column and one row; the exit moves with the
    /// south-east corner and the entrance with the north-west corner.
    pub fn increase_size(&mut self)
        requires
            old(self).width < u32::MAX,
            old(self).height < u32::MAX,
        ensures
            final(self)@ == old(self)@.grown(),
            old(self)@.wf() ==> final(self)@.wf(),
    {
        proof {
            if self@.wf() {
                lemma_growth_keeps_valid(
                    self.width as int,
                    self.height as int,
                    self.first_direction,
                    self.path_genes@,
                );
            }
        }
        self.height += 1;
        self.width += 1;
    }

    /// Mutates the genome: each kind of mutation is applied with the
    /// chance that `config` gives it, in this order: a wall position, a
    /// passage position, a waypoint move, a new wall, the loss of a wall,
    /// a new waypoint (up to ten proposals), a larger grid.
    ///
    /// Whatever is drawn, the genome stays valid, the grid does not
    /// shrink, and the first direction, the id and the marks stay as they
    /// are. A kind of mutation whose chance is zero is never applied, and
    /// each kind that is applied changes the genome as its own function
    /// says.
    pub fn mutate(&mut self, config: &MazeMutationConfig)
        requires
            old(self)@.wf(),
        ensures
            final(self)@.wf(),
            final(self).first_direction == old(self).first_direction,
            final(self).id == old(self).id,
            final(self).viable == old(self).viable,
            final(self).successful_agent_id == old(self).successful_agent_id,
            (final(self).width == old(self).width && final(self).height == old(self).height) || (final(self).width == old(self).width + 1 && final(self).height == old(self).height + 1),
            old(self).path_genes@.len() <= final(self).path_genes@.len() <= old(self).path_genes@.len() + 1,
            old(self).wall_genes@.len() - 1 <= final(self).wall_genes@.len() <= old(self).wall_genes@.len() + 1,
            is_mutation_with(old(self)@, final(self)@, *config),
    {
        if Fraction::from_bits(random_bits()).less_than(&config.mutate_wall) {
            self.mutate_wall();
        }
        let ghost with_wall_moved = self@;
        if Fraction::from_bits(random_bits()).less_than(&config.mutate_passage) {
            self.mutate_passage();
        }
        let ghost with_passage_moved = self@;
        if Fraction::from_bits(random_bits()).less_than(&config.mutate_waypoint) {
            self.mutate_waypoint();
        }
        let ghost with_waypoint_moved = self@;
        if Fraction::from_bits(random_bits()).less_than(&config.add_wall) {
            self.add_wall();
        }
        let ghost with_wall_added = self@;
        if Fraction::from_bits(random_bits()).less_than(&config.delete_wall) {
            self.delete_wall();
        }
        let ghost walled = self@;
        if Fraction::from_bits(random_bits()).less_than(&config.add_waypoint) {
            let mut proposals: u32 = 0;
            let mut added = false;
            while proposals < 10 && !added
                invariant
                    self@.wf(),
                    proposals <= 10,
                    !added ==> self@ == walled,
                    added ==> self@.with_path_genes(walled.path_genes) == walled && self.path_genes@.len()
                        == walled.path_genes.len() + 1,
                    added ==> is_waypoint_proposed(walled, self@),
                decreases 10 - proposals, (if added { 0int } else { 1int }),
            {
                added = self.add_waypoint();
                proposals += 1;
            }
        }
        let ghost with_waypoint = self@;
        if Fraction::from_bits(random_bits()).less_than(&config.increase_size) {
            if self.width < u32::MAX && self.height < u32::MAX {
                self.increase_size();
            }
        }
        proof {
            let states = seq![
                old(self)@,
                with_wall_moved,
                with_passage_moved,
                with_waypoint_moved,
                with_wall_added,
                walled,
                with_waypoint,
                self@,
            ];
            assert(is_mutation_history(states, *config));
            assert(states[0] == old(self)@ && states[7] == self@);
        }
    }
}

/// A valid maze genome drawn at random for a grid of `width` by `height`
/// cells: one waypoint off the boundary columns, up to two more that the
/// path allows, and two wall genes.
pub fn generate_random_maze(width: u32, height: u32, id: u32) -> (genome: MazeGenome)
    requires
        width >= 2,
        height >= 2,
    ensures
        genome@.wf(),
        genome.width == width,
        genome.height == height,
        genome.id == id,
        genome.viable,
        genome.successful_agent_id == None::<u32>,
        1 <= genome.path_genes@.len() <= 3,
        genome.wall_genes@.len() == 2,
{
    let initial_orientation = get_random_orientation(Fraction::from_bits(random_bits()));
    let wall_gene = random_wall_gene();
    let column: u32 = if width > 2 {
        1 + random_below((width - 2) as usize) as u32
    } else {
        1
    };
    let row: u32 = match initial_orientation {
        Orientation::Horizontal => if height > 2 {
            1 + random_below((height - 2) as usize) as u32
        } else {
            1
        },
        Orientation::Vertical => height - 1 - random_below((height - 1) as usize) as u32,
    };
    let path_gene = PathGene::new(column, row);
    let mut path_genes: Vec<PathGene> = Vec::new();
    path_genes.push(path_gene);
    let mut wall_genes: Vec<WallGene> = Vec::new();
    wall_genes.push(wall_gene);
    let mut new_maze = MazeGenome::new(width, height, initial_orientation, path_genes, wall_genes, id);
    proof {
        lemma_single_waypoint_is_valid(width as int, height as int, initial_orientation, path_gene);
        assert(new_maze.path_genes@ =~= seq![path_gene]);
    }
    let _ = new_maze.add_waypoint();
    let _ = new_maze.add_waypoint();
    new_maze.add_wall();
    new_maze
}

/// A route through a single waypoint that lies off the first column and
/// off the bottom row visits no cell twice.
pub proof fn lemma_single_waypoint_is_valid(width: int, height: int, first: Orientation, gene: PathGene)
    requires
        width >= 2,
        height >= 2,
        1 <= gene.x < width,
        1 <= gene.y < height,
    ensures
        valid_path(width, height, first, seq![gene]),
{
    let genes = seq![gene];
    reveal_with_fuel(crate::maze::path::claimed, 3);
    assert(genes.len() == 1);
    assert(genes[0] == gene);
    assert(route_point(width, height, genes, 0) == (0int, height - 1));
    assert(route_point(width, height, genes, 1) == gene.point());
    assert(route_point(width, height, genes, 2) == (width - 1, 0int));
}

impl Clone for MazeGenome {
    /// A copy with the same dimensions, genes, marks and id.
    fn clone(&self) -> (copy: MazeGenome)
        ensures
            copy@ == self@,
    {
        let path_genes = self.path_genes.clone();
        let wall_genes = self.wall_genes.clone();
        assert(path_genes@ =~= self.path_genes@);
        assert(wall_genes@ =~= self.wall_genes@);
        MazeGenome {
            width: self.width,
            height: self.height,
            first_direction: self.first_direction,
            path_genes,
            wall_genes,
            viable: self.viable,
            id: self.id,
            successful_agent_id: self.successful_agent_id,
        }
    }
}

} // verus!
