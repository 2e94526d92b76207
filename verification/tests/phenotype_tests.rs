use maze_coevolution::fraction::Fraction;
use maze_coevolution::maze::grid::MazeCell;
use maze_coevolution::maze::maze_genotype::{
    generate_random_maze, MazeGenome, MazeMutationConfig, PathGene, WallGene,
};
use maze_coevolution::maze::maze_phenotype::{choose_opening_side, MazePhenotype};
use maze_coevolution::maze::walls::MazeSubdivision;
use maze_coevolution::maze::{OpeningLocation, Orientation, PathDirection};

fn example_genome() -> MazeGenome {
    MazeGenome::new(
        10,
        10,
        Orientation::Horizontal,
        vec![PathGene::new(2, 3)],
        vec![WallGene::new(
            Fraction::from_ratio(32, 100),
            Fraction::from_ratio(4, 10),
            Orientation::Vertical,
            OpeningLocation::East,
        )],
        0,
    )
}

fn step(x: u32, y: u32, direction: PathDirection) -> (u32, u32) {
    match direction {
        PathDirection::North => (x, y + 1),
        PathDirection::East => (x + 1, y),
        PathDirection::South => (x, y - 1),
        PathDirection::West => (x - 1, y),
        PathDirection::Unset => (x, y),
    }
}

/// The cells that the walk along the directions visits before the exit.
fn walk_to_exit(maze: &MazePhenotype) -> Vec<(u32, u32)> {
    let mut visited = vec![];
    let (mut x, mut y) = (0, maze.height - 1);
    while (x, y) != (maze.width - 1, 0) {
        assert!(!visited.contains(&(x, y)), "the walk visits ({}, {}) twice", x, y);
        assert!(visited.len() < (maze.width * maze.height) as usize);
        visited.push((x, y));
        let direction = maze.get_cell_at(x, y).path_direction;
        assert_ne!(direction, PathDirection::Unset);
        let next = step(x, y, direction);
        x = next.0;
        y = next.1;
    }
    visited
}

/// Whether one can pass between two neighbouring cells.
fn open_between(maze: &MazePhenotype, from: (u32, u32), to: (u32, u32)) -> bool {
    let cell = maze.get_cell_at(from.0, from.1);
    if to.0 == from.0 + 1 {
        !cell.east_wall
    } else if from.0 == to.0 + 1 {
        !cell.west_wall
    } else if to.1 == from.1 + 1 {
        !cell.north_wall
    } else {
        !cell.south_wall
    }
}

/// The cells that can be reached from `start` without passing a wall.
fn reachable(maze: &MazePhenotype, start: (u32, u32)) -> Vec<(u32, u32)> {
    let mut seen = vec![start];
    let mut next = 0;
    while next < seen.len() {
        let (x, y) = seen[next];
        next += 1;
        let mut neighbours = vec![];
        if x + 1 < maze.width {
            neighbours.push((x + 1, y));
        }
        if x > 0 {
            neighbours.push((x - 1, y));
        }
        if y + 1 < maze.height {
            neighbours.push((x, y + 1));
        }
        if y > 0 {
            neighbours.push((x, y - 1));
        }
        for neighbour in neighbours {
            if open_between(maze, (x, y), neighbour) && !seen.contains(&neighbour) {
                seen.push(neighbour);
            }
        }
    }
    seen
}

#[test]
fn the_example_genome_compiles_to_one_unbroken_path() {
    let genome = example_genome();
    assert!(genome.is_valid());
    let maze = genome.to_phenotype();
    assert_eq!(maze.width, 10);
    assert_eq!(maze.height, 10);
    assert!(maze.get_cell_at(2, 3).is_waypoint);
    let visited = walk_to_exit(&maze);
    assert_eq!(visited.len(), 18);
    assert_eq!(genome.get_solution_path_cell_length(), 18);
    assert_eq!(visited[0], (0, 9));
    assert!(visited.contains(&(2, 3)));
    assert_eq!(visited[8], (2, 3));
    assert_eq!(visited[17], (9, 1));
    // No cell off the walk carries a direction: the path does not branch.
    for x in 0..10 {
        for y in 0..10 {
            let on_path = visited.contains(&(x, y)) || (x, y) == (9, 0);
            assert_eq!(maze.get_cell_at(x, y).path_direction != PathDirection::Unset, on_path);
        }
    }
}

#[test]
fn the_example_maze_has_the_walls_that_its_gene_asks_for() {
    let maze = example_genome().to_phenotype();
    // The outer boundary.
    for i in 0..10 {
        assert!(maze.get_cell_at(i, 0).south_wall);
        assert!(maze.get_cell_at(i, 9).north_wall);
        assert!(maze.get_cell_at(0, i).west_wall);
        assert!(maze.get_cell_at(9, i).east_wall);
    }
    // The corridor along the top row and down column 2.
    assert!(maze.get_cell_at(0, 9).south_wall);
    assert!(maze.get_cell_at(1, 9).south_wall);
    assert!(!maze.get_cell_at(0, 9).east_wall);
    assert!(maze.get_cell_at(2, 6).west_wall);
    assert!(maze.get_cell_at(2, 6).east_wall);
    assert!(!maze.get_cell_at(2, 6).south_wall);
    // The rectangle east of the path opens to the south at column 3 + 2.
    assert!(!maze.get_cell_at(5, 4).south_wall);
    assert!(!maze.get_cell_at(5, 3).north_wall);
    for x in [3, 4, 6, 7, 8, 9] {
        assert!(maze.get_cell_at(x, 4).south_wall, "column {}", x);
    }
    // The rectangle west of the path opens to the east at row 0 + 3.
    assert!(!maze.get_cell_at(1, 3).east_wall);
    assert!(!maze.get_cell_at(2, 3).west_wall);
    // The rectangle under the path opens to the east at row 0 + 1.
    assert!(!maze.get_cell_at(8, 1).east_wall);
    assert!(!maze.get_cell_at(9, 1).west_wall);
    // The first split of the eastern rectangle: a wall east of column
    // 3 + 2 with its gap in row 4 + 2.
    for y in 4..10 {
        assert_eq!(maze.get_cell_at(5, y).east_wall, y != 6, "row {}", y);
        assert_eq!(maze.get_cell_at(6, y).west_wall, y != 6, "row {}", y);
    }
}

#[test]
fn every_cell_of_the_example_maze_can_be_reached() {
    let maze = example_genome().to_phenotype();
    assert_eq!(reachable(&maze, (0, 9)).len(), 100);
}

#[test]
fn the_free_space_of_the_example_maze_is_tiled_by_three_rectangles() {
    let genome = example_genome();
    let mut maze = MazePhenotype::blank(10, 10, Orientation::Horizontal);
    maze.add_path(&genome.path_genes);
    maze.enclose_edges();
    maze.enclose_path();
    let rectangles = maze.subdivide_maze();
    assert_eq!(
        rectangles,
        vec![
            MazeSubdivision::new(3, 9, 9, 4, 7, 6),
            MazeSubdivision::new(0, 8, 1, 0, 2, 9),
            MazeSubdivision::new(2, 2, 8, 0, 7, 3),
        ]
    );
    for x in 0..10 {
        for y in 0..10 {
            let cell = maze.get_cell_at(x, y);
            let holders = rectangles
                .iter()
                .filter(|r| r.start_x <= x && x <= r.end_x && r.end_y <= y && y <= r.start_y)
                .count();
            if cell.path_direction == PathDirection::Unset {
                assert_eq!(holders, 1);
                assert!(cell.in_subdivision);
            } else {
                assert_eq!(holders, 0);
                assert!(!cell.in_subdivision);
            }
        }
    }
}

#[test]
fn compiled_cells_lie_on_the_path_or_in_a_rectangle() {
    let genome = MazeGenome::new(
        7,
        9,
        Orientation::Vertical,
        vec![PathGene::new(3, 6), PathGene::new(5, 2)],
        vec![
            WallGene::new(
                Fraction::from_ratio(6, 10),
                Fraction::from_ratio(8, 10),
                Orientation::Horizontal,
                OpeningLocation::South,
            ),
            WallGene::new(
                Fraction::from_ratio(1, 10),
                Fraction::from_ratio(5, 10),
                Orientation::Vertical,
                OpeningLocation::West,
            ),
        ],
        3,
    );
    assert!(genome.is_valid());
    let maze = genome.to_phenotype();
    for x in 0..7 {
        for y in 0..9 {
            let cell = maze.get_cell_at(x, y);
            assert_eq!(cell.in_subdivision, cell.path_direction == PathDirection::Unset);
        }
    }
    let visited = walk_to_exit(&maze);
    assert_eq!(visited.len() as u32, genome.get_solution_path_cell_length());
    assert_eq!(genome.get_solution_path_cell_length(), 3 + 2 + 2 + 4 + 1 + 2);
}

#[test]
fn compiling_twice_gives_the_same_grid() {
    let genome = example_genome();
    let first = genome.to_phenotype();
    let second = genome.to_phenotype();
    assert_eq!(first.grid, second.grid);
    let copy = genome.clone();
    assert_eq!(copy.to_phenotype().grid, first.grid);
}

#[test]
fn a_wall_is_shared_with_the_neighbour() {
    let mut maze = MazePhenotype::blank(3, 3, Orientation::Horizontal);
    maze.update_cell_wall_north(1, 1, true);
    assert!(maze.get_cell_at(1, 1).north_wall);
    assert!(maze.get_cell_at(1, 2).south_wall);
    maze.update_cell_wall_east(1, 1, true);
    assert!(maze.get_cell_at(2, 1).west_wall);
    maze.update_cell_wall_south(1, 1, true);
    assert!(maze.get_cell_at(1, 0).north_wall);
    maze.update_cell_wall_west(1, 1, true);
    assert!(maze.get_cell_at(0, 1).east_wall);
    maze.update_cell_wall_north(1, 1, false);
    assert!(!maze.get_cell_at(1, 2).south_wall);
    // At the edge of the grid there is no neighbour.
    maze.update_cell_wall_north(0, 2, true);
    maze.update_cell_wall_west(0, 2, true);
    assert!(maze.get_cell_at(0, 2).north_wall);
    assert!(maze.get_cell_at(0, 2).west_wall);
}

#[test]
fn a_blank_cell_has_no_walls_and_no_marks() {
    let cell = MazeCell::new();
    assert!(!cell.north_wall && !cell.east_wall && !cell.south_wall && !cell.west_wall);
    assert!(!cell.is_waypoint && !cell.is_juncture && !cell.in_subdivision && !cell.is_connected);
    assert_eq!(cell.path_direction, PathDirection::Unset);
    let maze = MazePhenotype::blank(2, 3, Orientation::Vertical);
    assert_eq!(maze.grid.len(), 2);
    assert_eq!(maze.grid[0].len(), 3);
    assert_eq!(maze.get_cell_at(1, 2), cell);
}

#[test]
fn the_opening_side_falls_back_north_south_then_the_fuller_of_west_and_east() {
    let (north, east, south, west) =
        (OpeningLocation::North, OpeningLocation::East, OpeningLocation::South, OpeningLocation::West);
    assert_eq!(choose_opening_side(0, 2, 1, 1, east), Some(east));
    assert_eq!(choose_opening_side(1, 0, 1, 1, east), Some(north));
    assert_eq!(choose_opening_side(0, 0, 1, 1, east), Some(south));
    assert_eq!(choose_opening_side(0, 0, 0, 1, east), Some(west));
    assert_eq!(choose_opening_side(0, 3, 0, 3, north), Some(west));
    assert_eq!(choose_opening_side(0, 3, 0, 2, north), Some(east));
    assert_eq!(choose_opening_side(0, 3, 0, 0, south), Some(east));
    assert_eq!(choose_opening_side(2, 3, 4, 5, west), Some(west));
    assert_eq!(choose_opening_side(2, 3, 4, 0, west), Some(north));
    assert_eq!(choose_opening_side(0, 0, 0, 0, north), None);
}

#[test]
fn a_rectangle_without_an_open_neighbour_stays_closed() {
    let mut maze = MazePhenotype::blank(4, 4, Orientation::Horizontal);
    let rectangle = MazeSubdivision::new(1, 2, 2, 1, 2, 2);
    maze.mark_subdivision_boundaries(&rectangle);
    let walled = maze.grid.clone();
    let gene = WallGene::new(
        Fraction::from_ratio(1, 2),
        Fraction::from_ratio(1, 2),
        Orientation::Horizontal,
        OpeningLocation::North,
    );
    maze.insert_partition_opening(&rectangle, &gene);
    assert_eq!(maze.grid, walled);
    assert!(maze.get_cell_at(1, 2).north_wall && maze.get_cell_at(1, 3).south_wall);
    assert!(maze.get_cell_at(2, 1).east_wall && maze.get_cell_at(3, 1).west_wall);
}

#[test]
fn an_opening_leads_to_a_rectangle_that_is_already_open() {
    let mut maze = MazePhenotype::blank(4, 2, Orientation::Horizontal);
    // The path covers the western half of the bottom row; two
    // rectangles lie side by side above that row, and only the first
    // of them touches the path.
    maze.add_horizontal_path_segment(0, 0, 1);
    let first = MazeSubdivision::new(0, 1, 1, 1, 2, 1);
    let second = MazeSubdivision::new(2, 1, 3, 1, 2, 1);
    maze.mark_subdivision_boundaries(&first);
    maze.mark_subdivision_boundaries(&second);
    let gene = WallGene::new(
        Fraction::from_ratio(1, 2),
        Fraction::from_ratio(3, 4),
        Orientation::Horizontal,
        OpeningLocation::West,
    );
    // The second rectangle has no path cell and no opened rectangle
    // beside it yet.
    maze.insert_partition_opening(&second, &gene);
    assert!(maze.get_cell_at(2, 1).west_wall);
    assert!(!maze.get_cell_at(2, 1).is_connected);
    // The first opens to the path below it: floor(3/4 * 2) = 1.
    maze.insert_partition_opening(&first, &gene);
    assert!(!maze.get_cell_at(1, 1).south_wall);
    assert!(maze.get_cell_at(0, 1).south_wall);
    assert!(maze.get_cell_at(0, 1).is_connected && maze.get_cell_at(1, 1).is_connected);
    // Now the second can open towards the first, on its preferred side.
    maze.insert_partition_opening(&second, &gene);
    assert!(!maze.get_cell_at(2, 1).west_wall);
    assert!(!maze.get_cell_at(1, 1).east_wall);
    assert!(maze.get_cell_at(2, 1).is_connected && maze.get_cell_at(3, 1).is_connected);
}

#[test]
fn the_search_for_the_opening_wraps_around() {
    let mut maze = MazePhenotype::blank(5, 2, Orientation::Horizontal);
    maze.update_cell_path_direction(1, 0, PathDirection::East);
    let rectangle = MazeSubdivision::new(0, 1, 4, 1, 5, 1);
    maze.mark_subdivision_boundaries(&rectangle);
    let gene = WallGene::new(
        Fraction::from_ratio(1, 2),
        Fraction::from_ratio(3, 5),
        Orientation::Horizontal,
        OpeningLocation::South,
    );
    // The search starts at column floor(3/5 * 5) = 2 (rounded down in
    // fixed point) and finds the only path cell below column 1.
    maze.insert_partition_opening(&rectangle, &gene);
    for x in 0..5 {
        assert_eq!(maze.get_cell_at(x, 1).south_wall, x != 1);
    }
}

#[test]
fn bisection_splits_with_one_gap_and_ends_at_single_rows_and_columns() {
    let mut maze = MazePhenotype::blank(4, 4, Orientation::Horizontal);
    let rectangle = MazeSubdivision::new(0, 3, 3, 0, 4, 4);
    let genes = vec![
        WallGene::new(
            Fraction::from_ratio(1, 2),
            Fraction::from_ratio(1, 4),
            Orientation::Horizontal,
            OpeningLocation::North,
        ),
        WallGene::new(
            Fraction::from_ratio(1, 2),
            Fraction::from_ratio(1, 2),
            Orientation::Vertical,
            OpeningLocation::North,
        ),
    ];
    maze.subdivide_subdivision(&rectangle, 0, &genes);
    // The first wall lies under row 0 + floor(1/2 * 4) = 2, with its gap
    // in column 0 + floor(1/4 * 4) = 1.
    for x in 0..4 {
        assert_eq!(maze.get_cell_at(x, 2).south_wall, x != 1);
        assert_eq!(maze.get_cell_at(x, 1).north_wall, x != 1);
    }
    // Both halves are split by the second gene: a wall east of column
    // 0 + floor(1/2 * 4) = 2, with the gap in the second row of the half.
    assert!(maze.get_cell_at(2, 2).east_wall);
    assert!(!maze.get_cell_at(2, 3).east_wall);
    assert!(maze.get_cell_at(2, 0).east_wall);
    assert!(!maze.get_cell_at(2, 1).east_wall);
    // Nothing changes outside of the walls between the cells, and every
    // cell can still be reached.
    assert_eq!(reachable(&maze, (0, 0)).len(), 16);
    for i in 0..4 {
        assert!(!maze.get_cell_at(i, 3).north_wall);
        assert!(!maze.get_cell_at(i, 0).south_wall);
        assert!(!maze.get_cell_at(0, i).west_wall);
        assert!(!maze.get_cell_at(3, i).east_wall);
    }
}

#[test]
fn a_rectangle_with_a_single_row_is_not_split() {
    let mut maze = MazePhenotype::blank(4, 4, Orientation::Horizontal);
    let blank = maze.grid.clone();
    let genes = vec![WallGene::new(
        Fraction::from_ratio(1, 2),
        Fraction::from_ratio(1, 2),
        Orientation::Vertical,
        OpeningLocation::North,
    )];
    maze.subdivide_subdivision(&MazeSubdivision::new(0, 2, 3, 2, 4, 1), 0, &genes);
    assert_eq!(maze.grid, blank);
    maze.subdivide_subdivision(&MazeSubdivision::new(1, 3, 1, 0, 1, 4), 0, &genes);
    assert_eq!(maze.grid, blank);
}

#[test]
fn a_dividing_wall_never_lies_on_the_boundary() {
    let mut maze = MazePhenotype::blank(3, 3, Orientation::Horizontal);
    let low = vec![WallGene::new(
        Fraction::from_bits(0),
        Fraction::from_bits(0),
        Orientation::Horizontal,
        OpeningLocation::North,
    )];
    maze.subdivide_subdivision(&MazeSubdivision::new(0, 1, 1, 0, 2, 2), 0, &low);
    // floor(0 * 2) = 0 would be the bottom row: the wall moves up one.
    assert!(!maze.get_cell_at(0, 1).south_wall);
    assert!(maze.get_cell_at(1, 1).south_wall);
    assert!(!maze.get_cell_at(0, 0).south_wall);
    let mut maze = MazePhenotype::blank(3, 3, Orientation::Horizontal);
    let high = vec![WallGene::new(
        Fraction::from_bits(u32::MAX),
        Fraction::from_bits(u32::MAX),
        Orientation::Vertical,
        OpeningLocation::North,
    )];
    maze.subdivide_subdivision(&MazeSubdivision::new(0, 1, 1, 0, 2, 2), 0, &high);
    // floor(f * 2) = 1 would be the last column: the wall moves west.
    assert!(maze.get_cell_at(0, 0).east_wall);
    assert!(!maze.get_cell_at(0, 1).east_wall);
    assert!(!maze.get_cell_at(1, 0).east_wall);
    assert!(!maze.get_cell_at(1, 1).east_wall);
}

#[test]
fn the_walk_along_the_path_ends_where_no_direction_leads_on() {
    let mut maze = MazePhenotype::blank(3, 3, Orientation::Horizontal);
    maze.update_cell_path_direction(0, 2, PathDirection::East);
    maze.update_cell_path_direction(1, 2, PathDirection::North);
    maze.enclose_path();
    assert!(maze.get_cell_at(0, 2).north_wall && maze.get_cell_at(0, 2).south_wall);
    assert!(maze.get_cell_at(1, 2).east_wall);
    assert!(!maze.get_cell_at(1, 2).west_wall);
    assert!(!maze.get_cell_at(2, 0).north_wall);
}

#[test]
fn random_mazes_are_in_one_piece() {
    let often = Fraction::from_ratio(1, 2);
    let config = MazeMutationConfig {
        mutate_wall: often,
        mutate_passage: often,
        mutate_waypoint: often,
        add_wall: often,
        delete_wall: Fraction::from_ratio(1, 10),
        add_waypoint: often,
        increase_size: Fraction::from_ratio(1, 10),
    };
    for id in 0..12 {
        let mut genome = generate_random_maze(6 + id % 3, 5 + id % 4, id);
        for _ in 0..6 {
            genome.mutate(&config);
            assert!(genome.is_valid());
            let maze = genome.to_phenotype();
            let cells = (maze.width * maze.height) as usize;
            assert_eq!(reachable(&maze, (0, maze.height - 1)).len(), cells);
            assert_eq!(walk_to_exit(&maze).len() as u32, genome.get_solution_path_cell_length());
            for x in 0..maze.width {
                for y in 0..maze.height {
                    let cell = maze.get_cell_at(x, y);
                    assert_eq!(cell.in_subdivision, cell.path_direction == PathDirection::Unset);
                    assert!(cell.path_direction != PathDirection::Unset || cell.is_connected);
                    if y + 1 < maze.height {
                        assert_eq!(cell.north_wall, maze.get_cell_at(x, y + 1).south_wall);
                    } else {
                        assert!(cell.north_wall);
                    }
                    if x + 1 < maze.width {
                        assert_eq!(cell.east_wall, maze.get_cell_at(x + 1, y).west_wall);
                    } else {
                        assert!(cell.east_wall);
                    }
                }
            }
        }
    }
}
