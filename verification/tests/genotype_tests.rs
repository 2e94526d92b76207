use maze_coevolution::fraction::Fraction;
use maze_coevolution::maze::maze_genotype::{
    direction_of_index, generate_random_maze, get_random_opening, get_random_orientation, MazeGenome,
    MazeMutationConfig, PathGene, WallGene,
};
use maze_coevolution::maze::{OpeningLocation, Orientation, PathDirection};

fn wall_gene() -> WallGene {
    WallGene::new(
        Fraction::from_ratio(32, 100),
        Fraction::from_ratio(4, 10),
        Orientation::Vertical,
        OpeningLocation::East,
    )
}

fn genome(width: u32, height: u32, first: Orientation, points: &[(u32, u32)]) -> MazeGenome {
    MazeGenome::new(
        width,
        height,
        first,
        points.iter().map(|&(x, y)| PathGene::new(x, y)).collect(),
        vec![wall_gene()],
        7,
    )
}

fn points(genome: &MazeGenome) -> Vec<(u32, u32)> {
    genome.path_genes.iter().map(|gene| (gene.x, gene.y)).collect()
}

#[test]
fn a_new_genome_is_viable_and_unsolved() {
    let genome = genome(10, 10, Orientation::Horizontal, &[(2, 3)]);
    assert!(genome.viable);
    assert_eq!(genome.id, 7);
    assert_eq!(genome.successful_agent_id, None);
    assert_eq!(genome.width, 10);
    assert_eq!(genome.height, 10);
    assert_eq!(genome.first_direction, Orientation::Horizontal);
    assert_eq!(points(&genome), vec![(2, 3)]);
    assert_eq!(genome.wall_genes, vec![wall_gene()]);
}

#[test]
fn a_genome_is_valid_when_it_can_be_compiled() {
    assert!(genome(10, 10, Orientation::Horizontal, &[(2, 3)]).is_valid());
    assert!(!genome(1, 10, Orientation::Horizontal, &[]).is_valid());
    assert!(!genome(10, 1, Orientation::Horizontal, &[]).is_valid());
    assert!(!genome(10, 10, Orientation::Horizontal, &[(10, 3)]).is_valid());
    assert!(!genome(5, 5, Orientation::Horizontal, &[(3, 4), (1, 4)]).is_valid());
    let mut without_walls = genome(10, 10, Orientation::Horizontal, &[(2, 3)]);
    without_walls.wall_genes.clear();
    assert!(!without_walls.is_valid());
}

#[test]
fn the_path_length_is_the_sum_of_the_manhattan_distances() {
    assert_eq!(genome(10, 10, Orientation::Horizontal, &[(2, 3)]).get_solution_path_cell_length(), 18);
    assert_eq!(genome(10, 10, Orientation::Vertical, &[(2, 3)]).get_solution_path_cell_length(), 18);
    assert_eq!(genome(4, 6, Orientation::Vertical, &[]).get_solution_path_cell_length(), 8);
    assert_eq!(
        genome(10, 10, Orientation::Horizontal, &[(3, 7), (6, 4), (8, 2)]).get_solution_path_cell_length(),
        5 + 6 + 4 + 3
    );
    // A waypoint off the shortest way makes the path longer.
    assert_eq!(genome(5, 5, Orientation::Horizontal, &[(4, 4), (0, 2)]).get_solution_path_cell_length(), 4 + 6 + 6);
}

#[test]
fn junctures_are_counted_at_every_waypoint() {
    // One waypoint: the leg that reaches it turns (1), the last waypoint
    // lies off the last column and off the bottom row (1), and the leg to
    // the exit turns (1).
    assert_eq!(genome(10, 10, Orientation::Horizontal, &[(2, 3)]).get_amount_of_junctures(), 3);
    // Two waypoints: the middle leg is counted at both of its ends.
    assert_eq!(genome(10, 10, Orientation::Horizontal, &[(2, 7), (6, 3)]).get_amount_of_junctures(), 5);
    // A waypoint in the top row is reached without a turn.
    assert_eq!(genome(10, 10, Orientation::Horizontal, &[(4, 9)]).get_amount_of_junctures(), 2);
    // A waypoint in the last column: the leg to the exit runs straight,
    // and the waypoint counts only where the path runs vertically first.
    assert_eq!(genome(10, 10, Orientation::Horizontal, &[(9, 4)]).get_amount_of_junctures(), 1);
    assert_eq!(genome(10, 10, Orientation::Vertical, &[(9, 4)]).get_amount_of_junctures(), 2);
    // Without a waypoint only the turn of the single leg is counted.
    assert_eq!(genome(10, 10, Orientation::Horizontal, &[]).get_amount_of_junctures(), 1);
}

#[test]
fn a_wall_gene_keeps_what_a_setter_does_not_touch() {
    let mut gene = wall_gene();
    gene.set_wall_position(Fraction::from_ratio(1, 2));
    assert_eq!(gene.wall_position, Fraction::from_ratio(1, 2));
    assert_eq!(gene.passage_position, Fraction::from_ratio(4, 10));
    gene.set_passage_position(Fraction::from_ratio(1, 4));
    assert_eq!(gene.passage_position, Fraction::from_ratio(1, 4));
    assert_eq!(gene.wall_position, Fraction::from_ratio(1, 2));
    assert_eq!(gene.orientation, Orientation::Vertical);
    assert_eq!(gene.opening_location, OpeningLocation::East);
}

#[test]
fn setting_a_position_changes_one_wall_gene() {
    let mut genome = genome(10, 10, Orientation::Horizontal, &[(2, 3)]);
    genome.push_wall(wall_gene());
    genome.set_wall_position(1, Fraction::from_ratio(1, 2));
    genome.set_passage_position(0, Fraction::from_ratio(3, 4));
    assert_eq!(genome.wall_genes[0].wall_position, Fraction::from_ratio(32, 100));
    assert_eq!(genome.wall_genes[0].passage_position, Fraction::from_ratio(3, 4));
    assert_eq!(genome.wall_genes[1].wall_position, Fraction::from_ratio(1, 2));
    assert_eq!(genome.wall_genes[1].passage_position, Fraction::from_ratio(4, 10));
}

#[test]
fn the_last_wall_gene_is_never_removed() {
    let mut genome = genome(10, 10, Orientation::Horizontal, &[(2, 3)]);
    genome.remove_wall(0);
    assert_eq!(genome.wall_genes.len(), 1);
    for _ in 0..20 {
        genome.delete_wall();
        assert_eq!(genome.wall_genes.len(), 1);
    }
    let other = WallGene::new(
        Fraction::from_ratio(1, 2),
        Fraction::from_ratio(1, 2),
        Orientation::Horizontal,
        OpeningLocation::South,
    );
    genome.push_wall(other);
    genome.remove_wall(0);
    assert_eq!(genome.wall_genes, vec![other]);
    genome.push_wall(wall_gene());
    genome.delete_wall();
    assert_eq!(genome.wall_genes.len(), 1);
}

#[test]
fn random_wall_mutations_keep_the_number_of_genes() {
    let mut genome = genome(10, 10, Orientation::Horizontal, &[(2, 3)]);
    for _ in 0..50 {
        genome.mutate_wall();
        genome.mutate_passage();
        assert_eq!(genome.wall_genes.len(), 1);
        assert_eq!(genome.wall_genes[0].orientation, Orientation::Vertical);
        assert_eq!(genome.wall_genes[0].opening_location, OpeningLocation::East);
    }
    genome.add_wall();
    assert_eq!(genome.wall_genes.len(), 2);
    assert_eq!(genome.wall_genes[0].orientation, Orientation::Vertical);
}

#[test]
fn a_direction_is_legal_when_the_waypoint_stays_off_its_neighbours_axes() {
    let genome = genome(10, 10, Orientation::Horizontal, &[(2, 7), (6, 3)]);
    assert!(genome.validate_path_mutation_direction(0, PathDirection::North));
    assert!(genome.validate_path_mutation_direction(0, PathDirection::East));
    assert!(genome.validate_path_mutation_direction(0, PathDirection::South));
    assert!(genome.validate_path_mutation_direction(0, PathDirection::West));
    assert!(genome.validate_path_mutation_direction(0, PathDirection::Unset));
    // The entrance lies in row 9 and column 0.
    let near_entrance = MazeGenome::new(
        10,
        10,
        Orientation::Horizontal,
        vec![PathGene::new(1, 8), PathGene::new(6, 3)],
        vec![wall_gene()],
        0,
    );
    assert!(!near_entrance.validate_path_mutation_direction(0, PathDirection::North));
    assert!(!near_entrance.validate_path_mutation_direction(0, PathDirection::West));
    assert!(near_entrance.validate_path_mutation_direction(0, PathDirection::South));
    // The next waypoint lies in row 3, the exit in row 0 and column 9.
    let near_next = MazeGenome::new(
        10,
        10,
        Orientation::Horizontal,
        vec![PathGene::new(2, 4), PathGene::new(8, 3)],
        vec![wall_gene()],
        0,
    );
    assert!(!near_next.validate_path_mutation_direction(0, PathDirection::South));
    assert!(!near_next.validate_path_mutation_direction(1, PathDirection::North));
    assert!(!near_next.validate_path_mutation_direction(1, PathDirection::East));
    assert!(near_next.validate_path_mutation_direction(1, PathDirection::South));
    // The edge of the grid.
    let at_edge = genome_at_edge();
    assert!(!at_edge.validate_path_mutation_direction(0, PathDirection::North));
    assert!(!at_edge.validate_path_mutation_direction(1, PathDirection::South));
    assert!(!at_edge.validate_path_mutation_direction(1, PathDirection::East));
}

fn genome_at_edge() -> MazeGenome {
    MazeGenome::new(
        10,
        10,
        Orientation::Horizontal,
        vec![PathGene::new(4, 9), PathGene::new(9, 0)],
        vec![wall_gene()],
        0,
    )
}

#[test]
fn a_waypoint_moves_in_the_first_legal_direction() {
    let mut moving = genome(10, 10, Orientation::Horizontal, &[(2, 7), (6, 3)]);
    assert!(moving.move_waypoint(0, 0));
    assert_eq!(points(&moving), vec![(2, 8), (6, 3)]);
    // North would bring the waypoint into the row of the entrance: east
    // is tried next.
    assert!(moving.move_waypoint(0, 0));
    assert_eq!(points(&moving), vec![(3, 8), (6, 3)]);
    assert!(moving.move_waypoint(1, 2));
    assert_eq!(points(&moving), vec![(3, 8), (6, 2)]);
    assert!(moving.move_waypoint(1, 3));
    assert_eq!(points(&moving), vec![(3, 8), (5, 2)]);
    assert!(moving.is_valid());
}

#[test]
fn a_move_that_breaks_the_path_is_not_made() {
    // West would bring the waypoint into the column of the entrance:
    // north is tried next.
    let mut genome = genome(4, 4, Orientation::Horizontal, &[(1, 1)]);
    assert!(genome.is_valid());
    assert!(genome.move_waypoint(0, 3));
    assert_eq!(points(&genome), vec![(1, 2)]);
    assert!(genome.is_valid());
    // The last waypoint may move north, but the leg to the exit would
    // then run along row 1 through the cell (2, 1) of the second leg.
    let mut winding = genome_that_winds();
    assert!(winding.is_valid());
    assert!(winding.validate_path_mutation_direction(2, PathDirection::North));
    assert!(!winding.valid_phenotype_after_waypoint_mutation(2, PathDirection::North));
    assert!(winding.valid_phenotype_after_waypoint_mutation(2, PathDirection::West));
    assert!(!winding.move_waypoint(2, 0));
    assert_eq!(points(&winding), vec![(4, 1), (2, 3), (1, 0)]);
    // Starting with east: east leads into the column of the waypoint
    // before, south out of the grid, and west is legal and keeps the
    // path valid.
    assert!(!winding.validate_path_mutation_direction(2, PathDirection::East));
    assert!(!winding.validate_path_mutation_direction(2, PathDirection::South));
    assert!(winding.move_waypoint(2, 1));
    assert_eq!(points(&winding), vec![(4, 1), (2, 3), (0, 0)]);
    assert!(winding.is_valid());
}

fn genome_that_winds() -> MazeGenome {
    genome(6, 6, Orientation::Horizontal, &[(4, 1), (2, 3), (1, 0)])
}

#[test]
fn a_waypoint_is_added_only_where_the_path_allows_it() {
    let mut genome = genome(10, 10, Orientation::Horizontal, &[(2, 3)]);
    // Outside of the grid.
    assert!(!genome.try_add_waypoint(PathGene::new(10, 3)));
    // In the column or the row of the last waypoint.
    assert!(!genome.try_add_waypoint(PathGene::new(2, 1)));
    assert!(!genome.try_add_waypoint(PathGene::new(5, 3)));
    // On the route.
    assert!(!genome.try_add_waypoint(PathGene::new(9, 2)));
    assert!(!genome.try_add_waypoint(PathGene::new(9, 0)));
    // Where the new leg would run over the old path: from (2, 3) west
    // along row 3 and up column 1, then back east along row 6 through
    // the cell (2, 6) of the first leg.
    assert!(!genome.try_add_waypoint(PathGene::new(1, 6)));
    assert_eq!(points(&genome), vec![(2, 3)]);
    // Off the route, and the route through it visits no cell twice.
    assert!(genome.try_add_waypoint(PathGene::new(5, 1)));
    assert_eq!(points(&genome), vec![(2, 3), (5, 1)]);
    assert!(genome.is_valid());
    assert_eq!(genome.get_solution_path_cell_length(), 8 + 5 + 5);
}

#[test]
fn random_waypoints_keep_the_genome_valid() {
    let mut genome = genome(10, 10, Orientation::Vertical, &[(2, 3)]);
    for _ in 0..40 {
        let before = genome.path_genes.len();
        let added = genome.add_waypoint();
        assert_eq!(genome.path_genes.len(), before + usize::from(added));
        genome.mutate_waypoint();
        assert_eq!(genome.path_genes.len(), before + usize::from(added));
        assert!(genome.is_valid());
    }
}

#[test]
fn growing_moves_entrance_and_exit_and_keeps_the_path_valid() {
    let mut genome = genome(10, 10, Orientation::Horizontal, &[(3, 7), (6, 4), (8, 2)]);
    let before = genome.get_solution_path_cell_length();
    genome.increase_size();
    assert_eq!((genome.width, genome.height), (11, 11));
    assert_eq!(points(&genome), vec![(3, 7), (6, 4), (8, 2)]);
    assert!(genome.is_valid());
    assert_eq!(genome.get_solution_path_cell_length(), before + 2);
    let maze = genome.to_phenotype();
    assert_eq!(maze.get_cell_at(0, 10).path_direction, PathDirection::East);
    assert_ne!(maze.get_cell_at(10, 0).path_direction, PathDirection::Unset);
}

#[test]
fn mutation_keeps_a_genome_valid() {
    let always = Fraction::from_bits(u32::MAX);
    let config = MazeMutationConfig {
        mutate_wall: always,
        mutate_passage: always,
        mutate_waypoint: always,
        add_wall: always,
        delete_wall: always,
        add_waypoint: always,
        increase_size: always,
    };
    let mut genome = genome(6, 6, Orientation::Horizontal, &[(2, 3)]);
    for round in 0..25 {
        let (width, height) = (genome.width, genome.height);
        let waypoints = genome.path_genes.len();
        genome.mutate(&config);
        assert!(genome.is_valid(), "round {}", round);
        assert!(genome.width >= width && genome.width <= width + 1);
        assert_eq!(genome.width - width, genome.height - height);
        assert!(genome.path_genes.len() >= waypoints && genome.path_genes.len() <= waypoints + 1);
        assert!(!genome.wall_genes.is_empty());
        assert_eq!(genome.id, 7);
        assert_eq!(genome.first_direction, Orientation::Horizontal);
        let maze = genome.to_phenotype();
        assert_eq!(maze.width, genome.width);
    }
}

#[test]
fn a_mutation_that_never_happens_changes_nothing() {
    let never = Fraction::from_bits(0);
    let config = MazeMutationConfig {
        mutate_wall: never,
        mutate_passage: never,
        mutate_waypoint: never,
        add_wall: never,
        delete_wall: never,
        add_waypoint: never,
        increase_size: never,
    };
    let mut mutated = genome(6, 6, Orientation::Horizontal, &[(2, 3)]);
    for _ in 0..10 {
        mutated.mutate(&config);
    }
    let same = genome(6, 6, Orientation::Horizontal, &[(2, 3)]);
    assert_eq!((mutated.width, mutated.height), (same.width, same.height));
    assert_eq!(mutated.path_genes, same.path_genes);
    assert_eq!(mutated.wall_genes, same.wall_genes);
}

#[test]
fn the_default_rates_are_the_usual_ones() {
    let config = MazeMutationConfig::default();
    assert_eq!(config.mutate_wall, Fraction::from_ratio(5, 100));
    assert_eq!(config.mutate_passage, Fraction::from_ratio(5, 100));
    assert_eq!(config.mutate_waypoint, Fraction::from_ratio(5, 100));
    assert_eq!(config.add_wall, Fraction::from_ratio(1, 10));
    assert_eq!(config.delete_wall, Fraction::from_ratio(5, 1000));
    assert_eq!(config.add_waypoint, Fraction::from_ratio(1, 10));
    assert_eq!(config.increase_size, Fraction::from_ratio(1, 10));
    assert_eq!(config.add_wall.bits, 429_496_729);
    assert_eq!(config.delete_wall.bits, 21_474_836);
}

#[test]
fn a_fraction_picks_an_opening_and_an_orientation() {
    assert_eq!(get_random_opening(Fraction::from_bits(0)), OpeningLocation::North);
    assert_eq!(get_random_opening(Fraction::from_ratio(1, 4)), OpeningLocation::East);
    assert_eq!(get_random_opening(Fraction::from_bits((1 << 30) - 1)), OpeningLocation::North);
    assert_eq!(get_random_opening(Fraction::from_ratio(1, 2)), OpeningLocation::South);
    assert_eq!(get_random_opening(Fraction::from_ratio(3, 4)), OpeningLocation::West);
    assert_eq!(get_random_opening(Fraction::from_bits(u32::MAX)), OpeningLocation::West);
    assert_eq!(get_random_orientation(Fraction::from_ratio(1, 2)), Orientation::Vertical);
    assert_eq!(get_random_orientation(Fraction::from_bits((1 << 31) + 1)), Orientation::Horizontal);
    assert_eq!(get_random_orientation(Fraction::from_bits(0)), Orientation::Vertical);
}

#[test]
fn directions_are_taken_in_a_cycle() {
    assert_eq!(direction_of_index(0), PathDirection::North);
    assert_eq!(direction_of_index(1), PathDirection::East);
    assert_eq!(direction_of_index(2), PathDirection::South);
    assert_eq!(direction_of_index(3), PathDirection::West);
    assert_eq!(direction_of_index(4), PathDirection::North);
    assert_eq!(direction_of_index(7), PathDirection::West);
}

#[test]
fn a_random_maze_is_valid() {
    for id in 0..30 {
        let genome = generate_random_maze(10, 10, id);
        assert!(genome.is_valid());
        assert_eq!((genome.width, genome.height, genome.id), (10, 10, id));
        assert!(genome.viable);
        assert!((1..=3).contains(&genome.path_genes.len()));
        assert_eq!(genome.wall_genes.len(), 2);
        assert!(genome.path_genes[0].x >= 1 && genome.path_genes[0].x <= 8);
        assert!(genome.path_genes[0].y >= 1 && genome.path_genes[0].y <= 9);
        let maze = genome.to_phenotype();
        assert_eq!(maze.grid.len(), 10);
    }
    for id in 0..10 {
        assert!(generate_random_maze(2, 2, id).is_valid());
        assert!(generate_random_maze(3, 2, id).is_valid());
    }
}

#[test]
fn only_the_kinds_with_a_chance_are_applied() {
    let never = Fraction::from_bits(0);
    let config = MazeMutationConfig {
        mutate_wall: never,
        mutate_passage: never,
        mutate_waypoint: never,
        add_wall: Fraction::from_bits(u32::MAX),
        delete_wall: never,
        add_waypoint: never,
        increase_size: never,
    };
    let before = genome(6, 6, Orientation::Horizontal, &[(2, 3)]);
    let mut mutated = genome(6, 6, Orientation::Horizontal, &[(2, 3)]);
    for _ in 0..3 {
        if mutated.wall_genes.len() == before.wall_genes.len() {
            mutated.mutate(&config);
        }
    }
    assert_eq!(mutated.wall_genes.len(), before.wall_genes.len() + 1);
    assert_eq!(mutated.wall_genes[..before.wall_genes.len()], before.wall_genes[..]);
    assert_eq!((mutated.width, mutated.height), (6, 6));
    assert_eq!(mutated.path_genes, before.path_genes);
}

#[test]
fn a_random_move_shifts_one_waypoint_by_one_cell_or_none() {
    for _ in 0..20 {
        let before = genome(8, 8, Orientation::Horizontal, &[(2, 5), (5, 2)]);
        let mut mutated = genome(8, 8, Orientation::Horizontal, &[(2, 5), (5, 2)]);
        mutated.mutate_waypoint();
        assert!(mutated.is_valid());
        assert_eq!(mutated.path_genes.len(), 2);
        let shifts: Vec<u32> = (0..2)
            .map(|k| {
                let (old, new) = (before.path_genes[k], mutated.path_genes[k]);
                old.x.abs_diff(new.x) + old.y.abs_diff(new.y)
            })
            .collect();
        assert!(shifts == vec![0, 0] || shifts == vec![1, 0] || shifts == vec![0, 1], "{:?}", shifts);
    }
}
