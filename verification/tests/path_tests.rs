use maze_coevolution::maze::maze_genotype::PathGene;
use maze_coevolution::maze::maze_phenotype::MazePhenotype;
use maze_coevolution::maze::maze_validator::MazeValidator;
use maze_coevolution::maze::{Orientation, PathDirection};

fn genes(points: &[(u32, u32)]) -> Vec<PathGene> {
    points.iter().map(|&(x, y)| PathGene::new(x, y)).collect()
}

fn carved(width: u32, height: u32, first: Orientation, points: &[(u32, u32)]) -> MazePhenotype {
    let mut maze = MazePhenotype::blank(width, height, first);
    maze.add_path(&genes(points));
    maze
}

#[test]
fn a_leg_runs_along_the_first_direction_first() {
    let maze = carved(4, 4, Orientation::Horizontal, &[(2, 1)]);
    assert_eq!(maze.get_cell_at(0, 3).path_direction, PathDirection::East);
    assert_eq!(maze.get_cell_at(1, 3).path_direction, PathDirection::East);
    assert_eq!(maze.get_cell_at(2, 3).path_direction, PathDirection::South);
    assert_eq!(maze.get_cell_at(2, 2).path_direction, PathDirection::South);
    assert_eq!(maze.get_cell_at(2, 1).path_direction, PathDirection::East);
    assert_eq!(maze.get_cell_at(3, 1).path_direction, PathDirection::South);
    assert_eq!(maze.get_cell_at(3, 0).path_direction, PathDirection::South);
    assert_eq!(maze.get_cell_at(0, 2).path_direction, PathDirection::Unset);

    let maze = carved(4, 4, Orientation::Vertical, &[(2, 1)]);
    assert_eq!(maze.get_cell_at(0, 3).path_direction, PathDirection::South);
    assert_eq!(maze.get_cell_at(0, 2).path_direction, PathDirection::South);
    assert_eq!(maze.get_cell_at(0, 1).path_direction, PathDirection::East);
    assert_eq!(maze.get_cell_at(1, 1).path_direction, PathDirection::East);
    assert_eq!(maze.get_cell_at(2, 1).path_direction, PathDirection::South);
    assert_eq!(maze.get_cell_at(2, 0).path_direction, PathDirection::East);
    assert_eq!(maze.get_cell_at(3, 0).path_direction, PathDirection::East);
    assert_eq!(maze.get_cell_at(1, 3).path_direction, PathDirection::Unset);
}

#[test]
fn carving_marks_waypoints_and_junctures() {
    let maze = carved(4, 4, Orientation::Horizontal, &[(2, 1)]);
    assert!(maze.get_cell_at(2, 1).is_waypoint);
    assert!(maze.get_cell_at(3, 0).is_waypoint);
    assert!(!maze.get_cell_at(0, 3).is_waypoint);
    assert!(maze.get_cell_at(2, 3).is_juncture);
    assert!(maze.get_cell_at(3, 1).is_juncture);
    assert!(!maze.get_cell_at(2, 1).is_juncture);
    assert!(!maze.get_cell_at(1, 3).is_juncture);
}

#[test]
fn a_straight_leg_has_no_juncture() {
    let maze = carved(4, 4, Orientation::Horizontal, &[(3, 3)]);
    for x in 0..4 {
        for y in 0..4 {
            assert!(!maze.get_cell_at(x, y).is_juncture);
        }
    }
    assert_eq!(maze.get_cell_at(0, 3).path_direction, PathDirection::East);
    assert_eq!(maze.get_cell_at(3, 3).path_direction, PathDirection::South);
    assert_eq!(maze.get_cell_at(3, 0).path_direction, PathDirection::South);
}

#[test]
fn a_path_without_waypoints_joins_entrance_and_exit() {
    let maze = carved(3, 3, Orientation::Vertical, &[]);
    assert_eq!(maze.get_cell_at(0, 2).path_direction, PathDirection::South);
    assert_eq!(maze.get_cell_at(0, 1).path_direction, PathDirection::South);
    assert_eq!(maze.get_cell_at(0, 0).path_direction, PathDirection::East);
    assert_eq!(maze.get_cell_at(1, 0).path_direction, PathDirection::East);
    assert_eq!(maze.get_cell_at(2, 0).path_direction, PathDirection::East);
    assert!(MazeValidator::validate_new_path(3, 3, Orientation::Vertical, &genes(&[])));
}

#[test]
fn the_validator_accepts_a_path_that_visits_no_cell_twice() {
    assert!(MazeValidator::validate_new_path(10, 10, Orientation::Horizontal, &genes(&[(2, 3)])));
    assert!(MazeValidator::validate_new_path(10, 10, Orientation::Vertical, &genes(&[(2, 3)])));
    assert!(MazeValidator::validate_new_path(
        10,
        10,
        Orientation::Horizontal,
        &genes(&[(3, 7), (6, 4), (8, 2)])
    ));
}

#[test]
fn the_validator_rejects_a_path_that_crosses_itself() {
    // The third leg runs down column 3 through a cell that the second
    // leg has claimed.
    assert!(!MazeValidator::validate_new_path(
        6,
        6,
        Orientation::Horizontal,
        &genes(&[(4, 2), (2, 4), (3, 1)])
    ));
    // The leg to the second waypoint turns back over the first leg.
    assert!(!MazeValidator::validate_new_path(
        5,
        5,
        Orientation::Horizontal,
        &genes(&[(3, 4), (1, 4)])
    ));
}

#[test]
fn the_validator_rejects_a_path_that_passes_through_the_exit() {
    // (0,2) -> (1,0) -> (2,1) -> (2,0): the second leg leaves the exit
    // cell (2,0) on its way north, so the path would visit it twice.
    assert!(!MazeValidator::validate_new_path(
        3,
        3,
        Orientation::Horizontal,
        &genes(&[(1, 0), (2, 1)])
    ));
}

#[test]
fn the_validator_rejects_waypoints_outside_the_grid() {
    assert!(!MazeValidator::validate_new_path(4, 4, Orientation::Horizontal, &genes(&[(4, 1)])));
    assert!(!MazeValidator::validate_new_path(4, 4, Orientation::Horizontal, &genes(&[(1, 4)])));
    assert!(!MazeValidator::validate_new_path(0, 4, Orientation::Horizontal, &genes(&[])));
    assert!(!MazeValidator::validate_new_path(4, 0, Orientation::Horizontal, &genes(&[])));
}

#[test]
fn the_validator_grid_shows_the_cells_of_the_route() {
    let validator = MazeValidator::new(4, 4, Orientation::Horizontal, &genes(&[(2, 1)]));
    let route = [(0, 3), (1, 3), (2, 3), (2, 2), (2, 1), (3, 1), (3, 0)];
    for x in 0..4u32 {
        for y in 0..4u32 {
            let on_route = route.contains(&(x, y));
            assert_eq!(
                validator.get_cell_at(x, y).path_direction != PathDirection::Unset,
                on_route,
                "cell ({}, {})",
                x,
                y
            );
        }
    }
    assert_eq!(validator.get_cell_at(3, 0).path_direction, PathDirection::South);
}

#[test]
fn a_validator_leg_stops_at_a_claimed_cell() {
    let mut validator = MazeValidator::new(4, 4, Orientation::Horizontal, &genes(&[(2, 1)]));
    let from = PathGene::new(0, 2);
    let to = PathGene::new(3, 2);
    assert!(!validator.add_waypoint(&from, &to));
    let mut validator = MazeValidator::new(4, 4, Orientation::Horizontal, &genes(&[(2, 1)]));
    assert!(validator.add_horizontal_path_segment(0, 0, 2));
    assert!(!validator.add_vertical_path_segment(2, 0, 3));
}
