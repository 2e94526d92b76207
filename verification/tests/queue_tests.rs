use maze_coevolution::fraction::Fraction;
use maze_coevolution::maze::maze_genotype::{MazeGenome, MazeMutationConfig, PathGene, WallGene};
use maze_coevolution::maze::{OpeningLocation, Orientation};
use maze_coevolution::mcc::maze::maze_queue::MazeQueue;
use maze_coevolution::mcc::maze::maze_species::MazeSpecies;
use maze_coevolution::mcc::maze::speciated_maze_queue::SpeciatedMazeQueue;
use maze_coevolution::mcc::population::{nearest_species, QueueError};
use maze_coevolution::mcc::statistics::{average, first_smallest_index, last_largest_index, Ratio};

fn maze(width: u32, id: u32) -> MazeGenome {
    MazeGenome::new(
        width,
        width,
        Orientation::Horizontal,
        vec![PathGene::new(2, 3)],
        vec![WallGene::new(
            Fraction::from_ratio(32, 100),
            Fraction::from_ratio(4, 10),
            Orientation::Vertical,
            OpeningLocation::East,
        )],
        id,
    )
}

fn never() -> MazeMutationConfig {
    let never = Fraction::from_bits(0);
    MazeMutationConfig {
        mutate_wall: never,
        mutate_passage: never,
        mutate_waypoint: never,
        add_wall: never,
        delete_wall: never,
        add_waypoint: never,
        increase_size: never,
    }
}

fn ids(queue: &MazeQueue) -> Vec<u32> {
    queue.mazes.iter().map(|maze| maze.id).collect()
}

fn widths(mazes: &[MazeGenome]) -> Vec<u32> {
    mazes.iter().map(|maze| maze.width).collect()
}

#[test]
fn a_queue_of_capacity_five_holds_the_five_newest() {
    let mut queue = MazeQueue::new(vec![maze(10, 0)], 5).unwrap();
    for id in 1..=6 {
        queue.push(maze(10, id));
    }
    assert_eq!(queue.len(), 5);
    assert_eq!(ids(&queue), vec![2, 3, 4, 5, 6]);
    assert!(queue.mazes.iter().all(|maze| maze.id != 0));
}

#[test]
fn a_queue_without_capacity_is_refused() {
    assert_eq!(MazeQueue::new(vec![maze(10, 0)], 0).err(), Some(QueueError::ZeroCapacity));
    assert_eq!(MazeQueue::new(vec![], 0).err(), Some(QueueError::ZeroCapacity));
    assert!(MazeQueue::new(vec![], 3).is_ok());
    assert_eq!(MazeSpecies::new(maze(10, 0), 0, 4).err(), Some(QueueError::ZeroCapacity));
}

#[test]
fn a_new_queue_counts_its_founders() {
    let queue = MazeQueue::new(vec![maze(10, 0), maze(11, 1), maze(12, 2)], 8).unwrap();
    assert_eq!(queue.len(), 3);
    assert_eq!(queue.current_maze_index, 0);
    assert_eq!(queue.max_items_limit, 8);
    assert_eq!(queue.total_individuals_added, 3);
    assert_eq!(queue.get(1).width, 11);
}

#[test]
fn the_cursor_moves_with_the_maze_that_it_points_to() {
    let mut queue = MazeQueue::new(vec![maze(10, 0), maze(11, 1), maze(12, 2)], 3).unwrap();
    let _ = queue.next_parents(2);
    assert_eq!(queue.current_maze_index, 2);
    queue.push(maze(13, 3));
    assert_eq!(ids(&queue), vec![1, 2, 3]);
    assert_eq!(queue.current_maze_index, 1);
    queue.push(maze(14, 4));
    assert_eq!(queue.current_maze_index, 0);
    queue.push(maze(15, 5));
    assert_eq!(queue.current_maze_index, 0);
    assert_eq!(ids(&queue), vec![3, 4, 5]);
}

#[test]
fn parents_are_picked_in_turn() {
    let mut queue = MazeQueue::new(vec![maze(10, 0), maze(11, 1), maze(12, 2)], 5).unwrap();
    let children = queue.next_parents(7);
    // The cursor wraps at the capacity, and a cursor past the last maze
    // picks the first one: 0 1 2, then 3 -> 0, 1, 2, then 3 -> 0.
    assert_eq!(widths(&children), vec![10, 11, 12, 10, 11, 12, 10]);
    assert_eq!(children.iter().map(|child| child.id).collect::<Vec<_>>(), vec![3, 4, 5, 6, 7, 8, 9]);
    assert!(children.iter().all(|child| !child.viable && child.successful_agent_id.is_none()));
    assert_eq!(queue.total_individuals_added, 10);
    assert_eq!(queue.current_maze_index, 1);
    assert_eq!(ids(&queue), vec![0, 1, 2]);
}

#[test]
fn the_cursor_wraps_at_the_capacity() {
    let mut queue = MazeQueue::new(vec![maze(10, 0), maze(11, 1), maze(12, 2)], 2).unwrap();
    let children = queue.next_parents(5);
    assert_eq!(widths(&children), vec![10, 11, 10, 11, 10]);
    assert_eq!(queue.current_maze_index, 1);
    let mut single = MazeQueue::new(vec![maze(10, 0), maze(11, 1)], 1).unwrap();
    assert_eq!(widths(&single.next_parents(3)), vec![10, 10, 10]);
    assert_eq!(single.current_maze_index, 0);
    assert!(single.next_parents(0).is_empty());
}

#[test]
fn children_are_mutated_copies_of_their_parents() {
    let mut queue = MazeQueue::new(vec![maze(10, 0), maze(12, 1)], 4).unwrap();
    let children = queue.get_children(3, &never());
    assert_eq!(widths(&children), vec![10, 12, 10]);
    assert_eq!(children.iter().map(|child| child.id).collect::<Vec<_>>(), vec![2, 3, 4]);
    assert!(children.iter().all(|child| !child.viable));
    let always = Fraction::from_bits(u32::MAX);
    let growing = MazeMutationConfig { increase_size: always, ..never() };
    let children = queue.get_children(2, &growing);
    assert_eq!(widths(&children), vec![13, 11]);
    assert!(children.iter().all(|child| child.is_valid()));
    assert_eq!(widths(&queue.mazes), vec![10, 12]);
}

#[test]
fn children_pushed_back_follow_the_population_in_order() {
    let mut queue = MazeQueue::new(vec![maze(10, 0), maze(11, 1), maze(12, 2)], 5).unwrap();
    let children = queue.get_children(4, &never());
    assert_eq!(widths(&queue.mazes), vec![10, 11, 12]);
    for child in children.iter() {
        queue.push(child.clone());
    }
    // Seven in all, two more than the capacity: the two oldest leave.
    assert_eq!(widths(&queue.mazes), vec![12, 10, 11, 12, 10]);
    assert_eq!(ids(&queue), vec![2, 3, 4, 5, 6]);
    // Below the capacity nothing leaves.
    let mut roomy = MazeQueue::new(vec![maze(10, 0), maze(11, 1)], 9).unwrap();
    let children = roomy.get_children(3, &never());
    for child in children.iter() {
        roomy.push(child.clone());
    }
    assert_eq!(widths(&roomy.mazes), vec![10, 11, 10, 11, 10]);
}

#[test]
fn the_queue_reports_its_sizes() {
    let queue = MazeQueue::new(vec![maze(12, 0), maze(10, 1), maze(15, 2), maze(10, 3)], 9).unwrap();
    assert_eq!(queue.sizes(), vec![12, 10, 15, 10]);
    assert_eq!(queue.get_largest_size(), 15);
    assert_eq!(queue.get_smallest_size(), 10);
    assert_eq!(queue.get_average_size(), Ratio { numerator: 47, denominator: 4 });
}

#[test]
fn the_queue_reports_the_waypoints_of_its_most_and_least_complex_maze() {
    let mut straight = maze(10, 0);
    straight.path_genes = vec![PathGene::new(4, 9)];
    let mut winding = maze(10, 1);
    winding.path_genes = vec![PathGene::new(2, 7), PathGene::new(6, 3)];
    let queue = MazeQueue::new(vec![maze(10, 2), straight, winding, maze(10, 3)], 9).unwrap();
    assert_eq!(queue.complexities(), vec![3, 2, 5, 3]);
    assert_eq!(queue.get_largest_path_size(), 2);
    assert_eq!(queue.get_smallest_path_size(), 1);
    assert_eq!(queue.get_average_path_size(), Ratio { numerator: 13, denominator: 4 });
}

#[test]
fn extremes_break_ties_by_position() {
    let values = vec![3, 7, 1, 7, 1];
    assert_eq!(last_largest_index(&values), 3);
    assert_eq!(first_smallest_index(&values), 2);
    assert_eq!(last_largest_index(&vec![5]), 0);
    assert_eq!(first_smallest_index(&vec![5]), 0);
    assert_eq!(average(&values), Ratio { numerator: 19, denominator: 5 });
    assert_eq!(average(&vec![]), Ratio { numerator: 0, denominator: 0 });
    assert_eq!(
        average(&vec![u32::MAX, u32::MAX]),
        Ratio { numerator: 2 * (u32::MAX as u64), denominator: 2 }
    );
}

#[test]
fn the_nearest_species_has_the_least_distance() {
    assert_eq!(nearest_species(&vec![5, 2, 9]), 1);
    assert_eq!(nearest_species(&vec![5, 2, 2]), 1);
    assert_eq!(nearest_species(&vec![0, 0, 0]), 0);
    assert_eq!(nearest_species(&vec![7]), 0);
    assert_eq!(nearest_species(&vec![9, 8, 7, 6]), 3);
}

#[test]
fn a_species_starts_with_its_founder() {
    let species = MazeSpecies::new(maze(10, 5), 3, 2).unwrap();
    assert_eq!(species.len(), 1);
    assert_eq!(species.id, 2);
    assert_eq!(species.centroid().id, 5);
    assert_eq!(species.maze_queue.mazes[0].id, 5);
    assert_eq!(species.maze_queue.max_items_limit, 3);
    assert_eq!(species.maze_queue.total_individuals_added, 1);
    assert!(species.statistics.average_sizes.is_empty());
}

#[test]
fn a_species_keeps_its_founder_as_centroid() {
    let mut species = MazeSpecies::new(maze(10, 0), 2, 0).unwrap();
    species.push(maze(11, 1));
    species.push(maze(12, 2));
    assert_eq!(widths(&species.maze_queue.mazes), vec![11, 12]);
    assert_eq!(species.centroid().width, 10);
    let children = species.get_children(3, &never());
    assert_eq!(widths(&children), vec![11, 12, 11]);
    assert_eq!(children[0].id, 1);
}

#[test]
fn a_species_records_its_state() {
    let mut species = MazeSpecies::new(maze(10, 0), 5, 0).unwrap();
    species.save_state();
    species.push(maze(14, 1));
    species.save_state();
    assert_eq!(
        species.statistics.average_sizes,
        vec![Ratio { numerator: 10, denominator: 1 }, Ratio { numerator: 24, denominator: 2 }]
    );
    assert_eq!(species.statistics.maximum_sizes, vec![10, 14]);
    assert_eq!(species.statistics.minimum_sizes, vec![10, 10]);
    assert_eq!(
        species.statistics.average_path_complexities,
        vec![Ratio { numerator: 3, denominator: 1 }, Ratio { numerator: 6, denominator: 2 }]
    );
    assert_eq!(species.statistics.maximum_path_complexities, vec![1, 1]);
    assert_eq!(species.statistics.minimum_path_complexities, vec![1, 1]);
}

#[test]
fn a_speciated_queue_has_one_species_for_each_founder() {
    let queue = SpeciatedMazeQueue::new(vec![maze(10, 0), maze(11, 1), maze(12, 2)], 10, 6).unwrap();
    assert_eq!(queue.species.len(), 3);
    assert_eq!(queue.len(), 3);
    assert_eq!(queue.selection_limit, 6);
    for (k, species) in queue.species.iter().enumerate() {
        assert_eq!(species.id, k as u32);
        assert_eq!(species.maze_queue.max_items_limit, 3);
        assert_eq!(species.centroid().width, 10 + k as u32);
        assert_eq!(species.len(), 1);
    }
}

#[test]
fn a_speciated_queue_refuses_what_cannot_work() {
    assert_eq!(SpeciatedMazeQueue::new(vec![], 10, 6).err(), Some(QueueError::NoFounder));
    assert_eq!(SpeciatedMazeQueue::new(vec![], 0, 0).err(), Some(QueueError::NoFounder));
    assert_eq!(
        SpeciatedMazeQueue::new(vec![maze(10, 0), maze(11, 1)], 1, 6).err(),
        Some(QueueError::ZeroCapacity)
    );
    assert_eq!(
        SpeciatedMazeQueue::new(vec![maze(10, 0), maze(11, 1)], 0, 0).err(),
        Some(QueueError::ZeroCapacity)
    );
    assert_eq!(
        SpeciatedMazeQueue::new(vec![maze(10, 0), maze(11, 1)], 2, 0).err(),
        Some(QueueError::ZeroSelection)
    );
    assert!(SpeciatedMazeQueue::new(vec![maze(10, 0), maze(11, 1)], 2, 1).is_ok());
}

#[test]
fn a_newcomer_joins_the_nearest_species() {
    let mut queue = SpeciatedMazeQueue::new(vec![maze(10, 0), maze(11, 1), maze(12, 2)], 6, 3).unwrap();
    queue.push(maze(20, 7), &vec![30, 10, 20]);
    assert_eq!(queue.species[0].len(), 1);
    assert_eq!(widths(&queue.species[1].maze_queue.mazes), vec![11, 20]);
    assert_eq!(queue.species[2].len(), 1);
    // Not the most distant one, and the first of two that are as near.
    queue.push(maze(21, 8), &vec![5, 9, 5]);
    assert_eq!(widths(&queue.species[0].maze_queue.mazes), vec![10, 21]);
    assert_eq!(queue.species[2].len(), 1);
    // The capacity of a species is two: its oldest maze leaves.
    queue.push(maze(22, 9), &vec![1, 2, 3]);
    assert_eq!(widths(&queue.species[0].maze_queue.mazes), vec![21, 22]);
    assert_eq!(queue.species[0].centroid().width, 10);
    assert_eq!(queue.len(), 5);
}

#[test]
fn every_species_gives_its_share_of_the_children() {
    let mut queue = SpeciatedMazeQueue::new(vec![maze(10, 0), maze(11, 1), maze(12, 2)], 9, 7).unwrap();
    queue.push(maze(20, 7), &vec![1, 2, 3]);
    let children = queue.get_children(&never());
    // Seven children for three species: two from each.
    assert_eq!(widths(&children), vec![10, 20, 11, 11, 12, 12]);
    assert!(children.iter().all(|child| !child.viable));
    assert_eq!(children[0].id, 1);
    assert_eq!(children[1].id, 2);
    assert_eq!(children[2].id, 1);
    assert_eq!(queue.len(), 4);
}

#[test]
fn a_speciated_queue_reports_over_all_species() {
    let mut queue = SpeciatedMazeQueue::new(vec![maze(10, 0), maze(11, 1), maze(12, 2)], 9, 3).unwrap();
    queue.push(maze(20, 7), &vec![1, 2, 3]);
    queue.push(maze(8, 8), &vec![3, 2, 1]);
    assert_eq!(queue.get_largest_size(), 20);
    assert_eq!(queue.get_smallest_size(), 8);
    assert_eq!(queue.get_average_size(), Ratio { numerator: 10 + 20 + 11 + 12 + 8, denominator: 5 });
    assert_eq!(queue.get_average_path_size(), Ratio { numerator: 15, denominator: 5 });
    assert_eq!(queue.get_largest_path_size(), 1);
    assert_eq!(queue.get_smallest_path_size(), 1);
    queue.species[1].maze_queue.mazes[0].path_genes = vec![PathGene::new(2, 7), PathGene::new(6, 3)];
    assert_eq!(queue.get_largest_path_size(), 2);
    assert_eq!(queue.get_smallest_path_size(), 1);
    assert_eq!(queue.get_average_path_size(), Ratio { numerator: 17, denominator: 5 });
    queue.save_state();
    assert_eq!(queue.species[0].statistics.maximum_sizes, vec![20]);
    assert_eq!(queue.species[1].statistics.maximum_sizes, vec![11]);
    assert_eq!(queue.species[2].statistics.minimum_sizes, vec![8]);
}

#[test]
fn a_queue_is_walked_from_the_oldest_to_the_newest() {
    let mut queue = MazeQueue::new(vec![maze(10, 0)], 3).unwrap();
    for id in 1..=4 {
        queue.push(maze(10 + id, id));
    }
    let walked: Vec<u32> = queue.iter().map(|maze| maze.id).collect();
    assert_eq!(walked, vec![2, 3, 4]);
    let mut species = MazeSpecies::new(maze(10, 7), 2, 0).unwrap();
    species.push(maze(11, 8));
    species.push(maze(12, 9));
    let walked: Vec<u32> = species.iter().map(|maze| maze.id).collect();
    assert_eq!(walked, vec![8, 9]);
}

#[test]
fn the_species_are_walked_in_the_order_of_their_founders() {
    let queue = SpeciatedMazeQueue::new(vec![maze(10, 0), maze(11, 1), maze(12, 2)], 9, 3).unwrap();
    let founders: Vec<u32> = queue.iter_species().map(|species| species.centroid().width).collect();
    assert_eq!(founders, vec![10, 11, 12]);
    let places: Vec<u32> = queue.iter_species().map(|species| species.id).collect();
    assert_eq!(places, vec![0, 1, 2]);
}
