use maze_coevolution::fraction::Fraction;
use maze_coevolution::maze::maze_genotype::{MazeGenome, PathGene, WallGene};
use maze_coevolution::maze::{OpeningLocation, Orientation};
use maze_coevolution::mcc::agent::agent_genome::{AgentGenome, Link, Node, NodeRef};
use maze_coevolution::mcc::agent::mcc_agent::MCCAgent;
use maze_coevolution::mcc::agent::speciated_agent_queue::SpeciatedAgentQueue;
use maze_coevolution::mcc::experiments::replacement_controller::ReplacementController;
use maze_coevolution::mcc::experiments::varied_size_controller::VariedSizeController;
use maze_coevolution::mcc::generation::{admit_viable_agents_to_species, admit_viable_mazes_to_species};
use maze_coevolution::mcc::maze::speciated_maze_queue::SpeciatedMazeQueue;

fn maze(width: u32, id: u32) -> MazeGenome {
    MazeGenome::new(
        width,
        width,
        Orientation::Horizontal,
        vec![PathGene::new(2, 3)],
        vec![WallGene::new(
            Fraction::from_ratio(32, 100),
            Fraction::from_ratio(4, 10),
            Orientation::Vertical,
            OpeningLocation::East,
        )],
        id,
    )
}

fn agent(id: u32) -> MCCAgent {
    let genome = AgentGenome::new(
        vec![Node::new(NodeRef::Input(0))],
        vec![],
        vec![Node::new(NodeRef::Output(0))],
        vec![Link::new(NodeRef::Input(0), NodeRef::Output(0), 1, 0)],
    );
    MCCAgent::new(genome, id)
}

fn mazes(founders: u32, capacity: usize) -> SpeciatedMazeQueue {
    SpeciatedMazeQueue::new((0..founders).map(|id| maze(10 + id, id)).collect(), capacity, 1).unwrap()
}

fn agents(founders: u32, capacity: usize) -> SpeciatedAgentQueue {
    SpeciatedAgentQueue::new((0..founders).map(agent).collect(), capacity, 1).unwrap()
}

fn maze_capacities(queue: &SpeciatedMazeQueue) -> Vec<usize> {
    queue.species.iter().map(|s| s.maze_queue.max_items_limit).collect()
}

fn agent_capacities(queue: &SpeciatedAgentQueue) -> Vec<usize> {
    queue.species.iter().map(|s| s.agent_queue.max_items_limit).collect()
}

#[test]
fn the_better_half_borrows_from_the_worse_half() {
    let mut queue = mazes(5, 20);
    assert_eq!(maze_capacities(&queue), vec![4, 4, 4, 4, 4]);
    let mut controller = VariedSizeController::new();
    // From worst to best: species 3, 0, 4, 1, 2; the pairs are (3, 4)
    // and (0, 1), and species 2 has no partner.
    controller.update_mazes(&mut queue, &vec![3, 0, 4, 1, 2], 3);
    assert_eq!(maze_capacities(&queue), vec![1, 7, 4, 1, 7]);
    // Nobody lends what would leave it without a place.
    controller.update_mazes(&mut queue, &vec![3, 0, 4, 1, 2], 1);
    assert_eq!(maze_capacities(&queue), vec![1, 7, 4, 1, 7]);
    controller.update_mazes(&mut queue, &vec![1, 4, 2, 0, 3], 6);
    assert_eq!(maze_capacities(&queue), vec![7, 1, 10, 1, 1]);
    assert_eq!(queue.species.len(), 5);
    assert_eq!(queue.species[2].len(), 1);
    assert_eq!(queue.species[2].centroid().width, 12);
}

#[test]
fn both_populations_are_rebalanced() {
    let mut maze_queue = mazes(2, 8);
    let mut agent_queue = agents(3, 9);
    let mut controller = VariedSizeController::new();
    controller.update_population_properties(&mut agent_queue, &mut maze_queue, &vec![2, 1, 0], &vec![1, 0], 1, 2);
    assert_eq!(agent_capacities(&agent_queue), vec![3, 4, 2]);
    assert_eq!(maze_capacities(&maze_queue), vec![6, 2]);
    controller.update_agents(&mut agent_queue, &vec![0, 1, 2], 0);
    assert_eq!(agent_capacities(&agent_queue), vec![3, 4, 2]);
}

#[test]
fn species_with_a_single_member_are_found() {
    let mut maze_queue = mazes(4, 12);
    let mut agent_queue = agents(3, 9);
    let controller = ReplacementController::new();
    assert_eq!(controller.lone_maze_species(&maze_queue), vec![0, 1, 2, 3]);
    maze_queue.push(maze(20, 9), &vec![5, 1, 5, 5]);
    maze_queue.push(maze(21, 10), &vec![5, 5, 5, 1]);
    assert_eq!(controller.lone_maze_species(&maze_queue), vec![0, 2]);
    agent_queue.push(agent(9), &vec![0, 1, 2]);
    assert_eq!(controller.lone_agent_species(&agent_queue), vec![1, 2]);
}

#[test]
fn a_replaced_species_gives_its_capacity_to_the_new_one() {
    let mut maze_queue = mazes(3, 9);
    let mut agent_queue = agents(2, 8);
    let controller = ReplacementController::new();
    controller.replace_maze_species(&mut maze_queue, 1, maze(30, 77));
    let ids: Vec<u32> = maze_queue.species.iter().map(|s| s.id).collect();
    assert_eq!(ids, vec![0, 2, 3]);
    assert_eq!(maze_queue.species_added, 4);
    assert_eq!(maze_queue.species[2].centroid().width, 30);
    assert_eq!(maze_queue.species[2].len(), 1);
    assert_eq!(maze_queue.species[2].maze_queue.mazes[0].id, 77);
    assert_eq!(maze_capacities(&maze_queue), vec![3, 3, 3]);
    assert_eq!(maze_queue.selection_limit, 1);

    controller.replace_agent_species(&mut agent_queue, 0, agent(55));
    let ids: Vec<u32> = agent_queue.species.iter().map(|s| s.id).collect();
    assert_eq!(ids, vec![1, 2]);
    assert_eq!(agent_queue.species[1].centroid().id, 55);
    assert_eq!(agent_capacities(&agent_queue), vec![4, 4]);
    assert_eq!(agent_queue.species_added, 3);
}

#[test]
fn the_worst_species_is_replaced_by_a_random_maze() {
    let mut maze_queue = mazes(3, 9);
    let controller = ReplacementController::new();
    controller.replace_worst_maze_species(&mut maze_queue, 0, 8);
    let ids: Vec<u32> = maze_queue.species.iter().map(|s| s.id).collect();
    assert_eq!(ids, vec![1, 2, 3]);
    let founder = maze_queue.species[2].centroid();
    assert_eq!((founder.width, founder.height, founder.id), (8, 8, 3));
    assert!(founder.is_valid());
    assert_eq!(maze_queue.species[2].len(), 1);
    assert_eq!(maze_queue.species[2].maze_queue.max_items_limit, 3);
}

#[test]
fn viable_children_join_their_nearest_species() {
    let mut maze_queue = mazes(2, 4);
    let mut children = vec![maze(20, 5), maze(21, 6), maze(22, 7), maze(23, 8)];
    children[1].viable = false;
    let distances = vec![vec![1, 2], vec![1, 2], vec![3, 2], vec![0, 9]];
    admit_viable_mazes_to_species(&mut maze_queue, &children, &distances);
    let widths = |k: usize| maze_queue.species[k].maze_queue.mazes.iter().map(|m| m.width).collect::<Vec<_>>();
    // The capacity of a species is two: the founder of the first leaves.
    assert_eq!(widths(0), vec![20, 23]);
    assert_eq!(widths(1), vec![11, 22]);

    let mut agent_queue = agents(2, 4);
    let mut children = vec![agent(5), agent(6)];
    children[0].viable = false;
    children[1].viable = false;
    admit_viable_agents_to_species(&mut agent_queue, &children, &vec![vec![1, 2], vec![2, 1]]);
    assert_eq!(agent_queue.len(), 2);
    children[1].viable = true;
    admit_viable_agents_to_species(&mut agent_queue, &children, &vec![vec![1, 2], vec![2, 1]]);
    assert_eq!(agent_queue.species[0].len(), 1);
    assert_eq!(agent_queue.species[1].agent_queue.agents.iter().map(|a| a.id).collect::<Vec<_>>(), vec![1, 6]);
}
