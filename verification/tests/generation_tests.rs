use maze_coevolution::fraction::Fraction;
use maze_coevolution::maze::maze_genotype::{MazeGenome, PathGene, WallGene};
use maze_coevolution::maze::{OpeningLocation, Orientation};
use maze_coevolution::mcc::agent::agent_genome::{AgentGenome, AgentMutationConfig, Link, Node, NodeRef};
use maze_coevolution::mcc::agent::agent_queue::AgentQueue;
use maze_coevolution::mcc::agent::mcc_agent::MCCAgent;
use maze_coevolution::mcc::generation::{admit_viable_agents, admit_viable_mazes, mark_viable};
use maze_coevolution::mcc::maze::maze_queue::MazeQueue;
use maze_coevolution::simulator::radar::RadarValues;

fn maze(id: u32) -> MazeGenome {
    MazeGenome::new(
        10,
        10,
        Orientation::Horizontal,
        vec![PathGene::new(2, 3)],
        vec![WallGene::new(
            Fraction::from_ratio(32, 100),
            Fraction::from_ratio(4, 10),
            Orientation::Vertical,
            OpeningLocation::East,
        )],
        id,
    )
}

fn agent(id: u32) -> MCCAgent {
    let genome = AgentGenome::new(
        vec![Node::new(NodeRef::Input(0))],
        vec![],
        vec![Node::new(NodeRef::Output(0))],
        vec![Link::new(NodeRef::Input(0), NodeRef::Output(0), 1, 0)],
    );
    MCCAgent::new(genome, id)
}

fn child_agent(id: u32) -> MCCAgent {
    let mut child = agent(id);
    child.viable = false;
    child
}

fn child_maze(id: u32) -> MazeGenome {
    let mut child = maze(id);
    child.viable = false;
    child
}

#[test]
fn an_agent_that_solves_a_maze_makes_both_viable() {
    let mut agents = vec![child_agent(10), child_agent(11), child_agent(12)];
    let mut mazes = vec![child_maze(20), child_maze(21)];
    let outcomes = vec![vec![false, true, true], vec![false, false, false]];
    mark_viable(&mut agents, &mut mazes, &outcomes);
    assert_eq!(agents.iter().map(|agent| agent.viable).collect::<Vec<_>>(), vec![false, true, true]);
    assert_eq!(mazes.iter().map(|maze| maze.viable).collect::<Vec<_>>(), vec![true, false]);
    // The last agent that has solved the maze is named as its solver.
    assert_eq!(mazes[0].successful_agent_id, Some(12));
    assert_eq!(mazes[1].successful_agent_id, None);
    assert_eq!(agents.iter().map(|agent| agent.id).collect::<Vec<_>>(), vec![10, 11, 12]);
}

#[test]
fn an_agent_stays_viable_when_it_solves_nothing_more() {
    let mut agents = vec![agent(1), child_agent(2)];
    let mut mazes = vec![maze(5)];
    mazes[0].successful_agent_id = Some(77);
    mark_viable(&mut agents, &mut mazes, &vec![vec![false, false]]);
    assert!(agents[0].viable);
    assert!(!agents[1].viable);
    assert!(mazes[0].viable);
    assert_eq!(mazes[0].successful_agent_id, Some(77));
    let mut nobody: Vec<MCCAgent> = vec![];
    mark_viable(&mut nobody, &mut mazes, &vec![vec![]]);
    assert_eq!(mazes[0].successful_agent_id, Some(77));
}

#[test]
fn a_child_that_solves_no_maze_is_not_admitted() {
    let mut agents = AgentQueue::new(vec![agent(0), agent(1)], 10).unwrap();
    let mut mazes = MazeQueue::new(vec![maze(0)], 10).unwrap();
    let never = Fraction::from_bits(0);
    let config = AgentMutationConfig {
        add_node_probability: never,
        add_connection_probability: never,
        disable_connection_probability: never,
        mutate_link_weight_probability: never,
        mutate_link_weight_size: 0,
        initial_link_weight_size: 0,
    };
    let mut agent_children = agents.get_children(1, &config);
    let mut maze_children = mazes.next_parents(2);
    // The child reaches the exit of neither maze.
    mark_viable(&mut agent_children, &mut maze_children, &vec![vec![false], vec![false]]);
    assert!(!agent_children[0].viable);
    admit_viable_agents(&mut agents, &agent_children);
    admit_viable_mazes(&mut mazes, &maze_children);
    assert_eq!(agents.len(), 2);
    assert_eq!(agents.agents.iter().map(|agent| agent.id).collect::<Vec<_>>(), vec![0, 1]);
    assert_eq!(mazes.len(), 1);
}

#[test]
fn the_viable_children_are_admitted_in_order() {
    let mut agents = AgentQueue::new(vec![agent(0), agent(1)], 3).unwrap();
    let mut mazes = MazeQueue::new(vec![maze(0)], 10).unwrap();
    let mut agent_children = vec![child_agent(2), child_agent(3), child_agent(4), child_agent(5)];
    let mut maze_children = vec![child_maze(1), child_maze(2), child_maze(3)];
    let outcomes = vec![vec![true, false, false, true], vec![false; 4], vec![false, false, true, false]];
    mark_viable(&mut agent_children, &mut maze_children, &outcomes);
    admit_viable_agents(&mut agents, &agent_children);
    admit_viable_mazes(&mut mazes, &maze_children);
    // Agents 2, 4 and 5 join; with a capacity of three, both founders
    // leave.
    assert_eq!(agents.agents.iter().map(|agent| agent.id).collect::<Vec<_>>(), vec![2, 4, 5]);
    assert_eq!(mazes.mazes.iter().map(|maze| maze.id).collect::<Vec<_>>(), vec![0, 1, 3]);
    assert_eq!(mazes.mazes[1].successful_agent_id, Some(5));
    assert_eq!(mazes.mazes[2].successful_agent_id, Some(4));
}

#[test]
fn the_radar_shows_the_quarter_of_the_exit() {
    let nowhere = RadarValues::new();
    assert_eq!(nowhere.to_vector(), vec![false, false, false, false]);
    let forward = RadarValues { forward: true, ..nowhere };
    let left = RadarValues { left: true, ..nowhere };
    let back = RadarValues { back: true, ..nowhere };
    let right = RadarValues { right: true, ..nowhere };
    assert_eq!(RadarValues::from_difference(0), forward);
    assert_eq!(RadarValues::from_difference(44_999), forward);
    assert_eq!(RadarValues::from_difference(45_000), left);
    assert_eq!(RadarValues::from_difference(134_999), left);
    assert_eq!(RadarValues::from_difference(135_000), back);
    assert_eq!(RadarValues::from_difference(225_000), right);
    assert_eq!(RadarValues::from_difference(314_999), right);
    assert_eq!(RadarValues::from_difference(315_000), forward);
    assert_eq!(RadarValues::from_difference(359_999), forward);
    assert_eq!(RadarValues::from_difference(360_000), nowhere);
    assert_eq!(right.to_vector(), vec![false, true, false, false]);
    assert_eq!(left.to_vector(), vec![false, false, false, true]);
}
