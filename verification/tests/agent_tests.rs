use maze_coevolution::fraction::Fraction;
use maze_coevolution::mcc::agent::agent_genome::{
    weight_after_step, Activation, AgentGenome, AgentMutationConfig, Link, Node, NodeRef, WEIGHT_LIMIT,
    WEIGHT_ONE,
};
use maze_coevolution::mcc::agent::agent_queue::AgentQueue;
use maze_coevolution::mcc::agent::agent_species::AgentSpecies;
use maze_coevolution::mcc::agent::mcc_agent::MCCAgent;
use maze_coevolution::mcc::agent::speciated_agent_queue::SpeciatedAgentQueue;
use maze_coevolution::mcc::agent::ReplacementStrategy;
use maze_coevolution::mcc::population::QueueError;
use maze_coevolution::mcc::statistics::Ratio;

/// Two inputs and one output, and a link from each input to the output.
fn small_genome() -> AgentGenome {
    AgentGenome::new(
        vec![Node::new(NodeRef::Input(0)), Node::new(NodeRef::Input(1))],
        vec![],
        vec![Node { node_ref: NodeRef::Output(0), bias: WEIGHT_ONE / 2, activation: Activation::Tanh }],
        vec![
            Link::new(NodeRef::Input(0), NodeRef::Output(0), WEIGHT_ONE, 1),
            Link::new(NodeRef::Input(1), NodeRef::Output(0), -WEIGHT_ONE, 2),
        ],
    )
}

fn agent(links: usize, id: u32) -> MCCAgent {
    let mut genome = small_genome();
    genome.links.truncate(links);
    MCCAgent::new(genome, id)
}

fn never() -> AgentMutationConfig {
    let never = Fraction::from_bits(0);
    AgentMutationConfig {
        add_node_probability: never,
        add_connection_probability: never,
        disable_connection_probability: never,
        mutate_link_weight_probability: never,
        mutate_link_weight_size: WEIGHT_ONE as u64,
        initial_link_weight_size: WEIGHT_ONE as u64,
    }
}

fn always() -> AgentMutationConfig {
    let always = Fraction::from_bits(u32::MAX);
    AgentMutationConfig {
        add_node_probability: always,
        add_connection_probability: always,
        disable_connection_probability: always,
        mutate_link_weight_probability: always,
        ..never()
    }
}

fn sizes(agents: &[MCCAgent]) -> Vec<usize> {
    agents.iter().map(|agent| agent.genome.links.len()).collect()
}

#[test]
fn a_genome_knows_its_nodes() {
    let genome = small_genome();
    assert_eq!(genome.size(), 2);
    assert_eq!(genome.get_activation(&NodeRef::Input(1)), Activation::Sigmoid);
    assert_eq!(genome.get_activation(&NodeRef::Output(0)), Activation::Tanh);
    assert_eq!(genome.get_bias(&NodeRef::Output(0)), WEIGHT_ONE / 2);
    assert_eq!(genome.get_bias(&NodeRef::Input(0)), 0);
    assert!(genome.has_link(NodeRef::Input(0), NodeRef::Output(0)));
    assert!(!genome.has_link(NodeRef::Output(0), NodeRef::Input(0)));
    assert_eq!(Node::new(NodeRef::Hidden(3)).activation, Activation::Sigmoid);
    let link = Link::new(NodeRef::Input(0), NodeRef::Hidden(3), 5, 9);
    assert!(link.enabled && !link.split);
    assert_eq!((link.weight, link.innovation), (5, 9));
}

#[test]
fn splitting_a_link_puts_a_node_into_it() {
    let mut genome = small_genome();
    genome.split_link(1, 0);
    assert_eq!(genome.hidden_nodes, vec![Node::new(NodeRef::Hidden(0))]);
    assert_eq!(genome.links.len(), 4);
    assert!(!genome.links[1].enabled && genome.links[1].split);
    assert_eq!(genome.links[1].weight, -WEIGHT_ONE);
    assert_eq!(genome.links[2], Link::new(NodeRef::Input(1), NodeRef::Hidden(0), WEIGHT_ONE, 0));
    assert_eq!(genome.links[3], Link::new(NodeRef::Hidden(0), NodeRef::Output(0), -WEIGHT_ONE, 0));
    assert_eq!(genome.links[0], Link::new(NodeRef::Input(0), NodeRef::Output(0), WEIGHT_ONE, 1));
    // A node with that number is there already: the link is only marked.
    genome.split_link(0, 0);
    assert_eq!(genome.hidden_nodes.len(), 1);
    assert_eq!(genome.links.len(), 4);
    assert!(!genome.links[0].enabled && genome.links[0].split);
    assert_eq!(genome.splittable_links(), vec![2, 3]);
    assert_eq!(genome.enabled_links(), vec![2, 3]);
}

#[test]
fn a_link_that_closes_a_cycle_is_not_added() {
    let mut genome = small_genome();
    genome.split_link(0, 0);
    genome.split_link(3, 1);
    // Input(0) -> Hidden(0) -> Hidden(1) -> Output(0).
    assert!(genome.creates_cycle(NodeRef::Hidden(1), NodeRef::Hidden(0)));
    assert!(genome.creates_cycle(NodeRef::Output(0), NodeRef::Hidden(0)));
    assert!(genome.creates_cycle(NodeRef::Hidden(0), NodeRef::Hidden(0)));
    assert!(!genome.creates_cycle(NodeRef::Hidden(0), NodeRef::Output(0)));
    assert!(!genome.creates_cycle(NodeRef::Input(1), NodeRef::Hidden(0)));
    let links = genome.links.len();
    assert!(!genome.connect(NodeRef::Hidden(1), NodeRef::Hidden(0), 0, WEIGHT_ONE as u64));
    assert!(!genome.connect(NodeRef::Input(1), NodeRef::Output(0), 0, WEIGHT_ONE as u64));
    assert_eq!(genome.links.len(), links);
    assert!(genome.connect(NodeRef::Input(1), NodeRef::Hidden(1), 0, WEIGHT_ONE as u64));
    assert_eq!(genome.links.len(), links + 1);
    assert_eq!(
        genome.links[links],
        Link::new(NodeRef::Input(1), NodeRef::Hidden(1), -WEIGHT_ONE, 0)
    );
    // A disabled link closes no cycle.
    genome.disable_link(4);
    assert!(!genome.links[4].enabled);
    assert!(!genome.creates_cycle(NodeRef::Output(0), NodeRef::Hidden(0)));
}

#[test]
fn inserting_a_link_replaces_the_link_between_the_same_nodes() {
    let mut genome = small_genome();
    genome.insert_link(Link::new(NodeRef::Input(1), NodeRef::Output(0), 7, 5));
    assert_eq!(genome.links.len(), 2);
    assert_eq!(genome.links[1], Link::new(NodeRef::Input(1), NodeRef::Output(0), 7, 5));
    genome.hidden_nodes.push(Node::new(NodeRef::Hidden(0)));
    genome.insert_link(Link::new(NodeRef::Input(1), NodeRef::Hidden(0), 9, 6));
    assert_eq!(genome.links.len(), 3);
    assert_eq!(genome.links[2], Link::new(NodeRef::Input(1), NodeRef::Hidden(0), 9, 6));
}

#[test]
fn a_weight_moves_by_a_fraction_of_the_step_size() {
    let size = WEIGHT_ONE as u64;
    assert_eq!(weight_after_step(0, 1 << 31, size), 0);
    assert_eq!(weight_after_step(0, 0, size), -WEIGHT_ONE);
    assert_eq!(weight_after_step(0, 3 << 30, size), WEIGHT_ONE / 2);
    assert_eq!(weight_after_step(0, 1 << 30, size), -WEIGHT_ONE / 2);
    assert_eq!(weight_after_step(100, u32::MAX, size), 100 + WEIGHT_ONE - 2);
    assert_eq!(weight_after_step(5, 17, 0), 5);
    assert_eq!(weight_after_step(WEIGHT_LIMIT, u32::MAX, size), WEIGHT_LIMIT);
    assert_eq!(weight_after_step(-WEIGHT_LIMIT, 0, size), -WEIGHT_LIMIT);
    let mut genome = small_genome();
    genome.move_link_weight(0, 3 << 30, size);
    assert_eq!(genome.links[0].weight, WEIGHT_ONE + WEIGHT_ONE / 2);
    assert_eq!(genome.links[1].weight, -WEIGHT_ONE);
}

#[test]
fn an_agent_mutates_its_genome_only() {
    let mut agent = MCCAgent::new(small_genome(), 4);
    agent.completed_maze_id = Some(9);
    for _ in 0..30 {
        let (hidden, links) = (agent.genome.hidden_nodes.len(), agent.genome.links.len());
        agent.mutate(&always());
        assert_eq!((agent.id, agent.viable, agent.completed_maze_id), (4, true, Some(9)));
        assert_eq!(agent.genome.inputs.len(), 2);
        assert_eq!(agent.genome.outputs.len(), 1);
        assert!(agent.genome.hidden_nodes.len() >= hidden && agent.genome.hidden_nodes.len() <= hidden + 1);
        assert!(agent.genome.links.len() >= links && agent.genome.links.len() <= links + 3);
        for (k, link) in agent.genome.links.iter().enumerate() {
            assert!(link.weight.abs() <= WEIGHT_LIMIT);
            assert!(agent.genome.links[..k].iter().all(|other| (other.from, other.to) != (link.from, link.to)));
        }
    }
    let mut still = MCCAgent::new(small_genome(), 4);
    still.mutate(&never());
    assert_eq!(still.genome.links, small_genome().links);
    assert_eq!(still.genome.hidden_nodes, small_genome().hidden_nodes);
}

#[test]
fn the_agent_queue_evicts_the_oldest() {
    let mut queue = AgentQueue::new(vec![agent(2, 0)], 5).unwrap();
    for id in 1..=6 {
        queue.push(agent(1, id));
    }
    assert_eq!(queue.len(), 5);
    assert_eq!(queue.agents.iter().map(|agent| agent.id).collect::<Vec<_>>(), vec![2, 3, 4, 5, 6]);
    assert_eq!(AgentQueue::new(vec![agent(2, 0)], 0).err(), Some(QueueError::ZeroCapacity));
}

#[test]
fn agent_children_are_copies_with_new_ids() {
    let mut queue = AgentQueue::new(vec![agent(2, 0), agent(1, 1), agent(0, 2)], 4).unwrap();
    let children = queue.get_children(5, &never());
    assert_eq!(sizes(&children), vec![2, 1, 0, 2, 1]);
    assert_eq!(children.iter().map(|child| child.id).collect::<Vec<_>>(), vec![3, 4, 5, 6, 7]);
    assert!(children.iter().all(|child| !child.viable));
    assert_eq!(queue.len(), 3);
    assert_eq!(queue.total_individuals_added, 8);
    assert_eq!(queue.current_agent_index, 2);
}

#[test]
fn the_agent_queue_reports_its_sizes() {
    let queue = AgentQueue::new(vec![agent(1, 0), agent(2, 1), agent(0, 2), agent(2, 3)], 9).unwrap();
    assert_eq!(queue.sizes(), vec![1, 2, 0, 2]);
    assert_eq!(queue.get_largest_size(), 2);
    assert_eq!(queue.get_smallest_size(), 0);
    assert_eq!(queue.get_average_size(), Ratio { numerator: 5, denominator: 4 });
}

#[test]
fn an_agent_species_records_its_state() {
    let mut species = AgentSpecies::new(agent(2, 0), 3, 1).unwrap();
    assert_eq!(species.centroid().id, 0);
    species.save_state();
    species.push(agent(0, 1));
    species.save_state();
    assert_eq!(
        species.statistics.average_sizes,
        vec![Ratio { numerator: 2, denominator: 1 }, Ratio { numerator: 2, denominator: 2 }]
    );
    assert_eq!(species.statistics.maximum_sizes, vec![2, 2]);
    assert_eq!(species.statistics.minimum_sizes, vec![2, 0]);
    assert_eq!(sizes(&species.get_children(2, &never())), vec![2, 0]);
    assert_eq!(AgentSpecies::new(agent(2, 0), 0, 1).err(), Some(QueueError::ZeroCapacity));
}

#[test]
fn every_agent_species_gets_an_equal_share_of_the_capacity() {
    let founders = || vec![agent(2, 0), agent(1, 1), agent(0, 2)];
    let queue = SpeciatedAgentQueue::new(founders(), 11, 4).unwrap();
    let capacities: Vec<usize> = queue.species.iter().map(|s| s.agent_queue.max_items_limit).collect();
    assert_eq!(capacities, vec![3, 3, 3]);
    assert_eq!(queue.len(), 3);
    assert_eq!(SpeciatedAgentQueue::new(vec![], 11, 4).err(), Some(QueueError::NoFounder));
    assert_eq!(SpeciatedAgentQueue::new(founders(), 2, 4).err(), Some(QueueError::ZeroCapacity));
    assert_eq!(SpeciatedAgentQueue::new(founders(), 3, 0).err(), Some(QueueError::ZeroSelection));
}

#[test]
fn the_selection_is_dealt_out_to_the_agent_species() {
    let mut queue = SpeciatedAgentQueue::new(vec![agent(2, 0), agent(1, 1), agent(0, 2)], 12, 5).unwrap();
    let children = queue.get_children(&never());
    // Five children for three species: 2, 2 and 1.
    assert_eq!(sizes(&children), vec![2, 2, 1, 1, 0]);
    assert_eq!(children.iter().map(|child| child.id).collect::<Vec<_>>(), vec![1, 2, 1, 2, 1]);
    assert_eq!(queue.len(), 3);
}

#[test]
fn an_agent_joins_the_nearest_species() {
    let mut queue = SpeciatedAgentQueue::new(vec![agent(2, 0), agent(1, 1)], 4, 2).unwrap();
    queue.push(agent(0, 5), &vec![40, 7]);
    assert_eq!(sizes(&queue.species[1].agent_queue.agents), vec![1, 0]);
    assert_eq!(queue.species[0].len(), 1);
    queue.push(agent(0, 6), &vec![7, 7]);
    assert_eq!(queue.species[0].len(), 2);
    assert_eq!(queue.get_largest_size(), 2);
    assert_eq!(queue.get_smallest_size(), 0);
    assert_eq!(queue.get_average_size(), Ratio { numerator: 3, denominator: 4 });
    queue.save_state();
    assert_eq!(queue.species[1].statistics.maximum_sizes, vec![1]);
}

#[test]
fn there_are_three_replacement_strategies() {
    let strategies = [ReplacementStrategy::Gradual, ReplacementStrategy::Sudden, ReplacementStrategy::Disabled];
    for (i, first) in strategies.iter().enumerate() {
        for (j, second) in strategies.iter().enumerate() {
            assert_eq!(first == second, i == j);
        }
    }
}

#[test]
fn a_random_pick_disables_one_enabled_link() {
    let mut genome = small_genome();
    let only_disable = AgentMutationConfig {
        disable_connection_probability: Fraction::from_bits(u32::MAX),
        ..never()
    };
    for _ in 0..3 {
        if genome.links.iter().all(|link| link.enabled) {
            genome.mutate(&only_disable);
        }
    }
    assert_eq!(genome.links.len(), 2);
    assert_eq!(genome.links.iter().filter(|link| !link.enabled).count(), 1);
}

#[test]
fn a_random_pick_splits_the_only_link_that_can_be_split() {
    let mut genome = small_genome();
    genome.links[0].enabled = false;
    let only_split = AgentMutationConfig {
        add_node_probability: Fraction::from_bits(u32::MAX),
        ..never()
    };
    for _ in 0..3 {
        if genome.hidden_nodes.is_empty() {
            genome.mutate(&only_split);
        }
    }
    assert_eq!(genome.hidden_nodes.len(), 1);
    assert_eq!(genome.links.len(), 4);
    assert!(!genome.links[1].enabled && genome.links[1].split);
    assert!(genome.has_link(NodeRef::Input(1), NodeRef::Hidden(0)));
    assert!(genome.has_link(NodeRef::Hidden(0), NodeRef::Output(0)));
}

#[test]
fn the_agents_are_walked_from_the_oldest_to_the_newest() {
    let mut queue = AgentQueue::new(vec![agent(2, 0)], 2).unwrap();
    queue.push(agent(1, 1));
    queue.push(agent(0, 2));
    let walked: Vec<u32> = queue.iter().map(|agent| agent.id).collect();
    assert_eq!(walked, vec![1, 2]);
    let species = SpeciatedAgentQueue::new(vec![agent(2, 0), agent(1, 1)], 4, 2).unwrap();
    let places: Vec<u32> = species.iter_species().map(|species| species.id).collect();
    assert_eq!(places, vec![0, 1]);
}
