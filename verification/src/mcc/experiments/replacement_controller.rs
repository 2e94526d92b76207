//! The controller of replacement: a species that has come to nothing
//! gives its place to a new species with a new founder.

use crate::maze::maze_genotype::{generate_random_maze, MazeGenome};
use crate::mcc::agent::agent_species::AgentSpecies;
use crate::mcc::agent::mcc_agent::MCCAgent;
use crate::mcc::agent::speciated_agent_queue::SpeciatedAgentQueue;
use crate::mcc::maze::maze_species::MazeSpecies;
use crate::mcc::maze::speciated_maze_queue::SpeciatedMazeQueue;
use vstd::prelude::*;

verus! {

/// The controller of replacement.
#[derive(Debug)]
pub struct ReplacementController {}

/// `places` holds, in order, the places of the species of mazes that
/// have a single member: only the founder, or only the latest newcomer.
pub open spec fn are_lone_mazes(species: Seq<MazeSpecies>, places: Seq<usize>) -> bool {
    &&& forall|n: int|
        0 <= n < places.len() ==> (#[trigger] places[n]) < species.len() && species[places[n] as int].maze_queue.mazes@.len()
            == 1
    &&& forall|m: int, n: int| 0 <= m < n < places.len() ==> (#[trigger] places[m]) < (#[trigger] places[n])
    &&& forall|k: int|
        0 <= k < species.len() && (#[trigger] species[k]).maze_queue.mazes@.len() == 1 ==> places.contains(
            k as usize,
        )
}

/// `places` holds, in order, the places of the species of agents that
/// have a single member.
pub open spec fn are_lone_agents(species: Seq<AgentSpecies>, places: Seq<usize>) -> bool {
    &&& forall|n: int|
        0 <= n < places.len() ==> (#[trigger] places[n]) < species.len() && species[places[n] as int].agent_queue.agents@.len()
            == 1
    &&& forall|m: int, n: int| 0 <= m < n < places.len() ==> (#[trigger] places[m]) < (#[trigger] places[n])
    &&& forall|k: int|
        0 <= k < species.len() && (#[trigger] species[k]).agent_queue.agents@.len() == 1 ==> places.contains(
            k as usize,
        )
}

/// `newcomer` is a new species of mazes founded by a maze like `founder`,
/// with the id `id` and room for `capacity` mazes.
pub open spec fn is_new_maze_species(newcomer: MazeSpecies, founder: MazeGenome, id: u32, capacity: usize) -> bool {
    &&& newcomer.wf()
    &&& newcomer.id == id
    &&& newcomer.centroid@ == founder@
    &&& newcomer.maze_queue.population() == seq![founder@]
    &&& newcomer.maze_queue.max_items_limit == capacity
    &&& newcomer.maze_queue.current_maze_index == 0
    &&& newcomer.maze_queue.total_individuals_added == 1
    &&& newcomer.statistics.entries() == 0
}

/// `newcomer` is a new species of agents founded by an agent like
/// `founder`, with the id `id` and room for `capacity` agents.
pub open spec fn is_new_agent_species(newcomer: AgentSpecies, founder: MCCAgent, id: u32, capacity: usize) -> bool {
    &&& newcomer.wf()
    &&& newcomer.id == id
    &&& newcomer.centroid@ == founder@
    &&& newcomer.agent_queue.population() == seq![founder@]
    &&& newcomer.agent_queue.max_items_limit == capacity
    &&& newcomer.agent_queue.current_agent_index == 0
    &&& newcomer.agent_queue.total_individuals_added == 1
    &&& newcomer.statistics.entries() == 0
}

impl ReplacementController {
    /// A controller.
    pub fn new() -> (controller: ReplacementController) {
        ReplacementController {  }
    }

    /// The places of the species of mazes that have a single member.
    pub fn lone_maze_species(&self, mazes: &SpeciatedMazeQueue) -> (places: Vec<usize>)
        ensures
            are_lone_mazes(mazes.species@, places@),
    {
        let mut places: Vec<usize> = Vec::new();
        let mut k: usize = 0;
        while k < mazes.species.len()
            invariant
                k <= mazes.species@.len(),
                forall|n: int|
                    0 <= n < places@.len() ==> (#[trigger] places@[n]) < k && mazes.species@[places@[n] as int].maze_queue.mazes@.len()
                        == 1,
                forall|m: int, n: int| 0 <= m < n < places@.len() ==> (#[trigger] places@[m]) < (#[trigger] places@[n]),
                forall|i: int|
                    0 <= i < k && (#[trigger] mazes.species@[i]).maze_queue.mazes@.len() == 1 ==> places@.contains(
                        i as usize,
                    ),
            decreases mazes.species@.len() - k,
        {
            if mazes.species[k].len() == 1 {
                let ghost before = places@;
                places.push(k);
                proof {
                    assert(places@[before.len() as int] == k);
                    assert forall|i: int|
                        0 <= i < k + 1 && (#[trigger] mazes.species@[i]).maze_queue.mazes@.len() == 1 implies places@.contains(
                        i as usize,
                    ) by {
                        if i < k {
                            let at = choose|at: int| 0 <= at < before.len() && before[at] == i as usize;
                            assert(places@[at] == i as usize);
                        }
                    }
                }
            }
            k += 1;
        }
        places
    }

    /// The places of the species of agents that have a single member.
    pub fn lone_agent_species(&self, agents: &SpeciatedAgentQueue) -> (places: Vec<usize>)
        ensures
            are_lone_agents(agents.species@, places@),
    {
        let mut places: Vec<usize> = Vec::new();
        let mut k: usize = 0;
        while k < agents.species.len()
            invariant
                k <= agents.species@.len(),
                forall|n: int|
                    0 <= n < places@.len() ==> (#[trigger] places@[n]) < k && agents.species@[places@[n] as int].agent_queue.agents@.len()
                        == 1,
                forall|m: int, n: int| 0 <= m < n < places@.len() ==> (#[trigger] places@[m]) < (#[trigger] places@[n]),
                forall|i: int|
                    0 <= i < k && (#[trigger] agents.species@[i]).agent_queue.agents@.len() == 1 ==> places@.contains(
                        i as usize,
                    ),
            decreases agents.species@.len() - k,
        {
            if agents.species[k].len() == 1 {
                let ghost before = places@;
                places.push(k);
                proof {
                    assert(places@[before.len() as int] == k);
                    assert forall|i: int|
                        0 <= i < k + 1 && (#[trigger] agents.species@[i]).agent_queue.agents@.len() == 1 implies places@.contains(
                        i as usize,
                    ) by {
                        if i < k {
                            let at = choose|at: int| 0 <= at < before.len() && before[at] == i as usize;
                            assert(places@[at] == i as usize);
                        }
                    }
                }
            }
            k += 1;
        }
        places
    }

    /// Replaces the species of mazes at `place`: it leaves, and a new
    /// species founded by `founder` joins behind the others, with the
    /// capacity of the one that left and the next id.
    pub fn replace_maze_species(&self, mazes: &mut SpeciatedMazeQueue, place: usize, founder: MazeGenome)
        requires
            old(mazes).wf(),
            place < old(mazes).species@.len(),
            founder@.wf(),
            old(mazes).species_added < u32::MAX,
        ensures
            final(mazes).wf(),
            final(mazes).selection_limit == old(mazes).selection_limit,
            final(mazes).species_added == old(mazes).species_added + 1,
            final(mazes).species@.len() == old(mazes).species@.len(),
            final(mazes).species@.drop_last() == old(mazes).species@.remove(place as int),
            is_new_maze_species(
                final(mazes).species@.last(),
                founder,
                old(mazes).species_added,
                old(mazes).species@[place as int].maze_queue.max_items_limit,
            ),
    {
        let capacity = mazes.species[place].maze_queue.max_items_limit;
        let _ = mazes.species.remove(place);
        let ghost kept = mazes.species@;
        match MazeSpecies::new(founder, capacity, mazes.species_added) {
            Ok(species) => {
                mazes.species.push(species);
            },
            Err(_) => {},
        }
        mazes.species_added += 1;
        assert(mazes.species@.drop_last() =~= kept);
    }

    /// Replaces the species of agents at `place`: it leaves, and a new
    /// species founded by `founder` joins behind the others, with the
    /// capacity of the one that left and the next id.
    pub fn replace_agent_species(&self, agents: &mut SpeciatedAgentQueue, place: usize, founder: MCCAgent)
        requires
            old(agents).wf(),
            place < old(agents).species@.len(),
            founder.genome@.wf(),
            old(agents).species_added < u32::MAX,
        ensures
            final(agents).wf(),
            final(agents).selection_limit == old(agents).selection_limit,
            final(agents).species_added == old(agents).species_added + 1,
            final(agents).species@.len() == old(agents).species@.len(),
            final(agents).species@.drop_last() == old(agents).species@.remove(place as int),
            is_new_agent_species(
                final(agents).species@.last(),
                founder,
                old(agents).species_added,
                old(agents).species@[place as int].agent_queue.max_items_limit,
            ),
    {
        let capacity = agents.species[place].agent_queue.max_items_limit;
        let _ = agents.species.remove(place);
        let ghost kept = agents.species@;
        match AgentSpecies::new(founder, capacity, agents.species_added) {
            Ok(species) => {
                agents.species.push(species);
            },
            Err(_) => {},
        }
        agents.species_added += 1;
        assert(agents.species@.drop_last() =~= kept);
    }

    /// Replaces the species of mazes at `worst` by a species founded by
    /// a maze drawn at random, `default_maze_size` cells wide and high.
    pub fn replace_worst_maze_species(&self, mazes: &mut SpeciatedMazeQueue, worst: usize, default_maze_size: u32)
        requires
            old(mazes).wf(),
            worst < old(mazes).species@.len(),
            default_maze_size >= 2,
            old(mazes).species_added < u32::MAX,
        ensures
            final(mazes).wf(),
            final(mazes).selection_limit == old(mazes).selection_limit,
            final(mazes).species_added == old(mazes).species_added + 1,
            final(mazes).species@.len() == old(mazes).species@.len(),
            final(mazes).species@.drop_last() == old(mazes).species@.remove(worst as int),
            exists|founder: MazeGenome|
                founder.width == default_maze_size && founder.height == default_maze_size && founder.id == old(mazes).species_added && #[trigger] is_new_maze_species(
                    final(mazes).species@.last(),
                    founder,
                    old(mazes).species_added,
                    old(mazes).species@[worst as int].maze_queue.max_items_limit,
                ),
    {
        let founder = generate_random_maze(default_maze_size, default_maze_size, mazes.species_added);
        let ghost drawn = founder;
        self.replace_maze_species(mazes, worst, founder);
        assert(is_new_maze_species(
            mazes.species@.last(),
            drawn,
            old(mazes).species_added,
            old(mazes).species@[worst as int].maze_queue.max_items_limit,
        ));
    }
}

} // verus!
