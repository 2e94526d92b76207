//! The controller of varied sizes: species that do well borrow capacity
//! from species that do badly.

use crate::mcc::agent::agent_species::AgentSpecies;
use crate::mcc::agent::agent_queue::AgentQueue;
use crate::mcc::agent::speciated_agent_queue::SpeciatedAgentQueue;
use crate::mcc::maze::maze_queue::MazeQueue;
use crate::mcc::maze::maze_species::MazeSpecies;
use crate::mcc::maze::speciated_maze_queue::SpeciatedMazeQueue;
use vstd::prelude::*;

verus! {

/// The controller of varied sizes.
#[derive(Debug)]
pub struct VariedSizeController {}

/// `ranking` names each of `count` species once, by its place in the
/// queue: from the species that does worst to the one that does best.
pub open spec fn is_ranking(ranking: Seq<usize>, count: nat) -> bool {
    &&& ranking.len() == count
    &&& forall|p: int| 0 <= p < count ==> #[trigger] ranking[p] < count
    &&& forall|p: int, q: int| 0 <= p < q < count ==> #[trigger] ranking[p] != #[trigger] ranking[q]
}

/// The capacity of the species at place `p` of the ranking after the
/// update. The worse half of the ranking is paired with the better half,
/// place by place; a species of the worse half that has more capacity
/// than `borrow` lends that much to its partner. With an odd number of
/// species the best one has no partner.
pub open spec fn capacity_after(capacities: Seq<usize>, ranking: Seq<usize>, borrow: int, p: int) -> int {
    let half = ranking.len() / 2;
    let own = capacities[ranking[p] as int];
    if p < half {
        if own > borrow {
            own - borrow
        } else {
            own as int
        }
    } else if p < 2 * half {
        if capacities[ranking[p - half] as int] > borrow {
            own + borrow
        } else {
            own as int
        }
    } else {
        own as int
    }
}

/// The capacities of the species of mazes, in order.
pub open spec fn maze_capacities(species: Seq<MazeSpecies>) -> Seq<usize> {
    Seq::new(species.len(), |k: int| species[k].maze_queue.max_items_limit)
}

/// The capacities of the species of agents, in order.
pub open spec fn agent_capacities(species: Seq<AgentSpecies>) -> Seq<usize> {
    Seq::new(species.len(), |k: int| species[k].agent_queue.max_items_limit)
}

/// `species` with another capacity.
pub open spec fn maze_species_with_capacity(species: MazeSpecies, capacity: usize) -> MazeSpecies {
    MazeSpecies { maze_queue: MazeQueue { max_items_limit: capacity, ..species.maze_queue }, ..species }
}

/// `species` with another capacity.
pub open spec fn agent_species_with_capacity(species: AgentSpecies, capacity: usize) -> AgentSpecies {
    AgentSpecies { agent_queue: AgentQueue { max_items_limit: capacity, ..species.agent_queue }, ..species }
}

impl VariedSizeController {
    /// A controller.
    pub fn new() -> (controller: VariedSizeController) {
        VariedSizeController {  }
    }

    /// Moves capacity between the species of agents: see
    /// [`capacity_after`]. Nothing but the capacities changes.
    pub fn update_agents(&mut self, agents: &mut SpeciatedAgentQueue, ranking: &Vec<usize>, borrow_amount: usize)
        requires
            old(agents).wf(),
            is_ranking(ranking@, old(agents).species@.len()),
            forall|k: int|
                0 <= k < old(agents).species@.len() ==> (#[trigger] old(agents).species@[k]).agent_queue.max_items_limit
                    + borrow_amount <= usize::MAX,
        ensures
            final(agents).wf(),
            final(agents).selection_limit == old(agents).selection_limit,
            final(agents).species_added == old(agents).species_added,
            final(agents).species@.len() == old(agents).species@.len(),
            forall|p: int|
                0 <= p < ranking@.len() ==> final(agents).species@[#[trigger] ranking@[p] as int]
                    == agent_species_with_capacity(
                    old(agents).species@[ranking@[p] as int],
                    capacity_after(agent_capacities(old(agents).species@), ranking@, borrow_amount as int, p) as usize,
                ),
    {
        let length = agents.species.len();
        let half = length / 2;
        let ghost before = agent_capacities(agents.species@);
        let mut p: usize = 0;
        while p < half
            invariant
                agents.wf(),
                agents.selection_limit == old(agents).selection_limit,
                agents.species_added == old(agents).species_added,
                agents.species@.len() == old(agents).species@.len(),
                length == agents.species@.len(),
                half == length / 2,
                p <= half,
                is_ranking(ranking@, length as nat),
                before == agent_capacities(old(agents).species@),
                forall|k: int| 0 <= k < length ==> #[trigger] before[k] + borrow_amount <= usize::MAX,
                forall|r: int|
                    0 <= r < length ==> agents.species@[#[trigger] ranking@[r] as int] == (if r < p || (half <= r
                        < half + p) {
                        agent_species_with_capacity(
                            old(agents).species@[ranking@[r] as int],
                            capacity_after(before, ranking@, borrow_amount as int, r) as usize,
                        )
                    } else {
                        old(agents).species@[ranking@[r] as int]
                    }),
            decreases half - p,
        {
            let worse = ranking[p];
            let better = ranking[half + p];
            let ghost earlier = agents.species@;
            assert(before[worse as int] == old(agents).species@[worse as int].agent_queue.max_items_limit);
            assert(before[better as int] == old(agents).species@[better as int].agent_queue.max_items_limit);
            if agents.species[worse].agent_queue.max_items_limit > borrow_amount {
                agents.species[better].agent_queue.max_items_limit += borrow_amount;
                agents.species[worse].agent_queue.max_items_limit -= borrow_amount;
            }
            proof {
                assert forall|k: int| 0 <= k < length && k != worse && k != better implies #[trigger] agents.species@[k]
                    == earlier[k] by {}
                assert forall|r: int| 0 <= r < length implies agents.species@[#[trigger] ranking@[r] as int] == (if r
                    < p + 1 || (half <= r < half + p + 1) {
                    agent_species_with_capacity(
                        old(agents).species@[ranking@[r] as int],
                        capacity_after(before, ranking@, borrow_amount as int, r) as usize,
                    )
                } else {
                    old(agents).species@[ranking@[r] as int]
                }) by {
                    if r != p && r != half + p {
                        assert(ranking@[r] != ranking@[p as int]);
                        assert(ranking@[r] != ranking@[half + p]);
                    }
                }
            }
            p += 1;
        }
        proof {
            assert forall|r: int| 0 <= r < length implies agents.species@[#[trigger] ranking@[r] as int]
                == agent_species_with_capacity(
                old(agents).species@[ranking@[r] as int],
                capacity_after(before, ranking@, borrow_amount as int, r) as usize,
            ) by {
                assert(before[ranking@[r] as int] == old(agents).species@[ranking@[r] as int].agent_queue.max_items_limit);
            }
        }
    }

    /// Moves capacity between the species of mazes: see
    /// [`capacity_after`]. Nothing but the capacities changes.
    pub fn update_mazes(&mut self, mazes: &mut SpeciatedMazeQueue, ranking: &Vec<usize>, borrow_amount: usize)
        requires
            old(mazes).wf(),
            is_ranking(ranking@, old(mazes).species@.len()),
            forall|k: int|
                0 <= k < old(mazes).species@.len() ==> (#[trigger] old(mazes).species@[k]).maze_queue.max_items_limit
                    + borrow_amount <= usize::MAX,
        ensures
            final(mazes).wf(),
            final(mazes).selection_limit == old(mazes).selection_limit,
            final(mazes).species_added == old(mazes).species_added,
            final(mazes).species@.len() == old(mazes).species@.len(),
            forall|p: int|
                0 <= p < ranking@.len() ==> final(mazes).species@[#[trigger] ranking@[p] as int]
                    == maze_species_with_capacity(
                    old(mazes).species@[ranking@[p] as int],
                    capacity_after(maze_capacities(old(mazes).species@), ranking@, borrow_amount as int, p) as usize,
                ),
    {
        let length = mazes.species.len();
        let half = length / 2;
        let ghost before = maze_capacities(mazes.species@);
        let mut p: usize = 0;
        while p < half
            invariant
                mazes.wf(),
                mazes.selection_limit == old(mazes).selection_limit,
                mazes.species_added == old(mazes).species_added,
                mazes.species@.len() == old(mazes).species@.len(),
                length == mazes.species@.len(),
                half == length / 2,
                p <= half,
                is_ranking(ranking@, length as nat),
                before == maze_capacities(old(mazes).species@),
                forall|k: int| 0 <= k < length ==> #[trigger] before[k] + borrow_amount <= usize::MAX,
                forall|r: int|
                    0 <= r < length ==> mazes.species@[#[trigger] ranking@[r] as int] == (if r < p || (half <= r
                        < half + p) {
                        maze_species_with_capacity(
                            old(mazes).species@[ranking@[r] as int],
                            capacity_after(before, ranking@, borrow_amount as int, r) as usize,
                        )
                    } else {
                        old(mazes).species@[ranking@[r] as int]
                    }),
            decreases half - p,
        {
            let worse = ranking[p];
            let better = ranking[half + p];
            let ghost earlier = mazes.species@;
            assert(before[worse as int] == old(mazes).species@[worse as int].maze_queue.max_items_limit);
            assert(before[better as int] == old(mazes).species@[better as int].maze_queue.max_items_limit);
            if mazes.species[worse].maze_queue.max_items_limit > borrow_amount {
                mazes.species[better].maze_queue.max_items_limit += borrow_amount;
                mazes.species[worse].maze_queue.max_items_limit -= borrow_amount;
            }
            proof {
                assert forall|k: int| 0 <= k < length && k != worse && k != better implies #[trigger] mazes.species@[k]
                    == earlier[k] by {}
                assert forall|r: int| 0 <= r < length implies mazes.species@[#[trigger] ranking@[r] as int] == (if r
                    < p + 1 || (half <= r < half + p + 1) {
                    maze_species_with_capacity(
                        old(mazes).species@[ranking@[r] as int],
                        capacity_after(before, ranking@, borrow_amount as int, r) as usize,
                    )
                } else {
                    old(mazes).species@[ranking@[r] as int]
                }) by {
                    if r != p && r != half + p {
                        assert(ranking@[r] != ranking@[p as int]);
                        assert(ranking@[r] != ranking@[half + p]);
                    }
                }
            }
            p += 1;
        }
        proof {
            assert forall|r: int| 0 <= r < length implies mazes.species@[#[trigger] ranking@[r] as int]
                == maze_species_with_capacity(
                old(mazes).species@[ranking@[r] as int],
                capacity_after(before, ranking@, borrow_amount as int, r) as usize,
            ) by {
                assert(before[ranking@[r] as int] == old(mazes).species@[ranking@[r] as int].maze_queue.max_items_limit);
            }
        }
    }

    /// Moves capacity between the species of both populations.
    pub fn update_population_properties(
        &mut self,
        agents: &mut SpeciatedAgentQueue,
        mazes: &mut SpeciatedMazeQueue,
        agent_ranking: &Vec<usize>,
        maze_ranking: &Vec<usize>,
        agent_borrow_amount: usize,
        maze_borrow_amount: usize,
    )
        requires
            old(agents).wf(),
            old(mazes).wf(),
            is_ranking(agent_ranking@, old(agents).species@.len()),
            is_ranking(maze_ranking@, old(mazes).species@.len()),
            forall|k: int|
                0 <= k < old(agents).species@.len() ==> (#[trigger] old(agents).species@[k]).agent_queue.max_items_limit
                    + agent_borrow_amount <= usize::MAX,
            forall|k: int|
                0 <= k < old(mazes).species@.len() ==> (#[trigger] old(mazes).species@[k]).maze_queue.max_items_limit
                    + maze_borrow_amount <= usize::MAX,
        ensures
            final(agents).wf(),
            final(mazes).wf(),
            final(agents).selection_limit == old(agents).selection_limit,
            final(mazes).selection_limit == old(mazes).selection_limit,
            final(agents).species_added == old(agents).species_added,
            final(mazes).species_added == old(mazes).species_added,
            final(agents).species@.len() == old(agents).species@.len(),
            final(mazes).species@.len() == old(mazes).species@.len(),
            forall|p: int|
                0 <= p < agent_ranking@.len() ==> final(agents).species@[#[trigger] agent_ranking@[p] as int]
                    == agent_species_with_capacity(
                    old(agents).species@[agent_ranking@[p] as int],
                    capacity_after(
                        agent_capacities(old(agents).species@),
                        agent_ranking@,
                        agent_borrow_amount as int,
                        p,
                    ) as usize,
                ),
            forall|p: int|
                0 <= p < maze_ranking@.len() ==> final(mazes).species@[#[trigger] maze_ranking@[p] as int]
                    == maze_species_with_capacity(
                    old(mazes).species@[maze_ranking@[p] as int],
                    capacity_after(
                        maze_capacities(old(mazes).species@),
                        maze_ranking@,
                        maze_borrow_amount as int,
                        p,
                    ) as usize,
                ),
    {
        self.update_agents(agents, agent_ranking, agent_borrow_amount);
        self.update_mazes(mazes, maze_ranking, maze_borrow_amount);
    }
}

} // verus!
