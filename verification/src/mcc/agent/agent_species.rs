//! A species of agents: a queue of its own, gathered around the agent
//! that founded it.

use crate::mcc::agent::agent_genome::AgentMutationConfig;
use crate::mcc::agent::agent_queue::{
    agent_child, agent_sizes, agent_sizes_are_countable, is_agent_mutation, AgentQueue,
};
use crate::mcc::agent::mcc_agent::MCCAgent;
use crate::mcc::population::{after_push, cursor_after, nth_parent, QueueError};
use crate::mcc::statistics::{largest_of, smallest_of, sum_of, Ratio};
use vstd::prelude::*;

verus! {

/// What a species of agents has recorded about itself, one entry per
/// saved state.
#[derive(Debug)]
pub struct AgentSpeciesStatistics {
    pub average_sizes: Vec<Ratio>,
    pub maximum_sizes: Vec<u32>,
    pub minimum_sizes: Vec<u32>,
}

impl AgentSpeciesStatistics {
    /// The statistics without any entry.
    pub fn new() -> (statistics: AgentSpeciesStatistics)
        ensures
            statistics.entries() == 0,
            statistics.is_aligned(),
    {
        AgentSpeciesStatistics {
            average_sizes: Vec::new(),
            maximum_sizes: Vec::new(),
            minimum_sizes: Vec::new(),
        }
    }

    /// The number of saved states.
    pub open spec fn entries(&self) -> nat {
        self.average_sizes@.len()
    }

    /// Every record has one entry per saved state.
    pub open spec fn is_aligned(&self) -> bool {
        &&& self.maximum_sizes@.len() == self.entries()
        &&& self.minimum_sizes@.len() == self.entries()
    }
}

/// A species of agents.
#[derive(Debug)]
pub struct AgentSpecies {
    /// The founder, to which the distance of a newcomer is measured; it
    /// never changes.
    pub centroid: MCCAgent,
    pub agent_queue: AgentQueue,
    pub id: u32,
    pub statistics: AgentSpeciesStatistics,
}

impl AgentSpecies {
    /// The queue is well formed and not empty, and so are the records.
    pub open spec fn wf(&self) -> bool {
        &&& self.agent_queue.wf()
        &&& self.agent_queue.agents@.len() >= 1
        &&& self.centroid.genome@.wf()
        &&& self.statistics.is_aligned()
    }

    /// The species founded by `agent`, with room for `max_items_limit`
    /// agents. A capacity of zero is refused.
    pub fn new(agent: MCCAgent, max_items_limit: usize, id: u32) -> (species: Result<AgentSpecies, QueueError>)
        requires
            agent.genome@.wf(),
        ensures
            max_items_limit == 0 <==> species == Err::<AgentSpecies, QueueError>(QueueError::ZeroCapacity),
            max_items_limit > 0 ==> species is Ok && species->Ok_0.wf() && species->Ok_0.id == id
                && species->Ok_0.centroid@ == agent@ && species->Ok_0.agent_queue.population() == seq![agent@]
                && species->Ok_0.agent_queue.max_items_limit == max_items_limit
                && species->Ok_0.agent_queue.current_agent_index == 0
                && species->Ok_0.agent_queue.total_individuals_added == 1
                && species->Ok_0.statistics.entries() == 0,
    {
        let mut founders: Vec<MCCAgent> = Vec::new();
        founders.push(agent.clone());
        match AgentQueue::new(founders, max_items_limit) {
            Err(error) => Err(error),
            Ok(agent_queue) => {
                let species = AgentSpecies {
                    centroid: agent,
                    agent_queue,
                    id,
                    statistics: AgentSpeciesStatistics::new(),
                };
                assert(species.agent_queue.population() =~= seq![agent@]);
                Ok(species)
            },
        }
    }

    /// The number of agents in the species.
    pub fn len(&self) -> (length: usize)
        ensures
            length == self.agent_queue.agents@.len(),
    {
        self.agent_queue.len()
    }

    /// The founder of the species.
    pub fn centroid(&self) -> (agent: &MCCAgent)
        ensures
            *agent == self.centroid,
    {
        &self.centroid
    }

    /// Admits `agent` to the species; see [`AgentQueue::push`].
    pub fn push(&mut self, agent: MCCAgent)
        requires
            old(self).wf(),
            agent.genome@.wf(),
        ensures
            final(self).wf(),
            final(self).agent_queue.population() == after_push(
                old(self).agent_queue.population(),
                old(self).agent_queue.max_items_limit as int,
                agent@,
            ),
            final(self).agent_queue.max_items_limit == old(self).agent_queue.max_items_limit,
            final(self).agent_queue.total_individuals_added == old(self).agent_queue.total_individuals_added,
            final(self).centroid == old(self).centroid,
            final(self).id == old(self).id,
            final(self).statistics == old(self).statistics,
    {
        self.agent_queue.push(agent);
    }

    /// The next `amount` children of the species; see
    /// [`AgentQueue::get_children`].
    pub fn get_children(&mut self, amount: usize, config: &AgentMutationConfig) -> (children: Vec<MCCAgent>)
        requires
            config.is_sound(),
            old(self).wf(),
            old(self).agent_queue.total_individuals_added + amount <= u32::MAX,
        ensures
            final(self).wf(),
            final(self).agent_queue.agents@ == old(self).agent_queue.agents@,
            final(self).agent_queue.max_items_limit == old(self).agent_queue.max_items_limit,
            final(self).agent_queue.total_individuals_added == old(self).agent_queue.total_individuals_added
                + amount,
            final(self).agent_queue.current_agent_index == cursor_after(
                old(self).agent_queue.current_agent_index as int,
                old(self).agent_queue.agents@.len() as int,
                old(self).agent_queue.max_items_limit as int,
                amount as nat,
            ),
            final(self).centroid == old(self).centroid,
            final(self).id == old(self).id,
            final(self).statistics == old(self).statistics,
            children@.len() == amount,
            forall|i: int|
                0 <= i < amount ==> is_agent_mutation(
                    agent_child(
                        old(self).agent_queue.agents@[nth_parent(
                            old(self).agent_queue.current_agent_index as int,
                            old(self).agent_queue.agents@.len() as int,
                            old(self).agent_queue.max_items_limit as int,
                            i as nat,
                        )]@,
                        (old(self).agent_queue.total_individuals_added + i) as u32,
                    ),
                    (#[trigger] children@[i])@,
                ),
    {
        self.agent_queue.get_children(amount, config)
    }

    /// Records the present aggregates of the species: the average, the
    /// largest and the smallest size.
    pub fn save_state(&mut self)
        requires
            old(self).wf(),
            old(self).agent_queue.agents@.len() <= u32::MAX,
            agent_sizes_are_countable(old(self).agent_queue.agents@),
        ensures
            final(self).wf(),
            final(self).agent_queue == old(self).agent_queue,
            final(self).centroid == old(self).centroid,
            final(self).id == old(self).id,
            final(self).statistics.entries() == old(self).statistics.entries() + 1,
            final(self).statistics.average_sizes@.drop_last() == old(self).statistics.average_sizes@,
            final(self).statistics.maximum_sizes@.drop_last() == old(self).statistics.maximum_sizes@,
            final(self).statistics.minimum_sizes@.drop_last() == old(self).statistics.minimum_sizes@,
            final(self).statistics.average_sizes@.last().numerator == sum_of(
                agent_sizes(old(self).agent_queue.agents@),
                old(self).agent_queue.agents@.len(),
            ),
            final(self).statistics.average_sizes@.last().denominator == old(self).agent_queue.agents@.len(),
            final(self).statistics.maximum_sizes@.last() == largest_of(agent_sizes(old(self).agent_queue.agents@)),
            final(self).statistics.minimum_sizes@.last() == smallest_of(agent_sizes(old(self).agent_queue.agents@)),
    {
        let average_size = self.agent_queue.get_average_size();
        let largest_size = self.agent_queue.get_largest_size();
        let smallest_size = self.agent_queue.get_smallest_size();
        self.statistics.average_sizes.push(average_size);
        self.statistics.maximum_sizes.push(largest_size);
        self.statistics.minimum_sizes.push(smallest_size);
        proof {
            assert(self.statistics.average_sizes@.drop_last() =~= old(self).statistics.average_sizes@);
            assert(self.statistics.maximum_sizes@.drop_last() =~= old(self).statistics.maximum_sizes@);
            assert(self.statistics.minimum_sizes@.drop_last() =~= old(self).statistics.minimum_sizes@);
        }
    }
}

} // verus!
