//! The bounded queue of agents.

use crate::mcc::agent::agent_genome::{AgentGenome, AgentMutationConfig};
use crate::mcc::agent::mcc_agent::{MCCAgent, MCCAgentModel};
use crate::mcc::population::{
    after_push, cursor_after, cursor_after_eviction, excess, nth_parent, QueueError,
};
use crate::mcc::statistics::{
    average, first_smallest_index, largest_of, last_largest_index, smallest_of, sum_of, Ratio,
};
use vstd::prelude::*;
use vstd::std_specs::slice::into_iter_elts;

verus! {

/// The mathematical values of `agents`.
pub open spec fn agent_models(agents: Seq<MCCAgent>) -> Seq<MCCAgentModel> {
    Seq::new(agents.len(), |i: int| agents[i]@)
}

/// The child that a parent gives before it mutates: a copy with the id
/// `id`, marked not viable.
pub open spec fn agent_child(parent: MCCAgentModel, id: u32) -> MCCAgentModel {
    MCCAgentModel { id, viable: false, ..parent }
}

/// `after` can come from `before` by one mutation of its genome; the id
/// and the marks are the same.
pub open spec fn is_agent_mutation(before: MCCAgentModel, after: MCCAgentModel) -> bool {
    &&& AgentGenome::is_mutation(before.genome, after.genome)
    &&& after.id == before.id
    &&& after.viable == before.viable
    &&& after.completed_maze_id == before.completed_maze_id
}

/// The sizes of `agents`, in order: the number of links of each genome.
pub open spec fn agent_sizes(agents: Seq<MCCAgent>) -> Seq<u32> {
    Seq::new(agents.len(), |i: int| agents[i].genome.links@.len() as u32)
}

/// No agent of `agents` has more links than a 32-bit count can report.
pub open spec fn agent_sizes_are_countable(agents: Seq<MCCAgent>) -> bool {
    forall|i: int| 0 <= i < agents.len() ==> (#[trigger] agents[i]).genome.links@.len() <= u32::MAX
}

/// A queue of at most `max_items_limit` agents, oldest first.
#[derive(Debug)]
pub struct AgentQueue {
    pub agents: Vec<MCCAgent>,
    /// The cursor: where the next parent is picked.
    pub current_agent_index: usize,
    /// The capacity.
    pub max_items_limit: usize,
    /// The next unused id.
    pub total_individuals_added: u32,
}

impl AgentQueue {
    /// The capacity is positive and every genome is well formed.
    pub open spec fn wf(&self) -> bool {
        &&& self.max_items_limit >= 1
        &&& forall|i: int| 0 <= i < self.agents@.len() ==> (#[trigger] self.agents@[i]).genome@.wf()
    }

    /// The agents of the queue as mathematical values, oldest first.
    pub open spec fn population(&self) -> Seq<MCCAgentModel> {
        agent_models(self.agents@)
    }

    /// A queue of the given founders; the ids of its children start at
    /// the number of founders. A capacity of zero is refused.
    pub fn new(agents: Vec<MCCAgent>, max_items_limit: usize) -> (queue: Result<AgentQueue, QueueError>)
        requires
            agents@.len() <= u32::MAX,
            forall|i: int| 0 <= i < agents@.len() ==> (#[trigger] agents@[i]).genome@.wf(),
        ensures
            max_items_limit == 0 <==> queue == Err::<AgentQueue, QueueError>(QueueError::ZeroCapacity),
            max_items_limit > 0 ==> queue is Ok && queue->Ok_0.wf() && queue->Ok_0.agents@ == agents@
                && queue->Ok_0.current_agent_index == 0 && queue->Ok_0.max_items_limit == max_items_limit
                && queue->Ok_0.total_individuals_added == agents@.len(),
    {
        if max_items_limit == 0 {
            return Err(QueueError::ZeroCapacity);
        }
        let total_individuals_added = agents.len() as u32;
        Ok(AgentQueue { agents, current_agent_index: 0, max_items_limit, total_individuals_added })
    }

    /// An iterator over the agents, from the oldest to the newest.
    pub fn iter(&self) -> (iter: core::slice::Iter<'_, MCCAgent>)
        ensures
            into_iter_elts(iter) == self.agents@,
    {
        let items = self.agents.as_slice();
        let iter = items.iter();
        proof {
            assert(into_iter_elts(iter) =~= self.agents@);
        }
        iter
    }

    /// The number of agents in the queue.
    pub fn len(&self) -> (length: usize)
        ensures
            length == self.agents@.len(),
    {
        self.agents.len()
    }

    /// The agent at `index`, counted from the oldest.
    pub fn get(&self, index: usize) -> (agent: &MCCAgent)
        requires
            index < self.agents@.len(),
        ensures
            *agent == self.agents@[index as int],
    {
        &self.agents[index]
    }

    /// The sizes of the agents, oldest first.
    pub fn sizes(&self) -> (sizes: Vec<u32>)
        requires
            agent_sizes_are_countable(self.agents@),
        ensures
            sizes@ == agent_sizes(self.agents@),
    {
        let mut sizes: Vec<u32> = Vec::new();
        let mut i: usize = 0;
        while i < self.agents.len()
            invariant
                agent_sizes_are_countable(self.agents@),
                i <= self.agents@.len(),
                sizes@.len() == i,
                forall|k: int| 0 <= k < i ==> #[trigger] sizes@[k] == agent_sizes(self.agents@)[k],
            decreases self.agents@.len() - i,
        {
            sizes.push(self.agents[i].genome.size() as u32);
            i += 1;
        }
        assert(sizes@ =~= agent_sizes(self.agents@));
        sizes
    }

    /// The size of the largest agent.
    pub fn get_largest_size(&self) -> (size: u32)
        requires
            self.agents@.len() >= 1,
            agent_sizes_are_countable(self.agents@),
        ensures
            size == largest_of(agent_sizes(self.agents@)),
    {
        let sizes = self.sizes();
        let index = last_largest_index(&sizes);
        sizes[index]
    }

    /// The size of the smallest agent.
    pub fn get_smallest_size(&self) -> (size: u32)
        requires
            self.agents@.len() >= 1,
            agent_sizes_are_countable(self.agents@),
        ensures
            size == smallest_of(agent_sizes(self.agents@)),
    {
        let sizes = self.sizes();
        let index = first_smallest_index(&sizes);
        sizes[index]
    }

    /// The average size, as the ratio of the sum of the sizes to the
    /// number of agents.
    pub fn get_average_size(&self) -> (ratio: Ratio)
        requires
            1 <= self.agents@.len() <= u32::MAX,
            agent_sizes_are_countable(self.agents@),
        ensures
            ratio.numerator == sum_of(agent_sizes(self.agents@), self.agents@.len()),
            ratio.denominator == self.agents@.len(),
    {
        let sizes = self.sizes();
        average(&sizes)
    }

    /// Admits `agent` behind the others; the oldest agents leave if the
    /// queue is then over its capacity, and the cursor moves with the
    /// agent that it pointed to.
    pub fn push(&mut self, agent: MCCAgent)
        requires
            old(self).wf(),
            agent.genome@.wf(),
        ensures
            final(self).wf(),
            final(self).population() == after_push(
                old(self).population(),
                old(self).max_items_limit as int,
                agent@,
            ),
            final(self).current_agent_index == cursor_after_eviction(
                old(self).current_agent_index as int,
                excess(old(self).agents@.len() + 1, old(self).max_items_limit as int),
            ),
            final(self).agents@.len() == old(self).agents@.len() + 1 - excess(
                old(self).agents@.len() + 1,
                old(self).max_items_limit as int,
            ),
            final(self).max_items_limit == old(self).max_items_limit,
            final(self).total_individuals_added == old(self).total_individuals_added,
    {
        let ghost pushed = self.agents@.push(agent);
        self.agents.push(agent);
        if self.agents.len() >= self.max_items_limit {
            let amount = self.agents.len() - self.max_items_limit;
            self.remove_oldest(amount);
        }
        proof {
            let gone = excess(old(self).agents@.len() + 1, old(self).max_items_limit as int);
            assert(self.agents@ == pushed.skip(gone));
            assert(self.population() =~= after_push(
                old(self).population(),
                old(self).max_items_limit as int,
                agent@,
            ));
        }
    }

    /// Lets the `amount` oldest agents leave.
    fn remove_oldest(&mut self, amount: usize)
        requires
            amount <= old(self).agents@.len(),
        ensures
            final(self).agents@ == old(self).agents@.skip(amount as int),
            final(self).current_agent_index == cursor_after_eviction(
                old(self).current_agent_index as int,
                amount as int,
            ),
            final(self).max_items_limit == old(self).max_items_limit,
            final(self).total_individuals_added == old(self).total_individuals_added,
    {
        let mut removed: usize = 0;
        while removed < amount
            invariant
                removed <= amount <= old(self).agents@.len(),
                self.agents@ == old(self).agents@.skip(removed as int),
                self.current_agent_index == old(self).current_agent_index,
                self.max_items_limit == old(self).max_items_limit,
                self.total_individuals_added == old(self).total_individuals_added,
            decreases amount - removed,
        {
            let _ = self.agents.remove(0);
            removed += 1;
            assert(self.agents@ =~= old(self).agents@.skip(removed as int));
        }
        if amount > self.current_agent_index {
            self.current_agent_index = 0;
        } else {
            self.current_agent_index -= amount;
        }
    }

    /// The next `amount` children before they mutate: copies of the
    /// parents that the cursor picks one after the other, each with the
    /// next unused id and marked not viable. The population stays as it
    /// is; the cursor and the id counter move on.
    pub fn next_parents(&mut self, amount: usize) -> (children: Vec<MCCAgent>)
        requires
            old(self).wf(),
            old(self).agents@.len() >= 1,
            old(self).total_individuals_added + amount <= u32::MAX,
        ensures
            final(self).wf(),
            final(self).agents@ == old(self).agents@,
            final(self).max_items_limit == old(self).max_items_limit,
            final(self).total_individuals_added == old(self).total_individuals_added + amount,
            final(self).current_agent_index == cursor_after(
                old(self).current_agent_index as int,
                old(self).agents@.len() as int,
                old(self).max_items_limit as int,
                amount as nat,
            ),
            children@.len() == amount,
            forall|i: int|
                0 <= i < amount ==> (#[trigger] children@[i])@ == agent_child(
                    old(self).agents@[nth_parent(
                        old(self).current_agent_index as int,
                        old(self).agents@.len() as int,
                        old(self).max_items_limit as int,
                        i as nat,
                    )]@,
                    (old(self).total_individuals_added + i) as u32,
                ),
    {
        let mut children: Vec<MCCAgent> = Vec::new();
        let mut picked: usize = 0;
        while picked < amount
            invariant
                self.wf(),
                self.agents@ == old(self).agents@,
                self.agents@.len() >= 1,
                self.max_items_limit == old(self).max_items_limit,
                picked <= amount,
                old(self).total_individuals_added + amount <= u32::MAX,
                self.total_individuals_added == old(self).total_individuals_added + picked,
                self.current_agent_index == cursor_after(
                    old(self).current_agent_index as int,
                    old(self).agents@.len() as int,
                    old(self).max_items_limit as int,
                    picked as nat,
                ),
                children@.len() == picked,
                forall|i: int|
                    0 <= i < picked ==> (#[trigger] children@[i])@ == agent_child(
                        old(self).agents@[nth_parent(
                            old(self).current_agent_index as int,
                            old(self).agents@.len() as int,
                            old(self).max_items_limit as int,
                            i as nat,
                        )]@,
                        (old(self).total_individuals_added + i) as u32,
                    ),
            decreases amount - picked,
        {
            if self.current_agent_index >= self.agents.len() {
                self.current_agent_index = 0;
            }
            let mut child = self.agents[self.current_agent_index].clone();
            child.viable = false;
            child.id = self.total_individuals_added;
            self.total_individuals_added += 1;
            children.push(child);
            self.current_agent_index = (self.current_agent_index + 1) % self.max_items_limit;
            picked += 1;
        }
        children
    }

    /// The next `amount` children: copies of the parents that the cursor
    /// picks one after the other, each with the next unused id, marked
    /// not viable, and mutated. The population stays as it is.
    pub fn get_children(&mut self, amount: usize, config: &AgentMutationConfig) -> (children: Vec<MCCAgent>)
        requires
            config.is_sound(),
            old(self).wf(),
            old(self).agents@.len() >= 1,
            old(self).total_individuals_added + amount <= u32::MAX,
        ensures
            final(self).wf(),
            final(self).agents@ == old(self).agents@,
            final(self).max_items_limit == old(self).max_items_limit,
            final(self).total_individuals_added == old(self).total_individuals_added + amount,
            final(self).current_agent_index == cursor_after(
                old(self).current_agent_index as int,
                old(self).agents@.len() as int,
                old(self).max_items_limit as int,
                amount as nat,
            ),
            children@.len() == amount,
            forall|i: int|
                0 <= i < amount ==> is_agent_mutation(
                    agent_child(
                        old(self).agents@[nth_parent(
                            old(self).current_agent_index as int,
                            old(self).agents@.len() as int,
                            old(self).max_items_limit as int,
                            i as nat,
                        )]@,
                        (old(self).total_individuals_added + i) as u32,
                    ),
                    (#[trigger] children@[i])@,
                ),
    {
        let mut parents = self.next_parents(amount);
        let ghost prepared = parents@;
        let mut children: Vec<MCCAgent> = Vec::new();
        let mut i: usize = 0;
        while i < parents.len()
            invariant
                config.is_sound(),
                i <= parents@.len(),
                parents@ == prepared,
                children@.len() == i,
                forall|k: int| 0 <= k < prepared.len() ==> (#[trigger] prepared[k]).genome@.wf(),
                forall|k: int| 0 <= k < i ==> is_agent_mutation(prepared[k]@, (#[trigger] children@[k])@),
            decreases parents@.len() - i,
        {
            let mut child = parents[i].clone();
            child.mutate(config);
            children.push(child);
            i += 1;
        }
        children
    }
}

} // verus!
