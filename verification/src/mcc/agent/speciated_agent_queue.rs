//! The speciated queue of agents: one species per founder, and every
//! newcomer joins the species whose founder it is nearest to.

use crate::mcc::agent::agent_genome::AgentMutationConfig;
use crate::mcc::agent::agent_queue::{
    agent_child, agent_sizes, agent_sizes_are_countable, is_agent_mutation,
};
use crate::mcc::agent::agent_species::AgentSpecies;
use crate::mcc::agent::mcc_agent::MCCAgent;
use crate::mcc::population::{after_push, is_nearest, nearest_species, nth_parent, QueueError};
use crate::mcc::statistics::{
    first_smallest_index, largest_of, last_largest_index, lemma_count_bound, lemma_sum_bound,
    smallest_of, sum_of, Ratio,
};
use vstd::prelude::*;
use vstd::std_specs::slice::into_iter_elts;

verus! {

/// The species of agents, in the order of their founders.
#[derive(Debug)]
pub struct SpeciatedAgentQueue {
    pub species: Vec<AgentSpecies>,
    /// How many children all species together give in a generation.
    pub selection_limit: usize,
    /// The number of species that the queue has had: the id of the next
    /// species.
    pub species_added: u32,
}

/// The share of species `s` when `total` is dealt out to `count`
/// species: each gets the whole quotient, and the first species get one
/// more until the remainder is used up.
pub open spec fn share_of(total: int, count: int, s: int) -> int {
    total / count + if s < total % count {
        1int
    } else {
        0int
    }
}

/// The place of the first child of species `s` in the flat list of all
/// children: the sum of the shares of the species before it.
pub open spec fn shares_before(total: int, count: int, s: nat) -> int
    decreases s,
{
    if s == 0 {
        0
    } else {
        shares_before(total, count, (s - 1) as nat) + share_of(total, count, s - 1)
    }
}

/// Every species can give its share of the selection without running out
/// of ids.
pub open spec fn agent_ids_suffice(species: Seq<AgentSpecies>, selection_limit: int) -> bool {
    forall|k: int|
        0 <= k < species.len() ==> (#[trigger] species[k]).agent_queue.total_individuals_added + share_of(
            selection_limit,
            species.len() as int,
            k,
        ) <= u32::MAX
}

/// A number is its quotient by `count` times `count`, and its remainder.
pub proof fn lemma_quotient_and_rest(total: int, count: int)
    requires
        total >= 0,
        count >= 1,
    ensures
        total == count * (total / count) + total % count,
        0 <= total % count < count,
        0 <= total / count <= total,
        total % count > 0 ==> total / count < total,
{
    vstd::arithmetic::div_mod::lemma_fundamental_div_mod(total, count);
    vstd::arithmetic::div_mod::lemma_div_pos_is_pos(total, count);
    let quotient = total / count;
    assert(quotient <= count * quotient) by (nonlinear_arith)
        requires
            count >= 1,
            quotient >= 0,
    ;
}

/// The shares of the species before `s` add up to `s` whole quotients
/// and one more for each of them that gets one; all shares together are
/// what is dealt out.
pub proof fn lemma_shares_fit(total: int, count: int, s: nat)
    requires
        total >= 0,
        count >= 1,
        s <= count,
    ensures
        shares_before(total, count, s) == s * (total / count) + (if s <= total % count {
            s as int
        } else {
            total % count
        }),
        0 <= shares_before(total, count, s) <= total,
        s == count ==> shares_before(total, count, s) == total,
    decreases s,
{
    let quotient = total / count;
    let rest = total % count;
    lemma_quotient_and_rest(total, count);
    if s > 0 {
        let earlier = (s - 1) as nat;
        lemma_shares_fit(total, count, earlier);
        assert(earlier * quotient + quotient == s * quotient) by (nonlinear_arith)
            requires
                earlier == s - 1,
        ;
        assert(share_of(total, count, s - 1) == quotient + if s - 1 < rest {
            1int
        } else {
            0int
        });
    } else {
        assert(s * quotient == 0) by (nonlinear_arith)
            requires
                s == 0,
        ;
    }
    assert(0 <= s * quotient <= count * quotient) by (nonlinear_arith)
        requires
            0 <= s <= count,
            quotient >= 0,
    ;
}

impl SpeciatedAgentQueue {
    /// There is a species, every species is well formed, and a
    /// generation selects at least one child.
    pub open spec fn wf(&self) -> bool {
        &&& self.species@.len() >= 1
        &&& self.selection_limit >= 1
        &&& forall|k: int| 0 <= k < self.species@.len() ==> (#[trigger] self.species@[k]).wf()
    }

    /// One species per founder, each with an equal share of `capacity`.
    ///
    /// Refused are, in this order: no founder; a capacity that leaves a
    /// species no place; a selection of no children.
    pub fn new(agents: Vec<MCCAgent>, capacity: usize, selection_limit: usize) -> (queue: Result<
        SpeciatedAgentQueue,
        QueueError,
    >)
        requires
            agents@.len() <= u32::MAX,
            forall|i: int| 0 <= i < agents@.len() ==> (#[trigger] agents@[i]).genome@.wf(),
        ensures
            agents@.len() == 0 <==> queue == Err::<SpeciatedAgentQueue, QueueError>(QueueError::NoFounder),
            (agents@.len() > 0 && capacity / (agents@.len() as usize) == 0) <==> queue == Err::<
                SpeciatedAgentQueue,
                QueueError,
            >(QueueError::ZeroCapacity),
            (agents@.len() > 0 && capacity / (agents@.len() as usize) > 0 && selection_limit == 0) <==> queue
                == Err::<SpeciatedAgentQueue, QueueError>(QueueError::ZeroSelection),
            queue matches Ok(made) ==> {
                &&& made.wf()
                &&& made.selection_limit == selection_limit
                &&& made.species_added == agents@.len()
                &&& made.species@.len() == agents@.len()
                &&& forall|k: int|
                    0 <= k < agents@.len() ==> {
                        &&& (#[trigger] made.species@[k]).id == k
                        &&& made.species@[k].centroid@ == agents@[k]@
                        &&& made.species@[k].agent_queue.population() == seq![agents@[k]@]
                        &&& made.species@[k].agent_queue.max_items_limit == capacity / (agents@.len() as usize)
                        &&& made.species@[k].agent_queue.total_individuals_added == 1
                        &&& made.species@[k].statistics.entries() == 0
                    }
            },
    {
        if agents.len() == 0 {
            return Err(QueueError::NoFounder);
        }
        let base_amount: usize = capacity / agents.len();
        if base_amount == 0 {
            return Err(QueueError::ZeroCapacity);
        }
        if selection_limit == 0 {
            return Err(QueueError::ZeroSelection);
        }
        let mut species: Vec<AgentSpecies> = Vec::new();
        let mut i: usize = 0;
        while i < agents.len()
            invariant
                i <= agents@.len() <= u32::MAX,
                base_amount > 0,
                base_amount == capacity / (agents@.len() as usize),
                species@.len() == i,
                forall|k: int| 0 <= k < agents@.len() ==> (#[trigger] agents@[k]).genome@.wf(),
                forall|k: int|
                    0 <= k < i ==> {
                        &&& (#[trigger] species@[k]).wf()
                        &&& species@[k].id == k
                        &&& species@[k].centroid@ == agents@[k]@
                        &&& species@[k].agent_queue.population() == seq![agents@[k]@]
                        &&& species@[k].agent_queue.max_items_limit == base_amount
                        &&& species@[k].agent_queue.total_individuals_added == 1
                        &&& species@[k].statistics.entries() == 0
                    },
            decreases agents@.len() - i,
        {
            match AgentSpecies::new(agents[i].clone(), base_amount, i as u32) {
                Ok(made) => {
                    species.push(made);
                },
                Err(_) => {},
            }
            i += 1;
        }
        let species_added = agents.len() as u32;
        Ok(SpeciatedAgentQueue { species, selection_limit, species_added })
    }

    /// An iterator over the species, in the order of their founders.
    pub fn iter_species(&self) -> (iter: core::slice::Iter<'_, AgentSpecies>)
        ensures
            into_iter_elts(iter) == self.species@,
    {
        let items = self.species.as_slice();
        let iter = items.iter();
        proof {
            assert(into_iter_elts(iter) =~= self.species@);
        }
        iter
    }

    /// The number of agents in all species together.
    pub fn len(&self) -> (length: usize)
        requires
            total_agents(self.species@, self.species@.len()) <= usize::MAX,
        ensures
            length == total_agents(self.species@, self.species@.len()),
    {
        let mut length: usize = 0;
        let mut k: usize = 0;
        while k < self.species.len()
            invariant
                k <= self.species@.len(),
                length == total_agents(self.species@, k as nat),
                total_agents(self.species@, self.species@.len()) <= usize::MAX,
            decreases self.species@.len() - k,
        {
            proof {
                lemma_total_agents_grows(self.species@, (k + 1) as nat, self.species@.len());
            }
            length += self.species[k].len();
            k += 1;
        }
        length
    }

    /// Admits `agent` to the species nearest to it. `distances` holds
    /// the distance of the agent to the founder of each species, in the
    /// order of the species. Every other species stays as it is.
    pub fn push(&mut self, agent: MCCAgent, distances: &Vec<u64>)
        requires
            old(self).wf(),
            agent.genome@.wf(),
            distances@.len() == old(self).species@.len(),
        ensures
            final(self).wf(),
            final(self).selection_limit == old(self).selection_limit,
            final(self).species_added == old(self).species_added,
            final(self).species@.len() == old(self).species@.len(),
            forall|k: int|
                0 <= k < old(self).species@.len() && !is_nearest(distances@, k) ==> #[trigger] final(self).species@[k] == old(self).species@[k],
            forall|k: int|
                is_nearest(distances@, k) ==> {
                    &&& (#[trigger] final(self).species@[k]).agent_queue.population() == after_push(
                        old(self).species@[k].agent_queue.population(),
                        old(self).species@[k].agent_queue.max_items_limit as int,
                        agent@,
                    )
                    &&& final(self).species@[k].agent_queue.max_items_limit == old(self).species@[k].agent_queue.max_items_limit
                    &&& final(self).species@[k].agent_queue.total_individuals_added == old(self).species@[k].agent_queue.total_individuals_added
                    &&& final(self).species@[k].centroid == old(self).species@[k].centroid
                    &&& final(self).species@[k].id == old(self).species@[k].id
                    &&& final(self).species@[k].statistics == old(self).species@[k].statistics
                },
    {
        let index = nearest_species(distances);
        proof {
            assert forall|k: int| is_nearest(distances@, k) implies k == index by {
                crate::mcc::population::lemma_nearest_is_unique(distances@, k, index as int);
            }
        }
        self.species[index].push(agent);
    }

    /// The children of a generation: the selection is dealt out to the
    /// species, and every species gives its share, the species in order.
    /// Child `i` of species `s` stands behind the children of the
    /// species before `s`.
    pub fn get_children(&mut self, config: &AgentMutationConfig) -> (children: Vec<MCCAgent>)
        requires
            config.is_sound(),
            old(self).wf(),
            agent_ids_suffice(old(self).species@, old(self).selection_limit as int),
        ensures
            final(self).wf(),
            final(self).selection_limit == old(self).selection_limit,
            final(self).species_added == old(self).species_added,
            final(self).species@.len() == old(self).species@.len(),
            children@.len() == old(self).selection_limit,
            forall|s: int|
                0 <= s < old(self).species@.len() ==> {
                    &&& (#[trigger] final(self).species@[s]).agent_queue.agents@ == old(self).species@[s].agent_queue.agents@
                    &&& final(self).species@[s].centroid == old(self).species@[s].centroid
                    &&& final(self).species@[s].id == old(self).species@[s].id
                    &&& final(self).species@[s].statistics == old(self).species@[s].statistics
                    &&& final(self).species@[s].agent_queue.total_individuals_added == old(self).species@[s].agent_queue.total_individuals_added + share_of(
                        old(self).selection_limit as int,
                        old(self).species@.len() as int,
                        s,
                    )
                },
            forall|s: int, i: int|
                0 <= s < old(self).species@.len() && 0 <= i < share_of(
                    old(self).selection_limit as int,
                    old(self).species@.len() as int,
                    s,
                ) ==> is_agent_mutation(
                    agent_child(
                        old(self).species@[s].agent_queue.agents@[nth_parent(
                            old(self).species@[s].agent_queue.current_agent_index as int,
                            old(self).species@[s].agent_queue.agents@.len() as int,
                            old(self).species@[s].agent_queue.max_items_limit as int,
                            i as nat,
                        )]@,
                        (old(self).species@[s].agent_queue.total_individuals_added + i) as u32,
                    ),
                    #[trigger] children@[shares_before(
                        old(self).selection_limit as int,
                        old(self).species@.len() as int,
                        s as nat,
                    ) + i]@,
                ),
    {
        let ghost total = self.selection_limit as int;
        let ghost count = self.species@.len() as int;
        let base_amount: usize = self.selection_limit / self.species.len();
        let rest: usize = self.selection_limit % self.species.len();
        let mut children: Vec<MCCAgent> = Vec::new();
        let mut s: usize = 0;
        while s < self.species.len()
            invariant
                config.is_sound(),
                self.wf(),
                self.selection_limit == old(self).selection_limit,
                self.species_added == old(self).species_added,
                self.species@.len() == old(self).species@.len(),
                total == self.selection_limit,
                count == self.species@.len(),
                base_amount == total / count,
                rest == total % count,
                agent_ids_suffice(old(self).species@, total),
                s <= self.species@.len(),
                children@.len() == shares_before(total, count, s as nat),
                forall|k: int| s <= k < self.species@.len() ==> #[trigger] self.species@[k] == old(self).species@[k],
                forall|k: int|
                    0 <= k < s ==> {
                        &&& (#[trigger] self.species@[k]).agent_queue.agents@ == old(self).species@[k].agent_queue.agents@
                        &&& self.species@[k].centroid == old(self).species@[k].centroid
                        &&& self.species@[k].id == old(self).species@[k].id
                        &&& self.species@[k].statistics == old(self).species@[k].statistics
                        &&& self.species@[k].agent_queue.total_individuals_added == old(self).species@[k].agent_queue.total_individuals_added + share_of(total, count, k)
                    },
                forall|k: int, i: int|
                    0 <= k < s && 0 <= i < share_of(total, count, k) ==> is_agent_mutation(
                        agent_child(
                            old(self).species@[k].agent_queue.agents@[nth_parent(
                                old(self).species@[k].agent_queue.current_agent_index as int,
                                old(self).species@[k].agent_queue.agents@.len() as int,
                                old(self).species@[k].agent_queue.max_items_limit as int,
                                i as nat,
                            )]@,
                            (old(self).species@[k].agent_queue.total_individuals_added + i) as u32,
                        ),
                        #[trigger] children@[shares_before(total, count, k as nat) + i]@,
                    ),
            decreases self.species@.len() - s,
        {
            proof {
                lemma_shares_fit(total, count, s as nat);
                lemma_shares_fit(total, count, (s + 1) as nat);
                lemma_quotient_and_rest(total, count);
            }
            let amount: usize = if s < rest {
                base_amount + 1
            } else {
                base_amount
            };
            let ghost before = self.species@;
            let ghost earlier = children@;
            let mut offspring = self.species[s].get_children(amount, config);
            assert(forall|k: int| 0 <= k < self.species@.len() && k != s ==> self.species@[k] == before[k]);
            children.append(&mut offspring);
            proof {
                assert forall|k: int, i: int| 0 <= k < s + 1 && 0 <= i < share_of(total, count, k) implies is_agent_mutation(
                    agent_child(
                        old(self).species@[k].agent_queue.agents@[nth_parent(
                            old(self).species@[k].agent_queue.current_agent_index as int,
                            old(self).species@[k].agent_queue.agents@.len() as int,
                            old(self).species@[k].agent_queue.max_items_limit as int,
                            i as nat,
                        )]@,
                        (old(self).species@[k].agent_queue.total_individuals_added + i) as u32,
                    ),
                    #[trigger] children@[shares_before(total, count, k as nat) + i]@,
                ) by {
                    lemma_shares_fit(total, count, k as nat);
                    assert(shares_before(total, count, (k + 1) as nat) == shares_before(total, count, k as nat)
                        + share_of(total, count, k));
                    if k < s {
                        lemma_shares_grow(total, count, (k + 1) as nat, s as nat);
                        assert(children@[shares_before(total, count, k as nat) + i] == earlier[shares_before(
                            total,
                            count,
                            k as nat,
                        ) + i]);
                    }
                }
            }
            s += 1;
        }
        proof {
            lemma_shares_fit(total, count, count as nat);
        }
        children
    }

    /// The size of the largest agent of all species.
    pub fn get_largest_size(&self) -> (size: u32)
        requires
            self.wf(),
            forall|k: int|
                0 <= k < self.species@.len() ==> agent_sizes_are_countable(
                    (#[trigger] self.species@[k]).agent_queue.agents@,
                ),
        ensures
            size == largest_of(species_largest_agents(self.species@)),
    {
        let mut sizes: Vec<u32> = Vec::new();
        let mut k: usize = 0;
        while k < self.species.len()
            invariant
                self.wf(),
                forall|k: int|
                    0 <= k < self.species@.len() ==> agent_sizes_are_countable(
                        (#[trigger] self.species@[k]).agent_queue.agents@,
                    ),
                k <= self.species@.len(),
                sizes@.len() == k,
                forall|i: int| 0 <= i < k ==> #[trigger] sizes@[i] == species_largest_agents(self.species@)[i],
            decreases self.species@.len() - k,
        {
            sizes.push(self.species[k].agent_queue.get_largest_size());
            k += 1;
        }
        assert(sizes@ =~= species_largest_agents(self.species@));
        let index = last_largest_index(&sizes);
        sizes[index]
    }

    /// The size of the smallest agent of all species.
    pub fn get_smallest_size(&self) -> (size: u32)
        requires
            self.wf(),
            forall|k: int|
                0 <= k < self.species@.len() ==> agent_sizes_are_countable(
                    (#[trigger] self.species@[k]).agent_queue.agents@,
                ),
        ensures
            size == smallest_of(species_smallest_agents(self.species@)),
    {
        let mut sizes: Vec<u32> = Vec::new();
        let mut k: usize = 0;
        while k < self.species.len()
            invariant
                self.wf(),
                forall|k: int|
                    0 <= k < self.species@.len() ==> agent_sizes_are_countable(
                        (#[trigger] self.species@[k]).agent_queue.agents@,
                    ),
                k <= self.species@.len(),
                sizes@.len() == k,
                forall|i: int| 0 <= i < k ==> #[trigger] sizes@[i] == species_smallest_agents(self.species@)[i],
            decreases self.species@.len() - k,
        {
            sizes.push(self.species[k].agent_queue.get_smallest_size());
            k += 1;
        }
        assert(sizes@ =~= species_smallest_agents(self.species@));
        let index = first_smallest_index(&sizes);
        sizes[index]
    }

    /// The average size of the agents of all species, as the ratio of
    /// the sum of the sizes to the number of agents.
    pub fn get_average_size(&self) -> (ratio: Ratio)
        requires
            self.wf(),
            total_agents(self.species@, self.species@.len()) <= u32::MAX,
            forall|k: int|
                0 <= k < self.species@.len() ==> agent_sizes_are_countable(
                    (#[trigger] self.species@[k]).agent_queue.agents@,
                ),
        ensures
            ratio.numerator == total_agent_size(self.species@, self.species@.len()),
            ratio.denominator == total_agents(self.species@, self.species@.len()),
    {
        let mut sum: u64 = 0;
        let mut count: u64 = 0;
        let mut k: usize = 0;
        while k < self.species.len()
            invariant
                self.wf(),
                forall|k: int|
                    0 <= k < self.species@.len() ==> agent_sizes_are_countable(
                        (#[trigger] self.species@[k]).agent_queue.agents@,
                    ),
                k <= self.species@.len(),
                total_agents(self.species@, self.species@.len()) <= u32::MAX,
                sum == total_agent_size(self.species@, k as nat),
                count == total_agents(self.species@, k as nat),
                sum <= count * 0xFFFF_FFFF,
            decreases self.species@.len() - k,
        {
            proof {
                lemma_total_agents_grows(self.species@, (k + 1) as nat, self.species@.len());
                lemma_total_agents_grows(self.species@, k as nat, (k + 1) as nat);
                lemma_sum_bound(
                    agent_sizes(self.species@[k as int].agent_queue.agents@),
                    self.species@[k as int].agent_queue.agents@.len(),
                );
                lemma_count_bound(
                    count as int,
                    self.species@[k as int].agent_queue.agents@.len() as int,
                    total_agents(self.species@, self.species@.len()),
                );
            }
            let ratio = self.species[k].agent_queue.get_average_size();
            sum += ratio.numerator;
            count += ratio.denominator;
            k += 1;
        }
        Ratio { numerator: sum, denominator: count }
    }

    /// Records the present aggregates of every species.
    pub fn save_state(&mut self)
        requires
            old(self).wf(),
            forall|k: int|
                0 <= k < old(self).species@.len() ==> (#[trigger] old(self).species@[k]).agent_queue.agents@.len()
                    <= u32::MAX && agent_sizes_are_countable(old(self).species@[k].agent_queue.agents@),
        ensures
            final(self).wf(),
            final(self).selection_limit == old(self).selection_limit,
            final(self).species_added == old(self).species_added,
            final(self).species@.len() == old(self).species@.len(),
            forall|k: int|
                0 <= k < old(self).species@.len() ==> {
                    &&& (#[trigger] final(self).species@[k]).agent_queue == old(self).species@[k].agent_queue
                    &&& final(self).species@[k].centroid == old(self).species@[k].centroid
                    &&& final(self).species@[k].id == old(self).species@[k].id
                    &&& final(self).species@[k].statistics.entries() == old(self).species@[k].statistics.entries()
                        + 1
                },
    {
        let mut s: usize = 0;
        while s < self.species.len()
            invariant
                self.wf(),
                self.selection_limit == old(self).selection_limit,
                self.species_added == old(self).species_added,
                self.species@.len() == old(self).species@.len(),
                s <= self.species@.len(),
                forall|k: int| s <= k < self.species@.len() ==> #[trigger] self.species@[k] == old(self).species@[k],
                forall|k: int|
                    0 <= k < old(self).species@.len() ==> (#[trigger] old(self).species@[k]).agent_queue.agents@.len()
                        <= u32::MAX && agent_sizes_are_countable(old(self).species@[k].agent_queue.agents@),
                forall|k: int|
                    0 <= k < s ==> {
                        &&& (#[trigger] self.species@[k]).agent_queue == old(self).species@[k].agent_queue
                        &&& self.species@[k].centroid == old(self).species@[k].centroid
                        &&& self.species@[k].id == old(self).species@[k].id
                        &&& self.species@[k].statistics.entries() == old(self).species@[k].statistics.entries() + 1
                    },
            decreases self.species@.len() - s,
        {
            let ghost before = self.species@;
            self.species[s].save_state();
            assert(forall|k: int| 0 <= k < self.species@.len() && k != s ==> self.species@[k] == before[k]);
            s += 1;
        }
    }
}

/// The shares of more species are no fewer.
pub proof fn lemma_shares_grow(total: int, count: int, fewer: nat, more: nat)
    requires
        total >= 0,
        count >= 1,
        fewer <= more,
    ensures
        shares_before(total, count, fewer) <= shares_before(total, count, more),
    decreases more,
{
    if fewer < more {
        lemma_shares_grow(total, count, fewer, (more - 1) as nat);
        lemma_quotient_and_rest(total, count);
    }
}

/// The number of agents in the first `count` species.
pub open spec fn total_agents(species: Seq<AgentSpecies>, count: nat) -> int
    decreases count,
{
    if count == 0 {
        0
    } else {
        total_agents(species, (count - 1) as nat) + species[count - 1].agent_queue.agents@.len()
    }
}

/// The agents of more species are no fewer.
pub proof fn lemma_total_agents_grows(species: Seq<AgentSpecies>, fewer: nat, more: nat)
    requires
        fewer <= more,
    ensures
        0 <= total_agents(species, fewer) <= total_agents(species, more),
    decreases more,
{
    if more > 0 {
        if fewer < more {
            lemma_total_agents_grows(species, fewer, (more - 1) as nat);
        } else {
            lemma_total_agents_grows(species, (fewer - 1) as nat, (more - 1) as nat);
        }
    }
}

/// The sum of the sizes of the agents in the first `count` species.
pub open spec fn total_agent_size(species: Seq<AgentSpecies>, count: nat) -> int
    decreases count,
{
    if count == 0 {
        0
    } else {
        total_agent_size(species, (count - 1) as nat) + sum_of(
            agent_sizes(species[count - 1].agent_queue.agents@),
            species[count - 1].agent_queue.agents@.len(),
        )
    }
}

/// The size of the largest agent of each species.
pub open spec fn species_largest_agents(species: Seq<AgentSpecies>) -> Seq<u32> {
    Seq::new(species.len(), |k: int| largest_of(agent_sizes(species[k].agent_queue.agents@)))
}

/// The size of the smallest agent of each species.
pub open spec fn species_smallest_agents(species: Seq<AgentSpecies>) -> Seq<u32> {
    Seq::new(species.len(), |k: int| smallest_of(agent_sizes(species[k].agent_queue.agents@)))
}

} // verus!
