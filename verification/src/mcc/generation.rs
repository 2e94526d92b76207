//! One generation of the coevolution: what the outcomes of the
//! simulations mean for the children, and which children join the
//! populations.
//!
//! An agent meets its criterion when it solves a maze, a maze when an
//! agent solves it. Only the children that have met their criterion are
//! admitted.

use crate::maze::maze_genotype::{MazeGenome, MazeGenomeModel};
use crate::mcc::agent::agent_queue::AgentQueue;
use crate::mcc::agent::mcc_agent::{MCCAgent, MCCAgentModel};
use crate::mcc::agent::speciated_agent_queue::SpeciatedAgentQueue;
use crate::mcc::maze::maze_queue::MazeQueue;
use crate::mcc::maze::speciated_maze_queue::SpeciatedMazeQueue;
use crate::mcc::population::{after_pushes, is_nearest};
use vstd::prelude::*;

verus! {

/// Agent `a` has solved one of the first `count` mazes: `outcomes[m][a]`
/// tells whether it has solved maze `m`.
pub open spec fn solved_any(outcomes: Seq<Vec<bool>>, a: int, count: nat) -> bool
    decreases count,
{
    count > 0 && (solved_any(outcomes, a, (count - 1) as nat) || outcomes[count - 1]@[a])
}

/// The last of the first `count` agents that has solved the maze with
/// the outcomes `row`, if any has.
pub open spec fn last_solver(row: Seq<bool>, count: nat) -> Option<int>
    decreases count,
{
    if count == 0 {
        None
    } else if row[count - 1] {
        Some(count - 1)
    } else {
        last_solver(row, (count - 1) as nat)
    }
}

/// The agent `agent` after the simulations: viable if it was, or if it
/// has solved a maze.
pub open spec fn agent_after(agent: MCCAgentModel, solved: bool) -> MCCAgentModel {
    MCCAgentModel { viable: agent.viable || solved, ..agent }
}

/// The maze `maze` after the simulations with `agents`: solved by the
/// last agent that has reached its exit, and then viable.
pub open spec fn maze_after(maze: MazeGenomeModel, agents: Seq<MCCAgent>, row: Seq<bool>) -> MazeGenomeModel {
    match last_solver(row, agents.len()) {
        Some(a) => MazeGenomeModel { viable: true, successful_agent_id: Some(agents[a].id), ..maze },
        None => maze,
    }
}

/// `outcomes` holds one outcome for every pair of a maze and an agent.
pub open spec fn outcomes_are_complete(outcomes: Seq<Vec<bool>>, agents: nat, mazes: nat) -> bool {
    &&& outcomes.len() == mazes
    &&& forall|m: int| 0 <= m < mazes ==> (#[trigger] outcomes[m])@.len() == agents
}

/// Marks the children that have met their criterion. `outcomes[m][a]`
/// tells whether agent `a` has reached the exit of maze `m`.
///
/// An agent that has solved a maze is viable. A maze that an agent has
/// solved is viable and names the last such agent as its solver.
/// Nothing else changes.
pub fn mark_viable(agents: &mut Vec<MCCAgent>, mazes: &mut Vec<MazeGenome>, outcomes: &Vec<Vec<bool>>)
    requires
        outcomes_are_complete(outcomes@, old(agents)@.len(), old(mazes)@.len()),
    ensures
        final(agents)@.len() == old(agents)@.len(),
        final(mazes)@.len() == old(mazes)@.len(),
        forall|a: int|
            0 <= a < old(agents)@.len() ==> (#[trigger] final(agents)@[a])@ == agent_after(
                old(agents)@[a]@,
                solved_any(outcomes@, a, outcomes@.len()),
            ),
        forall|m: int|
            0 <= m < old(mazes)@.len() ==> (#[trigger] final(mazes)@[m])@ == maze_after(
                old(mazes)@[m]@,
                old(agents)@,
                outcomes@[m]@,
            ),
{
    let mut m: usize = 0;
    while m < mazes.len()
        invariant
            outcomes_are_complete(outcomes@, old(agents)@.len(), old(mazes)@.len()),
            agents@.len() == old(agents)@.len(),
            mazes@.len() == old(mazes)@.len(),
            m <= mazes@.len(),
            forall|a: int|
                0 <= a < agents@.len() ==> (#[trigger] agents@[a])@ == agent_after(
                    old(agents)@[a]@,
                    solved_any(outcomes@, a, m as nat),
                ),
            forall|k: int|
                0 <= k < m ==> (#[trigger] mazes@[k])@ == maze_after(old(mazes)@[k]@, old(agents)@, outcomes@[k]@),
            forall|k: int| m <= k < mazes@.len() ==> (#[trigger] mazes@[k]) == old(mazes)@[k],
        decreases mazes@.len() - m,
    {
        let mut a: usize = 0;
        while a < agents.len()
            invariant
                outcomes_are_complete(outcomes@, old(agents)@.len(), old(mazes)@.len()),
                agents@.len() == old(agents)@.len(),
                mazes@.len() == old(mazes)@.len(),
                m < mazes@.len(),
                a <= agents@.len(),
                forall|i: int|
                    0 <= i < a ==> (#[trigger] agents@[i])@ == agent_after(
                        old(agents)@[i]@,
                        solved_any(outcomes@, i, (m + 1) as nat),
                    ),
                forall|i: int|
                    a <= i < agents@.len() ==> (#[trigger] agents@[i])@ == agent_after(
                        old(agents)@[i]@,
                        solved_any(outcomes@, i, m as nat),
                    ),
                forall|i: int| 0 <= i < agents@.len() ==> (#[trigger] agents@[i]).id == old(agents)@[i].id,
                mazes@[m as int]@ == (match last_solver(outcomes@[m as int]@, a as nat) {
                    Some(solver) => MazeGenomeModel {
                        viable: true,
                        successful_agent_id: Some(old(agents)@[solver].id),
                        ..old(mazes)@[m as int]@
                    },
                    None => old(mazes)@[m as int]@,
                }),
                forall|k: int|
                    0 <= k < m ==> (#[trigger] mazes@[k])@ == maze_after(old(mazes)@[k]@, old(agents)@, outcomes@[k]@),
                forall|k: int| m < k < mazes@.len() ==> (#[trigger] mazes@[k]) == old(mazes)@[k],
            decreases agents@.len() - a,
        {
            if outcomes[m][a] {
                agents[a].viable = true;
                let id = agents[a].id;
                mazes[m].viable = true;
                mazes[m].successful_agent_id = Some(id);
            }
            a += 1;
        }
        m += 1;
    }
}

/// The viable among the first `count` of `children`, in order.
pub open spec fn viable_mazes(children: Seq<MazeGenome>, count: nat) -> Seq<MazeGenomeModel>
    decreases count,
{
    if count == 0 {
        Seq::empty()
    } else if children[count - 1].viable {
        viable_mazes(children, (count - 1) as nat).push(children[count - 1]@)
    } else {
        viable_mazes(children, (count - 1) as nat)
    }
}

/// The viable among the first `count` of `children`, in order.
pub open spec fn viable_agents(children: Seq<MCCAgent>, count: nat) -> Seq<MCCAgentModel>
    decreases count,
{
    if count == 0 {
        Seq::empty()
    } else if children[count - 1].viable {
        viable_agents(children, (count - 1) as nat).push(children[count - 1]@)
    } else {
        viable_agents(children, (count - 1) as nat)
    }
}

/// Admits the viable of `children` to the queue, in order; a child that
/// is not viable is dropped and leaves the queue as it is.
pub fn admit_viable_mazes(queue: &mut MazeQueue, children: &Vec<MazeGenome>)
    requires
        old(queue).wf(),
        forall|i: int| 0 <= i < children@.len() ==> (#[trigger] children@[i])@.wf(),
    ensures
        final(queue).wf(),
        final(queue).max_items_limit == old(queue).max_items_limit,
        final(queue).total_individuals_added == old(queue).total_individuals_added,
        final(queue).population() == after_pushes(
            old(queue).population(),
            old(queue).max_items_limit as int,
            viable_mazes(children@, children@.len()),
        ),
{
    let mut i: usize = 0;
    while i < children.len()
        invariant
            queue.wf(),
            queue.max_items_limit == old(queue).max_items_limit,
            queue.total_individuals_added == old(queue).total_individuals_added,
            i <= children@.len(),
            forall|k: int| 0 <= k < children@.len() ==> (#[trigger] children@[k])@.wf(),
            queue.population() == after_pushes(
                old(queue).population(),
                old(queue).max_items_limit as int,
                viable_mazes(children@, i as nat),
            ),
        decreases children@.len() - i,
    {
        if children[i].viable {
            let ghost earlier = viable_mazes(children@, i as nat);
            queue.push(children[i].clone());
            proof {
                let admitted = viable_mazes(children@, (i + 1) as nat);
                assert(admitted.drop_last() =~= earlier);
                assert(admitted.last() == children@[i as int]@);
            }
        }
        i += 1;
    }
}

/// Admits the viable of `children` to the queue, in order; a child that
/// is not viable is dropped and leaves the queue as it is.
pub fn admit_viable_agents(queue: &mut AgentQueue, children: &Vec<MCCAgent>)
    requires
        old(queue).wf(),
        forall|i: int| 0 <= i < children@.len() ==> (#[trigger] children@[i]).genome@.wf(),
    ensures
        final(queue).wf(),
        final(queue).max_items_limit == old(queue).max_items_limit,
        final(queue).total_individuals_added == old(queue).total_individuals_added,
        final(queue).population() == after_pushes(
            old(queue).population(),
            old(queue).max_items_limit as int,
            viable_agents(children@, children@.len()),
        ),
{
    let mut i: usize = 0;
    while i < children.len()
        invariant
            queue.wf(),
            queue.max_items_limit == old(queue).max_items_limit,
            queue.total_individuals_added == old(queue).total_individuals_added,
            i <= children@.len(),
            forall|k: int| 0 <= k < children@.len() ==> (#[trigger] children@[k]).genome@.wf(),
            queue.population() == after_pushes(
                old(queue).population(),
                old(queue).max_items_limit as int,
                viable_agents(children@, i as nat),
            ),
        decreases children@.len() - i,
    {
        if children[i].viable {
            let ghost earlier = viable_agents(children@, i as nat);
            queue.push(children[i].clone());
            proof {
                let admitted = viable_agents(children@, (i + 1) as nat);
                assert(admitted.drop_last() =~= earlier);
                assert(admitted.last() == children@[i as int]@);
            }
        }
        i += 1;
    }
}

/// The viable among the first `count` of `children` that are nearest to
/// species `s`, in order; `distances[i]` holds the distances of child `i`
/// to the founders of the species.
pub open spec fn maze_joiners(children: Seq<MazeGenome>, distances: Seq<Vec<u64>>, s: int, count: nat) -> Seq<
    MazeGenomeModel,
>
    decreases count,
{
    if count == 0 {
        Seq::empty()
    } else if children[count - 1].viable && is_nearest(distances[count - 1]@, s) {
        maze_joiners(children, distances, s, (count - 1) as nat).push(children[count - 1]@)
    } else {
        maze_joiners(children, distances, s, (count - 1) as nat)
    }
}

/// The viable among the first `count` of `children` that are nearest to
/// species `s`, in order; `distances[i]` holds the distances of child `i`
/// to the founders of the species.
pub open spec fn agent_joiners(children: Seq<MCCAgent>, distances: Seq<Vec<u64>>, s: int, count: nat) -> Seq<
    MCCAgentModel,
>
    decreases count,
{
    if count == 0 {
        Seq::empty()
    } else if children[count - 1].viable && is_nearest(distances[count - 1]@, s) {
        agent_joiners(children, distances, s, (count - 1) as nat).push(children[count - 1]@)
    } else {
        agent_joiners(children, distances, s, (count - 1) as nat)
    }
}

/// Admits the viable of `children` to the species, in order, each to
/// the species nearest to it; a child that is not viable is dropped and
/// leaves every species as it is.
pub fn admit_viable_mazes_to_species(
    queue: &mut SpeciatedMazeQueue,
    children: &Vec<MazeGenome>,
    distances: &Vec<Vec<u64>>,
)
    requires
        old(queue).wf(),
        distances@.len() == children@.len(),
        forall|i: int|
            0 <= i < children@.len() ==> (#[trigger] children@[i])@.wf() && distances@[i]@.len() == old(queue).species@.len(),
    ensures
        final(queue).wf(),
        final(queue).selection_limit == old(queue).selection_limit,
        final(queue).species_added == old(queue).species_added,
        final(queue).species@.len() == old(queue).species@.len(),
        forall|s: int|
            0 <= s < old(queue).species@.len() ==> {
                &&& (#[trigger] final(queue).species@[s]).maze_queue.population() == after_pushes(
                    old(queue).species@[s].maze_queue.population(),
                    old(queue).species@[s].maze_queue.max_items_limit as int,
                    maze_joiners(children@, distances@, s, children@.len()),
                )
                &&& final(queue).species@[s].maze_queue.max_items_limit == old(queue).species@[s].maze_queue.max_items_limit
                &&& final(queue).species@[s].centroid == old(queue).species@[s].centroid
                &&& final(queue).species@[s].id == old(queue).species@[s].id
            },
{
    let mut i: usize = 0;
    while i < children.len()
        invariant
            queue.wf(),
            queue.selection_limit == old(queue).selection_limit,
            queue.species_added == old(queue).species_added,
            queue.species@.len() == old(queue).species@.len(),
            i <= children@.len(),
            distances@.len() == children@.len(),
            forall|k: int|
                0 <= k < children@.len() ==> (#[trigger] children@[k])@.wf() && distances@[k]@.len() == old(queue).species@.len(),
            forall|s: int|
                0 <= s < queue.species@.len() ==> {
                    &&& (#[trigger] queue.species@[s]).maze_queue.population() == after_pushes(
                        old(queue).species@[s].maze_queue.population(),
                        old(queue).species@[s].maze_queue.max_items_limit as int,
                        maze_joiners(children@, distances@, s, i as nat),
                    )
                    &&& queue.species@[s].maze_queue.max_items_limit == old(queue).species@[s].maze_queue.max_items_limit
                    &&& queue.species@[s].centroid == old(queue).species@[s].centroid
                    &&& queue.species@[s].id == old(queue).species@[s].id
                },
        decreases children@.len() - i,
    {
        if children[i].viable {
            let ghost before = queue.species@;
            queue.push(children[i].clone(), &distances[i]);
            proof {
                assert forall|s: int| 0 <= s < queue.species@.len() implies (#[trigger] queue.species@[s]).maze_queue.population()
                    == after_pushes(
                    old(queue).species@[s].maze_queue.population(),
                    old(queue).species@[s].maze_queue.max_items_limit as int,
                    maze_joiners(children@, distances@, s, (i + 1) as nat),
                ) by {
                    let joined = maze_joiners(children@, distances@, s, (i + 1) as nat);
                    if is_nearest(distances@[i as int]@, s) {
                        assert(joined.drop_last() =~= maze_joiners(children@, distances@, s, i as nat));
                        assert(joined.last() == children@[i as int]@);
                    } else {
                        assert(queue.species@[s] == before[s]);
                    }
                }
            }
        }
        i += 1;
    }
}

/// Admits the viable of `children` to the species, in order, each to
/// the species nearest to it; a child that is not viable is dropped and
/// leaves every species as it is.
pub fn admit_viable_agents_to_species(
    queue: &mut SpeciatedAgentQueue,
    children: &Vec<MCCAgent>,
    distances: &Vec<Vec<u64>>,
)
    requires
        old(queue).wf(),
        distances@.len() == children@.len(),
        forall|i: int|
            0 <= i < children@.len() ==> (#[trigger] children@[i]).genome@.wf() && distances@[i]@.len() == old(queue).species@.len(),
    ensures
        final(queue).wf(),
        final(queue).selection_limit == old(queue).selection_limit,
        final(queue).species_added == old(queue).species_added,
        final(queue).species@.len() == old(queue).species@.len(),
        forall|s: int|
            0 <= s < old(queue).species@.len() ==> {
                &&& (#[trigger] final(queue).species@[s]).agent_queue.population() == after_pushes(
                    old(queue).species@[s].agent_queue.population(),
                    old(queue).species@[s].agent_queue.max_items_limit as int,
                    agent_joiners(children@, distances@, s, children@.len()),
                )
                &&& final(queue).species@[s].agent_queue.max_items_limit == old(queue).species@[s].agent_queue.max_items_limit
                &&& final(queue).species@[s].centroid == old(queue).species@[s].centroid
                &&& final(queue).species@[s].id == old(queue).species@[s].id
            },
{
    let mut i: usize = 0;
    while i < children.len()
        invariant
            queue.wf(),
            queue.selection_limit == old(queue).selection_limit,
            queue.species_added == old(queue).species_added,
            queue.species@.len() == old(queue).species@.len(),
            i <= children@.len(),
            distances@.len() == children@.len(),
            forall|k: int|
                0 <= k < children@.len() ==> (#[trigger] children@[k]).genome@.wf() && distances@[k]@.len()
                    == old(queue).species@.len(),
            forall|s: int|
                0 <= s < queue.species@.len() ==> {
                    &&& (#[trigger] queue.species@[s]).agent_queue.population() == after_pushes(
                        old(queue).species@[s].agent_queue.population(),
                        old(queue).species@[s].agent_queue.max_items_limit as int,
                        agent_joiners(children@, distances@, s, i as nat),
                    )
                    &&& queue.species@[s].agent_queue.max_items_limit == old(queue).species@[s].agent_queue.max_items_limit
                    &&& queue.species@[s].centroid == old(queue).species@[s].centroid
                    &&& queue.species@[s].id == old(queue).species@[s].id
                },
        decreases children@.len() - i,
    {
        if children[i].viable {
            let ghost before = queue.species@;
            queue.push(children[i].clone(), &distances[i]);
            proof {
                assert forall|s: int| 0 <= s < queue.species@.len() implies (#[trigger] queue.species@[s]).agent_queue.population()
                    == after_pushes(
                    old(queue).species@[s].agent_queue.population(),
                    old(queue).species@[s].agent_queue.max_items_limit as int,
                    agent_joiners(children@, distances@, s, (i + 1) as nat),
                ) by {
                    let joined = agent_joiners(children@, distances@, s, (i + 1) as nat);
                    if is_nearest(distances@[i as int]@, s) {
                        assert(joined.drop_last() =~= agent_joiners(children@, distances@, s, i as nat));
                        assert(joined.last() == children@[i as int]@);
                    } else {
                        assert(queue.species@[s] == before[s]);
                    }
                }
            }
        }
        i += 1;
    }
}

} // verus!
