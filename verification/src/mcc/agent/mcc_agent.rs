//! An agent of the coevolution: a genome with the marks that the queues
//! keep on it.

use crate::mcc::agent::agent_genome::{
    is_mutation_with, AgentGenome, AgentGenomeModel, AgentMutationConfig,
};
use vstd::prelude::*;

verus! {

/// What an agent holds, as mathematical values.
pub struct MCCAgentModel {
    pub genome: AgentGenomeModel,
    pub viable: bool,
    pub id: u32,
    pub completed_maze_id: Option<u32>,
}

/// An agent.
#[derive(Debug)]
pub struct MCCAgent {
    pub genome: AgentGenome,
    /// The agent has solved a maze.
    pub viable: bool,
    pub id: u32,
    /// The maze that the agent has solved.
    pub completed_maze_id: Option<u32>,
}

impl View for MCCAgent {
    type V = MCCAgentModel;

    open spec fn view(&self) -> MCCAgentModel {
        MCCAgentModel {
            genome: self.genome@,
            viable: self.viable,
            id: self.id,
            completed_maze_id: self.completed_maze_id,
        }
    }
}

impl Clone for MCCAgent {
    /// A copy with the same genome, marks and id.
    fn clone(&self) -> (copy: MCCAgent)
        ensures
            copy@ == self@,
    {
        MCCAgent {
            genome: self.genome.clone(),
            viable: self.viable,
            id: self.id,
            completed_maze_id: self.completed_maze_id,
        }
    }
}

impl MCCAgent {
    /// An agent with the given genome and id, marked viable.
    pub fn new(genome: AgentGenome, id: u32) -> (agent: MCCAgent)
        ensures
            agent@ == (MCCAgentModel { genome: genome@, viable: true, id, completed_maze_id: None }),
    {
        MCCAgent { genome, viable: true, id, completed_maze_id: None }
    }

    /// Mutates the genome of the agent; its id and marks stay as they
    /// are.
    pub fn mutate(&mut self, config: &AgentMutationConfig)
        requires
            old(self).genome@.wf(),
            config.is_sound(),
        ensures
            AgentGenome::is_mutation(old(self).genome@, final(self).genome@),
            is_mutation_with(old(self).genome@, final(self).genome@, *config),
            final(self).viable == old(self).viable,
            final(self).id == old(self).id,
            final(self).completed_maze_id == old(self).completed_maze_id,
    {
        self.genome.mutate(config);
    }
}

} // verus!
