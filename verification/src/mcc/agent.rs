//! The population of agents.

use vstd::prelude::*;

pub mod agent_genome;
pub mod agent_queue;
pub mod agent_species;
pub mod mcc_agent;
pub mod speciated_agent_queue;

verus! {

/// How the members of a species that has stopped growing are replaced.
#[derive(Debug, Clone, Copy, PartialEq, Eq, Structural)]
pub enum ReplacementStrategy {
    Gradual,
    Sudden,
    Disabled,
}

} // verus!
