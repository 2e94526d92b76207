//! The genome of an agent: the nodes and links of its neural controller,
//! with weights in fixed point.

use crate::fraction::Fraction;
use crate::random::{random_below, random_bits, random_choice};
use vstd::prelude::*;

verus! {

/// The weight `1.0`: weights and biases count in units of `2^-32`.
pub const WEIGHT_ONE: i64 = 0x1_0000_0000;

/// The largest magnitude of a weight; a mutation that would pass it
/// stops there.
pub const WEIGHT_LIMIT: i64 = 0x4000_0000_0000_0000;

/// The largest step of a weight mutation that a configuration may ask
/// for.
pub const WEIGHT_STEP_LIMIT: u64 = 0x100_0000_0000;

/// The name of a node: its layer and its number in that layer.
#[derive(Debug, Clone, Copy, PartialEq, Eq, Structural)]
pub enum NodeRef {
    Input(u64),
    Hidden(u64),
    Output(u64),
}

/// The function that a node applies to the sum of its inputs.
#[derive(Debug, Clone, Copy, PartialEq, Eq, Structural)]
pub enum Activation {
    Linear,
    Step,
    ReLU,
    Sigmoid,
    Tanh,
}

/// A node of the network.
#[derive(Debug, Clone, Copy, PartialEq, Eq, Structural)]
pub struct Node {
    pub node_ref: NodeRef,
    pub bias: i64,
    pub activation: Activation,
}

impl Node {
    /// A node without bias that applies the sigmoid.
    pub fn new(node_ref: NodeRef) -> (node: Node)
        ensures
            node == (Node { node_ref, bias: 0, activation: Activation::Sigmoid }),
    {
        Node { node_ref, bias: 0, activation: Activation::Sigmoid }
    }
}

/// A link between two nodes.
#[derive(Debug, Clone, Copy, PartialEq, Eq, Structural)]
pub struct Link {
    pub from: NodeRef,
    pub to: NodeRef,
    pub weight: i64,
    pub enabled: bool,
    /// A node has been put into the link.
    pub split: bool,
    pub innovation: u64,
}

impl Link {
    /// An enabled link that has not been split.
    pub fn new(from: NodeRef, to: NodeRef, weight: i64, innovation: u64) -> (link: Link)
        ensures
            link == (Link { from, to, weight, enabled: true, split: false, innovation }),
    {
        Link { from, to, weight, enabled: true, split: false, innovation }
    }
}

/// The chance of each kind of mutation when an agent genome mutates, and
/// the size of the weights that mutation deals in.
#[derive(Debug, Clone, Copy, PartialEq, Eq, Structural)]
pub struct AgentMutationConfig {
    pub add_node_probability: Fraction,
    pub add_connection_probability: Fraction,
    pub disable_connection_probability: Fraction,
    pub mutate_link_weight_probability: Fraction,
    /// The largest change of a weight in one mutation.
    pub mutate_link_weight_size: u64,
    /// The largest magnitude of the weight of a new link.
    pub initial_link_weight_size: u64,
}

impl AgentMutationConfig {
    /// The sizes are within the largest step of a weight mutation.
    pub open spec fn is_sound(&self) -> bool {
        self.mutate_link_weight_size <= WEIGHT_STEP_LIMIT && self.initial_link_weight_size <= WEIGHT_STEP_LIMIT
    }
}

/// What an agent genome holds, as mathematical values.
pub struct AgentGenomeModel {
    pub inputs: Seq<Node>,
    pub hidden_nodes: Seq<Node>,
    pub outputs: Seq<Node>,
    pub links: Seq<Link>,
}

/// The genome of an agent.
#[derive(Debug)]
pub struct AgentGenome {
    pub inputs: Vec<Node>,
    pub hidden_nodes: Vec<Node>,
    pub outputs: Vec<Node>,
    pub links: Vec<Link>,
}

impl View for AgentGenome {
    type V = AgentGenomeModel;

    open spec fn view(&self) -> AgentGenomeModel {
        AgentGenomeModel {
            inputs: self.inputs@,
            hidden_nodes: self.hidden_nodes@,
            outputs: self.outputs@,
            links: self.links@,
        }
    }
}

/// `index` is the place of the first node of `nodes` with the name
/// `node_ref`.
pub open spec fn is_place_of(nodes: Seq<Node>, node_ref: NodeRef, index: int) -> bool {
    &&& 0 <= index < nodes.len()
    &&& nodes[index].node_ref == node_ref
    &&& forall|i: int| 0 <= i < index ==> (#[trigger] nodes[i]).node_ref != node_ref
}

/// A node of `nodes` has the name `node_ref`.
pub open spec fn names_node(nodes: Seq<Node>, node_ref: NodeRef) -> bool {
    exists|i: int| 0 <= i < nodes.len() && (#[trigger] nodes[i]).node_ref == node_ref
}

/// A link of `links` leads from `from` to `to`.
pub open spec fn joins(links: Seq<Link>, from: NodeRef, to: NodeRef) -> bool {
    exists|k: int| 0 <= k < links.len() && (#[trigger] links[k]).from == from && links[k].to == to
}

/// `target` can be reached from `start` over at most `steps` enabled
/// links.
pub open spec fn reachable_within(links: Seq<Link>, start: NodeRef, target: NodeRef, steps: nat) -> bool
    decreases steps,
{
    start == target || (steps > 0 && (reachable_within(links, start, target, (steps - 1) as nat) || exists|
        k: int,
    |
        0 <= k < links.len() && (#[trigger] links[k]).enabled && links[k].to == target && reachable_within(
            links,
            start,
            links[k].from,
            (steps - 1) as nat,
        )))
}

/// A link from `from` to `to` would close a cycle: `from` can be reached
/// from `to` over enabled links, none of them used twice.
pub open spec fn closes_cycle(links: Seq<Link>, from: NodeRef, to: NodeRef) -> bool {
    reachable_within(links, to, from, links.len())
}

/// The weight `weight` moved by the step that `draw` picks: `draw` is
/// taken as a fraction of the range from `-size` to `size`, and the
/// result stays within the weight limit.
pub open spec fn moved_weight(weight: int, draw: int, size: int) -> int {
    let step = if draw >= 0x8000_0000 {
        ((draw - 0x8000_0000) * size) / 0x8000_0000
    } else {
        -(((0x8000_0000 - draw) * size) / 0x8000_0000)
    };
    let moved = weight + step;
    if moved > WEIGHT_LIMIT {
        WEIGHT_LIMIT as int
    } else if moved < -WEIGHT_LIMIT {
        -WEIGHT_LIMIT
    } else {
        moved
    }
}

impl AgentGenomeModel {
    /// The node with the name `node_ref`, if its layer holds one.
    pub open spec fn has_node(self, node_ref: NodeRef) -> bool {
        match node_ref {
            NodeRef::Input(_) => names_node(self.inputs, node_ref),
            NodeRef::Hidden(_) => names_node(self.hidden_nodes, node_ref),
            NodeRef::Output(_) => names_node(self.outputs, node_ref),
        }
    }

    /// The layer in which a node with the name `node_ref` stands.
    pub open spec fn layer_of(self, node_ref: NodeRef) -> Seq<Node> {
        match node_ref {
            NodeRef::Input(_) => self.inputs,
            NodeRef::Hidden(_) => self.hidden_nodes,
            NodeRef::Output(_) => self.outputs,
        }
    }

    /// No two links join the same nodes in the same direction, every
    /// link joins nodes of the genome, and every weight is within the
    /// limit.
    pub open spec fn wf(self) -> bool {
        &&& forall|j: int, k: int|
            0 <= j < k < self.links.len() ==> !((#[trigger] self.links[j]).from == (#[trigger] self.links[k]).from
                && self.links[j].to == self.links[k].to)
        &&& forall|k: int|
            0 <= k < self.links.len() ==> self.has_node((#[trigger] self.links[k]).from) && self.has_node(
                self.links[k].to,
            ) && -WEIGHT_LIMIT <= self.links[k].weight <= WEIGHT_LIMIT
    }

    /// The genome with link `index` replaced by `link`.
    pub open spec fn with_link(self, index: int, link: Link) -> AgentGenomeModel {
        AgentGenomeModel { links: self.links.update(index, link), ..self }
    }

    /// The genome with `link` added behind the others.
    pub open spec fn with_new_link(self, link: Link) -> AgentGenomeModel {
        AgentGenomeModel { links: self.links.push(link), ..self }
    }

    /// The genome after a node with the number `new_node_id` has been put
    /// into link `index`: the link is disabled and marked as split; if
    /// the hidden layer has no node of that number yet, the node joins
    /// it, with a link of weight one from the start of the old link and a
    /// link of the old weight to its end.
    pub open spec fn with_split(self, index: int, new_node_id: u64) -> AgentGenomeModel {
        let link = self.links[index];
        let node_ref = NodeRef::Hidden(new_node_id);
        let marked = self.links.update(index, Link { enabled: false, split: true, ..link });
        if names_node(self.hidden_nodes, node_ref) {
            AgentGenomeModel { links: marked, ..self }
        } else {
            AgentGenomeModel {
                hidden_nodes: self.hidden_nodes.push(
                    Node { node_ref, bias: 0, activation: Activation::Sigmoid },
                ),
                links: marked.push(
                    Link {
                        from: link.from,
                        to: node_ref,
                        weight: WEIGHT_ONE,
                        enabled: true,
                        split: false,
                        innovation: 0,
                    },
                ).push(
                    Link {
                        from: node_ref,
                        to: link.to,
                        weight: link.weight,
                        enabled: true,
                        split: false,
                        innovation: 0,
                    },
                ),
                ..self
            }
        }
    }
}

impl AgentGenomeModel {
    /// Link `index` can be split: it is enabled and has not been split
    /// before.
    pub open spec fn can_split(self, index: int) -> bool {
        0 <= index < self.links.len() && self.links[index].enabled && !self.links[index].split
    }

    /// Link `index` is enabled.
    pub open spec fn is_enabled_at(self, index: int) -> bool {
        0 <= index < self.links.len() && self.links[index].enabled
    }

    /// The genome with link `index` disabled.
    pub open spec fn with_disabled(self, index: int) -> AgentGenomeModel {
        self.with_link(index, Link { enabled: false, ..self.links[index] })
    }

    /// The genome with the weight of link `index` moved by the step that
    /// `draw` picks within `size`.
    pub open spec fn with_moved_weight(self, index: int, draw: u32, size: u64) -> AgentGenomeModel {
        self.with_link(
            index,
            Link {
                weight: moved_weight(self.links[index].weight as int, draw as int, size as int) as i64,
                ..self.links[index]
            },
        )
    }

    /// A mutation may join `from` to `to`: `from` is an input or a hidden
    /// node, `to` an output or a hidden node, no link joins them yet, and
    /// a link would close no cycle.
    pub open spec fn can_connect(self, from: NodeRef, to: NodeRef) -> bool {
        &&& names_node(self.inputs, from) || names_node(self.hidden_nodes, from)
        &&& names_node(self.outputs, to) || names_node(self.hidden_nodes, to)
        &&& self.has_node(from)
        &&& self.has_node(to)
        &&& !joins(self.links, from, to)
        &&& !closes_cycle(self.links, from, to)
    }

    /// The genome with a new link from `from` to `to`, of the weight that
    /// `draw` picks within `size`.
    pub open spec fn with_connection(self, from: NodeRef, to: NodeRef, draw: u32, size: u64) -> AgentGenomeModel {
        self.with_new_link(
            Link {
                from,
                to,
                weight: moved_weight(0, draw as int, size as int) as i64,
                enabled: true,
                split: false,
                innovation: 0,
            },
        )
    }
}

/// `after` is `before` with a node put into one of the links that can be
/// split, the node taking the next number of the hidden layer; where no
/// link can be split, `after` is `before`.
pub open spec fn is_node_added(before: AgentGenomeModel, after: AgentGenomeModel) -> bool {
    if exists|k: int| before.can_split(k) {
        exists|k: int|
            before.can_split(k) && after == #[trigger] before.with_split(k, before.hidden_nodes.len() as u64)
    } else {
        after == before
    }
}

/// `after` is `before` with one link more, between two nodes that may be
/// joined and with a weight within `size`, or `before` itself.
pub open spec fn is_connection_added(before: AgentGenomeModel, after: AgentGenomeModel, size: u64) -> bool {
    after == before || exists|from: NodeRef, to: NodeRef, draw: u32|
        before.can_connect(from, to) && after == #[trigger] before.with_connection(from, to, draw, size)
}

/// `after` is `before` with one of its enabled links disabled; where no
/// link is enabled, `after` is `before`.
pub open spec fn is_link_disabled(before: AgentGenomeModel, after: AgentGenomeModel) -> bool {
    if exists|k: int| before.is_enabled_at(k) {
        exists|k: int| before.is_enabled_at(k) && after == #[trigger] before.with_disabled(k)
    } else {
        after == before
    }
}

/// `after` is `before` with the weight of one link moved by a step
/// within `size`; where there is no link, `after` is `before`.
pub open spec fn is_weight_moved(before: AgentGenomeModel, after: AgentGenomeModel, size: u64) -> bool {
    if before.links.len() == 0 {
        after == before
    } else {
        exists|k: int, draw: u32|
            0 <= k < before.links.len() && after == #[trigger] before.with_moved_weight(k, draw, size)
    }
}

/// `states` are the genomes that a mutation passes through: the genome
/// before it, then the genome after each of the four kinds of mutation
/// has had its turn. A kind whose chance is zero is never applied, and a
/// kind that is not applied leaves the genome as it is.
pub open spec fn is_mutation_history(states: Seq<AgentGenomeModel>, config: AgentMutationConfig) -> bool {
    &&& states.len() == 5
    &&& states[1] == states[0] || (config.add_node_probability.bits > 0 && is_node_added(states[0], states[1]))
    &&& states[2] == states[1] || (config.add_connection_probability.bits > 0 && is_connection_added(
        states[1],
        states[2],
        config.initial_link_weight_size,
    ))
    &&& states[3] == states[2] || (config.disable_connection_probability.bits > 0 && is_link_disabled(
        states[2],
        states[3],
    ))
    &&& states[4] == states[3] || (config.mutate_link_weight_probability.bits > 0 && is_weight_moved(
        states[3],
        states[4],
        config.mutate_link_weight_size,
    ))
}

/// `after` can come from `before` by a mutation with the chances and
/// sizes of `config`.
pub open spec fn is_mutation_with(before: AgentGenomeModel, after: AgentGenomeModel, config: AgentMutationConfig) -> bool {
    exists|states: Seq<AgentGenomeModel>|
        #[trigger] is_mutation_history(states, config) && states[0] == before && states[4] == after
}

/// `picks` holds, in order, the places of the links of `links` that
/// satisfy `wanted`.
pub open spec fn picks_all(links: Seq<Link>, picks: Seq<usize>, wanted: spec_fn(Link) -> bool) -> bool {
    &&& forall|n: int| 0 <= n < picks.len() ==> (#[trigger] picks[n]) < links.len() && wanted(links[picks[n] as int])
    &&& forall|m: int, n: int| 0 <= m < n < picks.len() ==> (#[trigger] picks[m]) < (#[trigger] picks[n])
    &&& forall|k: int| 0 <= k < links.len() && wanted(#[trigger] links[k]) ==> picks.contains(k as usize)
}

/// The place of the first node of `nodes` with the name `node_ref`.
fn find_node(nodes: &Vec<Node>, node_ref: NodeRef) -> (place: Option<usize>)
    ensures
        match place {
            Some(index) => is_place_of(nodes@, node_ref, index as int),
            None => !names_node(nodes@, node_ref),
        },
{
    let mut i: usize = 0;
    while i < nodes.len()
        invariant
            i <= nodes@.len(),
            forall|k: int| 0 <= k < i ==> (#[trigger] nodes@[k]).node_ref != node_ref,
        decreases nodes@.len() - i,
    {
        if nodes[i].node_ref == node_ref {
            return Some(i);
        }
        i += 1;
    }
    None
}

/// Whether `names` holds `node_ref`.
fn holds_name(names: &Vec<NodeRef>, node_ref: NodeRef) -> (held: bool)
    ensures
        held == names@.contains(node_ref),
{
    let mut i: usize = 0;
    while i < names.len()
        invariant
            i <= names@.len(),
            forall|k: int| 0 <= k < i ==> names@[k] != node_ref,
        decreases names@.len() - i,
    {
        if names[i] == node_ref {
            return true;
        }
        i += 1;
    }
    false
}

/// The weight `weight` moved by the step that `draw` picks within
/// `size`.
pub fn weight_after_step(weight: i64, draw: u32, size: u64) -> (moved: i64)
    requires
        -WEIGHT_LIMIT <= weight <= WEIGHT_LIMIT,
        size <= WEIGHT_STEP_LIMIT,
    ensures
        moved == moved_weight(weight as int, draw as int, size as int),
        -WEIGHT_LIMIT <= moved <= WEIGHT_LIMIT,
{
    let distance: u64 = if draw >= 0x8000_0000 {
        (draw - 0x8000_0000) as u64
    } else {
        (0x8000_0000 - draw) as u64
    };
    proof {
        lemma_step_bound(distance as int, size as int);
    }
    let step: u128 = (distance as u128 * size as u128) / 0x8000_0000;
    let moved: i64 = if draw >= 0x8000_0000 {
        weight + step as i64
    } else {
        weight - step as i64
    };
    if moved > WEIGHT_LIMIT {
        WEIGHT_LIMIT
    } else if moved < -WEIGHT_LIMIT {
        -WEIGHT_LIMIT
    } else {
        moved
    }
}

/// A step is no longer than the size that bounds it.
pub proof fn lemma_step_bound(distance: int, size: int)
    by (nonlinear_arith)
    requires
        0 <= distance <= 0x8000_0000,
        0 <= size <= 0x100_0000_0000,
    ensures
        0 <= distance * size <= 0x8000_0000 * 0x100_0000_0000,
        0 <= (distance * size) / 0x8000_0000 <= size,
{
}

impl Clone for AgentGenome {
    /// A copy with the same nodes and links.
    fn clone(&self) -> (copy: AgentGenome)
        ensures
            copy@ == self@,
    {
        let inputs = self.inputs.clone();
        let hidden_nodes = self.hidden_nodes.clone();
        let outputs = self.outputs.clone();
        let links = self.links.clone();
        assert(inputs@ =~= self.inputs@);
        assert(hidden_nodes@ =~= self.hidden_nodes@);
        assert(outputs@ =~= self.outputs@);
        assert(links@ =~= self.links@);
        AgentGenome { inputs, hidden_nodes, outputs, links }
    }
}

impl AgentGenome {
    /// The genome with the given nodes and links.
    pub fn new(inputs: Vec<Node>, hidden_nodes: Vec<Node>, outputs: Vec<Node>, links: Vec<Link>) -> (genome:
        AgentGenome)
        ensures
            genome@ == (AgentGenomeModel {
                inputs: inputs@,
                hidden_nodes: hidden_nodes@,
                outputs: outputs@,
                links: links@,
            }),
    {
        AgentGenome { inputs, hidden_nodes, outputs, links }
    }

    /// The number of links: the size of the genome that the queues
    /// report.
    pub fn size(&self) -> (size: usize)
        ensures
            size == self.links@.len(),
    {
        self.links.len()
    }

    /// The place of the node with the name `node_ref` in its layer.
    fn place_of(&self, node_ref: &NodeRef) -> (place: Option<usize>)
        ensures
            match place {
                Some(index) => is_place_of(self@.layer_of(*node_ref), *node_ref, index as int),
                None => !self@.has_node(*node_ref),
            },
    {
        match node_ref {
            NodeRef::Input(_) => find_node(&self.inputs, *node_ref),
            NodeRef::Hidden(_) => find_node(&self.hidden_nodes, *node_ref),
            NodeRef::Output(_) => find_node(&self.outputs, *node_ref),
        }
    }

    /// The activation of the node with the name `node_ref`.
    pub fn get_activation(&self, node_ref: &NodeRef) -> (activation: Activation)
        requires
            self@.has_node(*node_ref),
        ensures
            exists|index: int| #[trigger]
                is_place_of(self@.layer_of(*node_ref), *node_ref, index) && activation == self@.layer_of(
                    *node_ref,
                )[index].activation,
    {
        match self.place_of(node_ref) {
            Some(index) => match node_ref {
                NodeRef::Input(_) => self.inputs[index].activation,
                NodeRef::Hidden(_) => self.hidden_nodes[index].activation,
                NodeRef::Output(_) => self.outputs[index].activation,
            },
            None => Activation::Linear,
        }
    }

    /// The bias of the node with the name `node_ref`.
    pub fn get_bias(&self, node_ref: &NodeRef) -> (bias: i64)
        requires
            self@.has_node(*node_ref),
        ensures
            exists|index: int| #[trigger]
                is_place_of(self@.layer_of(*node_ref), *node_ref, index) && bias == self@.layer_of(
                    *node_ref,
                )[index].bias,
    {
        match self.place_of(node_ref) {
            Some(index) => match node_ref {
                NodeRef::Input(_) => self.inputs[index].bias,
                NodeRef::Hidden(_) => self.hidden_nodes[index].bias,
                NodeRef::Output(_) => self.outputs[index].bias,
            },
            None => 0,
        }
    }

    /// The places of the links that can be split: enabled and not split
    /// before.
    pub fn splittable_links(&self) -> (picks: Vec<usize>)
        ensures
            picks_all(self.links@, picks@, |link: Link| link.enabled && !link.split),
    {
        let mut picks: Vec<usize> = Vec::new();
        let mut k: usize = 0;
        while k < self.links.len()
            invariant
                k <= self.links@.len(),
                forall|n: int|
                    0 <= n < picks@.len() ==> (#[trigger] picks@[n]) < k && self.links@[picks@[n] as int].enabled
                        && !self.links@[picks@[n] as int].split,
                forall|m: int, n: int| 0 <= m < n < picks@.len() ==> (#[trigger] picks@[m]) < (#[trigger] picks@[n]),
                forall|i: int|
                    0 <= i < k && (#[trigger] self.links@[i]).enabled && !self.links@[i].split ==> picks@.contains(
                        i as usize,
                    ),
            decreases self.links@.len() - k,
        {
            if self.links[k].enabled && !self.links[k].split {
                let ghost before = picks@;
                picks.push(k);
                proof {
                    assert(picks@[before.len() as int] == k);
                    assert forall|i: int|
                        0 <= i < k + 1 && (#[trigger] self.links@[i]).enabled && !self.links@[i].split implies picks@.contains(
                        i as usize,
                    ) by {
                        if i < k {
                            let at = choose|at: int| 0 <= at < before.len() && before[at] == i as usize;
                            assert(picks@[at] == i as usize);
                        }
                    }
                }
            }
            k += 1;
        }
        picks
    }

    /// The places of the enabled links.
    pub fn enabled_links(&self) -> (picks: Vec<usize>)
        ensures
            picks_all(self.links@, picks@, |link: Link| link.enabled),
    {
        let mut picks: Vec<usize> = Vec::new();
        let mut k: usize = 0;
        while k < self.links.len()
            invariant
                k <= self.links@.len(),
                forall|n: int| 0 <= n < picks@.len() ==> (#[trigger] picks@[n]) < k && self.links@[picks@[n] as int].enabled,
                forall|m: int, n: int| 0 <= m < n < picks@.len() ==> (#[trigger] picks@[m]) < (#[trigger] picks@[n]),
                forall|i: int| 0 <= i < k && (#[trigger] self.links@[i]).enabled ==> picks@.contains(i as usize),
            decreases self.links@.len() - k,
        {
            if self.links[k].enabled {
                let ghost before = picks@;
                picks.push(k);
                proof {
                    assert(picks@[before.len() as int] == k);
                    assert forall|i: int| 0 <= i < k + 1 && (#[trigger] self.links@[i]).enabled implies picks@.contains(
                        i as usize,
                    ) by {
                        if i < k {
                            let at = choose|at: int| 0 <= at < before.len() && before[at] == i as usize;
                            assert(picks@[at] == i as usize);
                        }
                    }
                }
            }
            k += 1;
        }
        picks
    }

    /// Puts a node with the number `new_node_id` into link `index`.
    pub fn split_link(&mut self, index: usize, new_node_id: u64)
        requires
            old(self)@.wf(),
            index < old(self).links@.len(),
            old(self).links@[index as int].enabled,
        ensures
            final(self)@ == old(self)@.with_split(index as int, new_node_id),
            final(self)@.wf(),
    {
        let link = self.links[index];
        let mut marked = link;
        marked.enabled = false;
        marked.split = true;
        self.links[index] = marked;
        let new_node_ref = NodeRef::Hidden(new_node_id);
        proof {
            assert forall|k: int| 0 <= k < self.links@.len() implies self@.has_node((#[trigger] self.links@[k]).from)
                && self@.has_node(self.links@[k].to) by {
                assert(old(self)@.has_node(old(self).links@[k].from));
                assert(old(self)@.has_node(old(self).links@[k].to));
            }
        }
        if find_node(&self.hidden_nodes, new_node_ref).is_some() {
            return ;
        }
        let ghost nodes_before = self.hidden_nodes@;
        self.hidden_nodes.push(Node::new(new_node_ref));
        let link1 = Link::new(link.from, new_node_ref, WEIGHT_ONE, 0);
        let link2 = Link::new(new_node_ref, link.to, link.weight, 0);
        let ghost marked_links = self.links@;
        self.links.push(link1);
        self.links.push(link2);
        proof {
            assert(self.hidden_nodes@[nodes_before.len() as int].node_ref == new_node_ref);
            assert(self@.has_node(new_node_ref));
            assert forall|node_ref: NodeRef| old(self)@.has_node(node_ref) implies self@.has_node(node_ref) by {
                match node_ref {
                    NodeRef::Hidden(_) => {
                        let i = choose|i: int|
                            0 <= i < nodes_before.len() && (#[trigger] nodes_before[i]).node_ref == node_ref;
                        assert(self.hidden_nodes@[i].node_ref == node_ref);
                    },
                    _ => {},
                }
            }
            assert(!old(self)@.has_node(new_node_ref));
            assert(old(self)@.has_node(link.from));
            assert(old(self)@.has_node(link.to));
            assert forall|k: int| 0 <= k < marked_links.len() implies (#[trigger] marked_links[k]).from
                != new_node_ref && marked_links[k].to != new_node_ref by {
                assert(old(self)@.has_node(old(self).links@[k].from));
                assert(old(self)@.has_node(old(self).links@[k].to));
            }
            assert(self@ == old(self)@.with_split(index as int, new_node_id));
        }
    }

    /// Puts `link` into the genome: in the place of the link that joins
    /// the same nodes, or behind the others where there is none.
    pub fn insert_link(&mut self, link: Link)
        requires
            old(self)@.wf(),
            old(self)@.has_node(link.from),
            old(self)@.has_node(link.to),
            -WEIGHT_LIMIT <= link.weight <= WEIGHT_LIMIT,
        ensures
            final(self)@.wf(),
            joins(old(self).links@, link.from, link.to) ==> exists|k: int|
                0 <= k < old(self).links@.len() && old(self).links@[k].from == link.from && old(self).links@[k].to == link.to && final(self)@ == #[trigger] old(self)@.with_link(k, link),
            !joins(old(self).links@, link.from, link.to) ==> final(self)@ == old(self)@.with_new_link(link),
    {
        let mut k: usize = 0;
        while k < self.links.len()
            invariant
                self@ == old(self)@,
                old(self)@.wf(),
                old(self)@.has_node(link.from),
                old(self)@.has_node(link.to),
                -WEIGHT_LIMIT <= link.weight <= WEIGHT_LIMIT,
                k <= self.links@.len(),
                forall|i: int|
                    0 <= i < k ==> !((#[trigger] self.links@[i]).from == link.from && self.links@[i].to
                        == link.to),
            decreases self.links@.len() - k,
        {
            if self.links[k].from == link.from && self.links[k].to == link.to {
                self.links[k] = link;
                proof {
                    assert(self@ == old(self)@.with_link(k as int, link));
                    assert forall|i: int| 0 <= i < self.links@.len() implies self@.has_node(
                        (#[trigger] self.links@[i]).from,
                    ) && self@.has_node(self.links@[i].to) by {
                        assert(old(self)@.has_node(old(self).links@[i].from));
                        assert(old(self)@.has_node(old(self).links@[i].to));
                    }
                }
                return ;
            }
            k += 1;
        }
        self.links.push(link);
    }

    /// Disables link `index`.
    pub fn disable_link(&mut self, index: usize)
        requires
            old(self)@.wf(),
            index < old(self).links@.len(),
        ensures
            final(self)@.wf(),
            final(self)@ == old(self)@.with_link(
                index as int,
                (Link { enabled: false, ..old(self).links@[index as int] }),
            ),
    {
        let mut link = self.links[index];
        link.enabled = false;
        self.links[index] = link;
        proof {
            assert forall|k: int| 0 <= k < self.links@.len() implies self@.has_node((#[trigger] self.links@[k]).from)
                && self@.has_node(self.links@[k].to) by {
                assert(old(self)@.has_node(old(self).links@[k].from));
                assert(old(self)@.has_node(old(self).links@[k].to));
            }
        }
    }

    /// Moves the weight of link `index` by the step that `draw` picks
    /// within `size`.
    pub fn move_link_weight(&mut self, index: usize, draw: u32, size: u64)
        requires
            old(self)@.wf(),
            index < old(self).links@.len(),
            size <= WEIGHT_STEP_LIMIT,
        ensures
            final(self)@.wf(),
            final(self)@ == old(self)@.with_link(
                index as int,
                (Link {
                    weight: moved_weight(old(self).links@[index as int].weight as int, draw as int, size as int) as i64,
                    ..old(self).links@[index as int]
                }),
            ),
    {
        let mut link = self.links[index];
        link.weight = weight_after_step(link.weight, draw, size);
        self.links[index] = link;
        proof {
            assert forall|k: int| 0 <= k < self.links@.len() implies self@.has_node((#[trigger] self.links@[k]).from)
                && self@.has_node(self.links@[k].to) by {
                assert(old(self)@.has_node(old(self).links@[k].from));
                assert(old(self)@.has_node(old(self).links@[k].to));
            }
        }
    }

    /// Adds a link from `from` to `to` with the weight that `draw` picks
    /// within `size`, unless such a link exists or would close a cycle.
    /// The result tells whether the link was added.
    pub fn connect(&mut self, from: NodeRef, to: NodeRef, draw: u32, size: u64) -> (added: bool)
        requires
            old(self)@.wf(),
            old(self)@.has_node(from),
            old(self)@.has_node(to),
            size <= WEIGHT_STEP_LIMIT,
        ensures
            final(self)@.wf(),
            added == (!joins(old(self).links@, from, to) && !closes_cycle(old(self).links@, from, to)),
            added ==> final(self)@ == old(self)@.with_new_link(
                Link {
                    from,
                    to,
                    weight: moved_weight(0, draw as int, size as int) as i64,
                    enabled: true,
                    split: false,
                    innovation: 0,
                },
            ),
            !added ==> final(self)@ == old(self)@,
    {
        if self.has_link(from, to) || self.creates_cycle(from, to) {
            return false;
        }
        let link = Link::new(from, to, weight_after_step(0, draw, size), 0);
        self.insert_link(link);
        true
    }

    /// `after` can come from `before` by one mutation: it is well
    /// formed, its input and output layers are the same, and it has at
    /// most one more hidden node and three more links, none fewer.
    pub open spec fn is_mutation(before: AgentGenomeModel, after: AgentGenomeModel) -> bool {
        &&& after.wf()
        &&& after.inputs == before.inputs
        &&& after.outputs == before.outputs
        &&& before.hidden_nodes.len() <= after.hidden_nodes.len() <= before.hidden_nodes.len() + 1
        &&& before.links.len() <= after.links.len() <= before.links.len() + 3
    }

    /// Mutates the genome: with the chances that `config` gives, a node
    /// is put into a link picked at random, two nodes picked at random
    /// are joined (up to fifty pairs are tried), an enabled link picked at
    /// random is disabled, and the weight of a link picked at random
    /// moves. A kind of mutation whose chance is zero is never applied.
    pub fn mutate(&mut self, config: &AgentMutationConfig)
        requires
            old(self)@.wf(),
            config.is_sound(),
        ensures
            Self::is_mutation(old(self)@, final(self)@),
            is_mutation_with(old(self)@, final(self)@, *config),
    {
        if Fraction::from_bits(random_bits()).less_than(&config.add_node_probability) {
            self.mutation_add_node();
        }
        let ghost with_node = self@;
        if Fraction::from_bits(random_bits()).less_than(&config.add_connection_probability) {
            self.mutation_add_connection(config.initial_link_weight_size);
        }
        let ghost with_connection = self@;
        if Fraction::from_bits(random_bits()).less_than(&config.disable_connection_probability) {
            self.mutation_disable_connection();
        }
        let ghost with_disabled = self@;
        if Fraction::from_bits(random_bits()).less_than(&config.mutate_link_weight_probability) {
            self.mutate_link_weight(config.mutate_link_weight_size);
        }
        proof {
            let states = seq![old(self)@, with_node, with_connection, with_disabled, self@];
            assert(is_mutation_history(states, *config));
            assert(states[0] == old(self)@ && states[4] == self@);
        }
    }

    /// Moves the weight of a link picked at random.
    fn mutate_link_weight(&mut self, size: u64)
        requires
            old(self)@.wf(),
            size <= WEIGHT_STEP_LIMIT,
        ensures
            final(self)@.wf(),
            final(self).inputs@ == old(self).inputs@,
            final(self).outputs@ == old(self).outputs@,
            final(self).hidden_nodes@ == old(self).hidden_nodes@,
            final(self).links@.len() == old(self).links@.len(),
            is_weight_moved(old(self)@, final(self)@, size),
    {
        if self.links.len() > 0 {
            let index = random_below(self.links.len());
            let draw = random_bits();
            self.move_link_weight(index, draw, size);
            assert(self@ == old(self)@.with_moved_weight(index as int, draw, size));
        }
    }

    /// Puts a node into a link picked at random among those that can be
    /// split; the node gets the next number of the hidden layer.
    fn mutation_add_node(&mut self)
        requires
            old(self)@.wf(),
        ensures
            final(self)@.wf(),
            final(self).inputs@ == old(self).inputs@,
            final(self).outputs@ == old(self).outputs@,
            old(self).hidden_nodes@.len() <= final(self).hidden_nodes@.len() <= old(self).hidden_nodes@.len() + 1,
            old(self).links@.len() <= final(self).links@.len() <= old(self).links@.len() + 2,
            is_node_added(old(self)@, final(self)@),
    {
        let picks = self.splittable_links();
        match random_choice(&picks) {
            Some(index) => {
                let new_node_id = self.hidden_nodes.len() as u64;
                self.split_link(index, new_node_id);
                proof {
                    let n = choose|n: int| 0 <= n < picks@.len() && picks@[n] == index;
                    assert(picks@[n] < old(self).links@.len());
                    assert(old(self)@.can_split(index as int));
                    assert(self@ == old(self)@.with_split(index as int, old(self)@.hidden_nodes.len() as u64));
                }
            },
            None => {
                assert forall|k: int| !old(self)@.can_split(k) by {
                    if old(self)@.can_split(k) {
                        assert(picks@.contains(k as usize));
                    }
                }
            },
        }
    }

    /// Joins two nodes picked at random, the first among the inputs and
    /// the hidden nodes, the second among the outputs and the hidden
    /// nodes; up to fifty pairs are tried until one can be joined.
    fn mutation_add_connection(&mut self, size: u64)
        requires
            old(self)@.wf(),
            size <= WEIGHT_STEP_LIMIT,
        ensures
            final(self)@.wf(),
            final(self).inputs@ == old(self).inputs@,
            final(self).outputs@ == old(self).outputs@,
            final(self).hidden_nodes@ == old(self).hidden_nodes@,
            old(self).links@.len() <= final(self).links@.len() <= old(self).links@.len() + 1,
            is_connection_added(old(self)@, final(self)@, size),
    {
        let sources: usize = self.inputs.len().saturating_add(self.hidden_nodes.len());
        let targets: usize = self.hidden_nodes.len().saturating_add(self.outputs.len());
        if sources == 0 || targets == 0 {
            return ;
        }
        let mut tries: u32 = 0;
        let mut added = false;
        while tries < 50 && !added
            invariant
                self@.wf(),
                self.inputs@ == old(self).inputs@,
                self.outputs@ == old(self).outputs@,
                self.hidden_nodes@ == old(self).hidden_nodes@,
                sources > 0,
                targets > 0,
                size <= WEIGHT_STEP_LIMIT,
                sources <= self.inputs@.len() + self.hidden_nodes@.len(),
                targets <= self.hidden_nodes@.len() + self.outputs@.len(),
                !added ==> self@ == old(self)@,
                added ==> self.links@.len() == old(self).links@.len() + 1,
                added ==> is_connection_added(old(self)@, self@, size),
            decreases 50 - tries, (if added { 0int } else { 1int }),
        {
            let from_index = random_below(sources);
            let to_index = random_below(targets);
            let from = if from_index < self.inputs.len() {
                self.inputs[from_index].node_ref
            } else {
                self.hidden_nodes[from_index - self.inputs.len()].node_ref
            };
            let to = if to_index < self.outputs.len() {
                self.outputs[to_index].node_ref
            } else {
                self.hidden_nodes[to_index - self.outputs.len()].node_ref
            };
            if self.place_of(&from).is_some() && self.place_of(&to).is_some() {
                let draw = random_bits();
                added = self.connect(from, to, draw, size);
                proof {
                    if added {
                        assert(old(self)@.can_connect(from, to));
                        assert(self@ == old(self)@.with_connection(from, to, draw, size));
                    }
                }
            }
            tries += 1;
        }
    }

    /// Disables an enabled link picked at random.
    fn mutation_disable_connection(&mut self)
        requires
            old(self)@.wf(),
        ensures
            final(self)@.wf(),
            final(self).inputs@ == old(self).inputs@,
            final(self).outputs@ == old(self).outputs@,
            final(self).hidden_nodes@ == old(self).hidden_nodes@,
            final(self).links@.len() == old(self).links@.len(),
            is_link_disabled(old(self)@, final(self)@),
    {
        let picks = self.enabled_links();
        match random_choice(&picks) {
            Some(index) => {
                self.disable_link(index);
                proof {
                    let n = choose|n: int| 0 <= n < picks@.len() && picks@[n] == index;
                    assert(picks@[n] < old(self).links@.len());
                    assert(old(self)@.is_enabled_at(index as int));
                    assert(self@ == old(self)@.with_disabled(index as int));
                }
            },
            None => {
                assert forall|k: int| !old(self)@.is_enabled_at(k) by {
                    if old(self)@.is_enabled_at(k) {
                        assert(picks@.contains(k as usize));
                    }
                }
            },
        }
    }

    /// Whether a link leads from `from` to `to`.
    pub fn has_link(&self, from: NodeRef, to: NodeRef) -> (joined: bool)
        ensures
            joined == joins(self.links@, from, to),
    {
        let mut k: usize = 0;
        while k < self.links.len()
            invariant
                k <= self.links@.len(),
                forall|i: int| 0 <= i < k ==> !((#[trigger] self.links@[i]).from == from && self.links@[i].to == to),
            decreases self.links@.len() - k,
        {
            if self.links[k].from == from && self.links[k].to == to {
                return true;
            }
            k += 1;
        }
        false
    }

    /// Whether a link from `from` to `to` would close a cycle of enabled
    /// links.
    pub fn creates_cycle(&self, from: NodeRef, to: NodeRef) -> (cyclic: bool)
        ensures
            cyclic == closes_cycle(self.links@, from, to),
    {
        let mut reached: Vec<NodeRef> = Vec::new();
        reached.push(to);
        proof {
            assert(reached@[0] == to);
            assert forall|node: NodeRef| #[trigger] reached@.contains(node) <==> reachable_within(
                self.links@,
                to,
                node,
                0,
            ) by {
                if reached@.contains(node) {
                    let at = choose|at: int| 0 <= at < reached@.len() && reached@[at] == node;
                }
            }
        }
        let mut steps: usize = 0;
        while steps < self.links.len()
            invariant
                steps <= self.links@.len(),
                forall|node: NodeRef| #[trigger]
                    reached@.contains(node) <==> reachable_within(self.links@, to, node, steps as nat),
            decreases self.links@.len() - steps,
        {
            let mut next: Vec<NodeRef> = reached.clone();
            assert(next@ =~= reached@);
            let mut k: usize = 0;
            while k < self.links.len()
                invariant
                    k <= self.links@.len(),
                    steps < self.links@.len(),
                    forall|node: NodeRef| #[trigger]
                        reached@.contains(node) <==> reachable_within(self.links@, to, node, steps as nat),
                    forall|node: NodeRef| #[trigger]
                        next@.contains(node) <==> (reached@.contains(node) || exists|i: int|
                            0 <= i < k && (#[trigger] self.links@[i]).enabled && self.links@[i].to == node
                                && reached@.contains(self.links@[i].from)),
                decreases self.links@.len() - k,
            {
                let link = self.links[k];
                let ghost before = next@;
                if link.enabled && holds_name(&reached, link.from) && !holds_name(&next, link.to) {
                    next.push(link.to);
                }
                proof {
                    assert forall|node: NodeRef| #[trigger] next@.contains(node) <==> (reached@.contains(node)
                        || exists|i: int|
                        0 <= i < k + 1 && (#[trigger] self.links@[i]).enabled && self.links@[i].to == node
                            && reached@.contains(self.links@[i].from)) by {
                        if next@.len() > before.len() {
                            assert(next@ == before.push(link.to));
                            assert(next@.last() == link.to);
                            if before.contains(node) {
                                let at = choose|at: int| 0 <= at < before.len() && before[at] == node;
                                assert(next@[at] == node);
                            }
                            if next@.contains(node) && node != link.to {
                                let at = choose|at: int| 0 <= at < next@.len() && next@[at] == node;
                                assert(before[at] == node);
                            }
                        }
                        if node == link.to && link.enabled && reached@.contains(link.from) {
                            assert(self.links@[k as int].enabled);
                        }
                    }
                }
                k += 1;
            }
            reached = next;
            steps += 1;
        }
        holds_name(&reached, from)
    }
}

} // verus!
