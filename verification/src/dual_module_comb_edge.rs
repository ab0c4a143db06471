//! An edge of the combinatorial dual module.
//!
//! The edge has one register, its weight. Its signals are functions of the
//! registers and signals of its two vertices; each is computed when it is
//! first asked for and kept until the registers change.

use crate::dual_module_comb::DualModuleCombDriver;
use crate::dual_module_comb::VIRTUAL_NODE_INDEX;
use crate::dual_module_rtl::EdgeIndex;
use crate::dual_module_rtl::Instruction;
use crate::dual_module_rtl::NodeIndex;
use crate::dual_module_rtl::VertexIndex;
use crate::dual_module_rtl::Weight;
use crate::util::CompactNodeIndex;
use crate::util::CompactNodeNum;
use crate::util::CompactObstacle;
use crate::util::CompactVertexIndex;
use crate::util::CompactVertexNum;
use crate::util::CompactWeight;
use vstd::prelude::*;

verus! {

/// An edge between two vertices, with the weight it was made with, its
/// register and the signals computed so far.
pub struct Edge {
    pub edge_index: EdgeIndex,
    pub default_weight: Weight,
    pub left_index: VertexIndex,
    pub right_index: VertexIndex,
    pub registers: EdgeRegisters,
    pub signals: EdgeCombSignals,
}

/// The register of an edge: its weight in the current decoding.
#[derive(Clone, Copy, Debug)]
pub struct EdgeRegisters {
    pub weight: Weight,
}

/// The signals of an edge that have been computed in the current cycle.
#[derive(Clone, Copy, Debug)]
pub struct EdgeCombSignals {
    pub post_fetch_is_tight: Option<bool>,
    pub do_pre_matching: Option<bool>,
    pub post_execute_is_tight: Option<bool>,
    pub response: Option<CompactObstacle>,
}

impl EdgeRegisters {
    /// The register of an edge of the given weight.
    pub fn new(weight: Weight) -> (registers: Self)
        ensures
            registers.weight == weight,
    {
        Self { weight }
    }
}

impl EdgeCombSignals {
    /// No signal has been computed yet.
    pub fn new() -> (signals: Self)
        ensures
            signals == Self::blank(),
    {
        Self {
            post_fetch_is_tight: None,
            do_pre_matching: None,
            post_execute_is_tight: None,
            response: None,
        }
    }

    /// the signals that `new` returns
    pub open spec fn blank() -> Self {
        EdgeCombSignals {
            post_fetch_is_tight: None,
            do_pre_matching: None,
            post_execute_is_tight: None,
            response: None,
        }
    }
}

/// The node as the primal side knows it: none for the index that stands for
/// a virtual vertex.
pub open spec fn spec_node_mapper(node_index: NodeIndex) -> Option<CompactNodeIndex> {
    if node_index != VIRTUAL_NODE_INDEX {
        Some(CompactNodeIndex(node_index as CompactNodeNum))
    } else {
        None
    }
}

/// an optional node as the primal side knows it
pub open spec fn spec_map_node(node_index: Option<NodeIndex>) -> Option<CompactNodeIndex> {
    match node_index {
        Some(index) => spec_node_mapper(index),
        None => None,
    }
}

/// the node fits a compact node index, unless it stands for a virtual vertex
pub open spec fn mappable(node_index: Option<NodeIndex>) -> bool {
    node_index matches Some(index) ==> index == VIRTUAL_NODE_INDEX || index <= CompactNodeNum::MAX
}

fn map_node(node_index: Option<NodeIndex>) -> (mapped: Option<CompactNodeIndex>)
    requires
        mappable(node_index),
    ensures
        mapped == spec_map_node(node_index),
{
    match node_index {
        Some(index) => {
            if index != VIRTUAL_NODE_INDEX {
                Some(CompactNodeIndex::new(index as CompactNodeNum))
            } else {
                None
            }
        },
        None => None,
    }
}

impl Edge {
    /// An edge of the given weight between two vertices, with no signal
    /// computed yet.
    pub fn new(
        edge_index: EdgeIndex,
        left_index: VertexIndex,
        right_index: VertexIndex,
        weight: Weight,
    ) -> (edge: Self)
        ensures
            edge == (Edge {
                edge_index,
                default_weight: weight,
                left_index,
                right_index,
                registers: EdgeRegisters { weight },
                signals: EdgeCombSignals::blank(),
            }),
    {
        Self {
            edge_index,
            default_weight: weight,
            left_index,
            right_index,
            registers: EdgeRegisters::new(weight),
            signals: EdgeCombSignals::new(),
        }
    }

    /// Sets the weight back to the weight that the edge was made with.
    pub fn clear(&mut self)
        ensures
            *final(self) == (Edge {
                registers: EdgeRegisters { weight: old(self).default_weight },
                signals: EdgeCombSignals::blank(),
                ..*old(self)
            }),
    {
        self.registers = EdgeRegisters::new(self.default_weight);
        self.register_updated();
    }

    /// Forgets the signals, which are to be computed anew once a register
    /// has changed.
    pub fn register_updated(&mut self)
        ensures
            *final(self) == (Edge { signals: EdgeCombSignals::blank(), ..*old(self) }),
    {
        self.signals = EdgeCombSignals::new();
    }

    /// the vertex is one of the two that the edge joins
    pub open spec fn incident(&self, vertex: VertexIndex) -> bool {
        vertex == self.left_index || vertex == self.right_index
    }

    /// the vertex at the other end of the edge
    pub open spec fn spec_get_peer(&self, vertex: VertexIndex) -> VertexIndex {
        if vertex == self.left_index {
            self.right_index
        } else {
            self.left_index
        }
    }

    /// The vertex at the other end of the edge.
    #[verifier::when_used_as_spec(spec_get_peer)]
    pub fn get_peer(&self, vertex: VertexIndex) -> (peer: VertexIndex)
        requires
            self.incident(vertex),
        ensures
            peer == self.spec_get_peer(vertex),
    {
        if vertex == self.left_index {
            self.right_index
        } else {
            self.left_index
        }
    }

    /// Both vertices of the edge are vertices of the driver, and the sums
    /// that the signals take of their dual variables can be computed.
    pub open spec fn readable(&self, dual_module: &DualModuleCombDriver) -> bool {
        &&& self.left_index < dual_module.vertices@.len()
        &&& self.right_index < dual_module.vertices@.len()
        &&& {
            let left = dual_module.vertices@[self.left_index as int];
            let right = dual_module.vertices@[self.right_index as int];
            &&& isize::MIN <= left.registers.grown + right.registers.grown <= isize::MAX
            &&& isize::MIN <= left.signals.post_execute_state.grown
                + right.signals.post_execute_state.grown <= isize::MAX
            &&& isize::MIN <= self.registers.weight - left.signals.post_update_state.grown
                - right.signals.post_update_state.grown <= isize::MAX
            &&& isize::MIN <= self.registers.weight - left.signals.post_update_state.grown
                <= isize::MAX
        }
    }

    /// Every signal that has been computed is the signal of this cycle.
    pub open spec fn signals_agree(&self, dual_module: &DualModuleCombDriver) -> bool {
        &&& self.signals.post_fetch_is_tight matches Some(tight) ==> tight
            == self.spec_post_fetch_is_tight(dual_module)
        &&& self.signals.do_pre_matching matches Some(matching) ==> matching
            == self.pre_matching_condition(dual_module)
        &&& self.signals.post_execute_is_tight matches Some(tight) ==> tight
            == self.spec_post_execute_is_tight(dual_module)
        &&& self.signals.response matches Some(response) ==> response == self.spec_response(
            dual_module,
        )
    }

    /// the registers of the two vertices cover the edge
    pub open spec fn spec_post_fetch_is_tight(&self, dual_module: &DualModuleCombDriver) -> bool {
        dual_module.vertices@[self.left_index as int].registers.grown
            + dual_module.vertices@[self.right_index as int].registers.grown
            >= self.registers.weight
    }

    /// both vertices permit pre-matching
    pub open spec fn both_permit(&self, dual_module: &DualModuleCombDriver) -> bool {
        dual_module.vertices@[self.left_index as int].signals.permit_pre_matching
            && dual_module.vertices@[self.right_index as int].signals.permit_pre_matching
    }

    /// Both vertices permit pre-matching, the edge between them is tight,
    /// and they belong to different nodes.
    pub open spec fn pre_matching_condition(&self, dual_module: &DualModuleCombDriver) -> bool {
        let left = dual_module.vertices@[self.left_index as int];
        let right = dual_module.vertices@[self.right_index as int];
        self.both_permit(dual_module) && self.spec_post_fetch_is_tight(dual_module)
            && left.registers.node_index != right.registers.node_index
    }

    /// Whether the edge matches its two vertices without the primal module:
    /// never unless the driver uses pre-matching, else exactly where the
    /// condition for pre-matching holds.
    pub open spec fn spec_do_pre_matching(&self, dual_module: &DualModuleCombDriver) -> bool {
        dual_module.use_pre_matching && self.pre_matching_condition(dual_module)
    }

    /// the dual variables of the two vertices after the execute stage cover
    /// the edge
    pub open spec fn spec_post_execute_is_tight(&self, dual_module: &DualModuleCombDriver) -> bool {
        dual_module.vertices@[self.left_index as int].signals.post_execute_state.grown
            + dual_module.vertices@[self.right_index as int].signals.post_execute_state.grown
            >= self.registers.weight
    }

    /// what is left of the weight once the dual variables of the two
    /// vertices after the update stage are taken off
    pub open spec fn spec_remaining(&self, dual_module: &DualModuleCombDriver) -> int {
        self.registers.weight
            - dual_module.vertices@[self.left_index as int].signals.post_update_state.grown
            - dual_module.vertices@[self.right_index as int].signals.post_update_state.grown
    }

    /// the speed at which the two vertices together cover the edge
    pub open spec fn joint_speed(&self, dual_module: &DualModuleCombDriver) -> int {
        dual_module.vertices@[self.left_index as int].signals.shadow_node.speed.spec_speed()
            + dual_module.vertices@[self.right_index as int].signals.shadow_node.speed.spec_speed()
    }

    /// the two vertices show different nodes and together grow, while an
    /// obstacle is asked for
    pub open spec fn limits_growth(&self, dual_module: &DualModuleCombDriver) -> bool {
        &&& dual_module.instruction is FindObstacle
        &&& dual_module.vertices@[self.left_index as int].signals.shadow_node.node_index
            != dual_module.vertices@[self.right_index as int].signals.shadow_node.node_index
        &&& self.joint_speed(dual_module) > 0
    }

    /// Whether the edge can answer. Where it limits the growth and nothing
    /// remains of it, the nodes and vertices of the conflict must fit the
    /// compact indices. Where something remains, the joint speed must
    /// divide it, and the length must fit a compact weight.
    pub open spec fn answerable(&self, dual_module: &DualModuleCombDriver) -> bool {
        let left = dual_module.vertices@[self.left_index as int].signals.shadow_node;
        let right = dual_module.vertices@[self.right_index as int].signals.shadow_node;
        let remaining = self.spec_remaining(dual_module);
        self.limits_growth(dual_module) ==> if remaining == 0 {
            &&& mappable(left.node_index)
            &&& mappable(left.root_index)
            &&& mappable(right.node_index)
            &&& mappable(right.root_index)
            &&& self.left_index <= CompactVertexNum::MAX
            &&& self.right_index <= CompactVertexNum::MAX
        } else {
            &&& remaining % self.joint_speed(dual_module) == 0
            &&& CompactWeight::MIN <= remaining / self.joint_speed(dual_module)
                <= CompactWeight::MAX
        }
    }

    /// What the edge answers. Nothing unless an obstacle is asked for.
    /// No finite length between two vertices that show the same node, or
    /// that together do not grow. Else a conflict once nothing remains of
    /// the edge, with a node that stands for a virtual vertex left out; and
    /// before that the length by which the dual module may still grow: what
    /// remains, divided by the joint speed.
    pub open spec fn spec_response(&self, dual_module: &DualModuleCombDriver) -> CompactObstacle {
        let left = dual_module.vertices@[self.left_index as int].signals.shadow_node;
        let right = dual_module.vertices@[self.right_index as int].signals.shadow_node;
        let remaining = self.spec_remaining(dual_module);
        if !(dual_module.instruction is FindObstacle) {
            CompactObstacle::NoObstacle
        } else if !self.limits_growth(dual_module) {
            CompactObstacle::GrowLength { length: CompactWeight::MAX }
        } else if remaining == 0 {
            CompactObstacle::Conflict {
                node_1: spec_map_node(left.node_index),
                touch_1: spec_map_node(left.root_index),
                vertex_1: CompactVertexIndex(self.left_index as CompactVertexNum),
                node_2: spec_map_node(right.node_index),
                touch_2: spec_map_node(right.root_index),
                vertex_2: CompactVertexIndex(self.right_index as CompactVertexNum),
            }
        } else {
            CompactObstacle::GrowLength {
                length: (remaining / self.joint_speed(dual_module)) as CompactWeight,
            }
        }
    }

    /// `self` is `before` with more signals computed, all of them signals of
    /// this cycle
    pub open spec fn is_filled_from(&self, before: &Self, dual_module: &DualModuleCombDriver) -> bool {
        &&& self.edge_index == before.edge_index
        &&& self.default_weight == before.default_weight
        &&& self.left_index == before.left_index
        &&& self.right_index == before.right_index
        &&& self.registers == before.registers
        &&& self.signals_agree(dual_module)
    }

    /// Whether the signals of the edge can be read from this driver.
    pub fn is_readable(&self, dual_module: &DualModuleCombDriver) -> (readable: bool)
        ensures
            readable == self.readable(dual_module),
    {
        if self.left_index >= dual_module.vertices.len() || self.right_index
            >= dual_module.vertices.len() {
            return false;
        }
        let left = &dual_module.vertices[self.left_index];
        let right = &dual_module.vertices[self.right_index];
        let fetched: i128 = left.registers.grown as i128 + right.registers.grown as i128;
        let executed: i128 = left.signals.post_execute_state.grown as i128
            + right.signals.post_execute_state.grown as i128;
        let without_left: i128 = self.registers.weight as i128
            - left.signals.post_update_state.grown as i128;
        let remaining: i128 = without_left - right.signals.post_update_state.grown as i128;
        fits_weight(fetched) && fits_weight(executed) && fits_weight(remaining) && fits_weight(
            without_left,
        )
    }

    /// Whether the edge can answer in this cycle.
    pub fn is_answerable(&self, dual_module: &DualModuleCombDriver) -> (answerable: bool)
        requires
            self.readable(dual_module),
        ensures
            answerable == self.answerable(dual_module),
    {
        if !matches!(dual_module.instruction, Instruction::FindObstacle { .. }) {
            return true;
        }
        let left_shadow = dual_module.vertices[self.left_index].get_shadow_node(dual_module);
        let right_shadow = dual_module.vertices[self.right_index].get_shadow_node(dual_module);
        if same_owner(&left_shadow.node_index, &right_shadow.node_index) {
            return true;
        }
        let joint_speed: Weight = left_shadow.speed.speed() + right_shadow.speed.speed();
        if joint_speed <= 0 {
            return true;
        }
        assert(self.limits_growth(dual_module));
        assert(joint_speed == self.joint_speed(dual_module));
        let remaining = self.get_remaining(dual_module);
        if remaining == 0 {
            is_mappable(left_shadow.node_index) && is_mappable(left_shadow.root_index)
                && is_mappable(right_shadow.node_index) && is_mappable(right_shadow.root_index)
                && self.left_index <= CompactVertexNum::MAX as usize && self.right_index
                <= CompactVertexNum::MAX as usize
        } else if joint_speed == 2 {
            if remaining % 2 != 0 {
                return false;
            }
            let length = halve(remaining);
            CompactWeight::MIN as isize <= length && length <= CompactWeight::MAX as isize
        } else {
            assert(remaining % 1 == 0);
            assert(remaining / 1 == remaining);
            CompactWeight::MIN as isize <= remaining && remaining <= CompactWeight::MAX as isize
        }
    }

    /// Whether the registers of the two vertices cover the edge.
    pub fn get_post_fetch_is_tight(&mut self, dual_module: &DualModuleCombDriver) -> (tight: bool)
        requires
            old(self).readable(dual_module),
            old(self).signals_agree(dual_module),
        ensures
            tight == old(self).spec_post_fetch_is_tight(dual_module),
            final(self).is_filled_from(old(self), dual_module),
            *final(self) == (Edge {
                signals: EdgeCombSignals {
                    post_fetch_is_tight: Some(tight),
                    ..old(self).signals
                },
                ..*old(self)
            }),
    {
        match self.signals.post_fetch_is_tight {
            Some(tight) => tight,
            None => {
                let tight = dual_module.vertices[self.left_index].registers.grown
                    + dual_module.vertices[self.right_index].registers.grown
                    >= self.registers.weight;
                self.signals.post_fetch_is_tight = Some(tight);
                tight
            },
        }
    }

    /// Whether the edge matches its two vertices without the primal module.
    pub fn get_do_pre_matching(&mut self, dual_module: &DualModuleCombDriver) -> (matching: bool)
        requires
            old(self).readable(dual_module),
            old(self).signals_agree(dual_module),
        ensures
            matching == old(self).spec_do_pre_matching(dual_module),
            final(self).is_filled_from(old(self), dual_module),
            !dual_module.use_pre_matching || old(self).signals.do_pre_matching.is_some()
                ==> *final(self) == *old(self),
            dual_module.use_pre_matching && old(self).signals.do_pre_matching.is_none()
                ==> *final(self) == (Edge {
                signals: EdgeCombSignals {
                    do_pre_matching: Some(matching),
                    post_fetch_is_tight: if old(self).both_permit(dual_module) {
                        Some(old(self).spec_post_fetch_is_tight(dual_module))
                    } else {
                        old(self).signals.post_fetch_is_tight
                    },
                    ..old(self).signals
                },
                ..*old(self)
            }),
    {
        if !dual_module.use_pre_matching {
            return false;
        }
        match self.signals.do_pre_matching {
            Some(matching) => matching,
            None => {
                let left_vertex = &dual_module.vertices[self.left_index];
                let right_vertex = &dual_module.vertices[self.right_index];
                let matching = left_vertex.get_permit_pre_matching(dual_module)
                    && right_vertex.get_permit_pre_matching(dual_module)
                    && self.get_post_fetch_is_tight(dual_module) && !same_owner(
                    &left_vertex.registers.node_index,
                    &right_vertex.registers.node_index,
                );
                self.signals.do_pre_matching = Some(matching);
                matching
            },
        }
    }

    /// Whether the dual variables of the two vertices after the execute
    /// stage cover the edge.
    pub fn get_post_execute_is_tight(&mut self, dual_module: &DualModuleCombDriver) -> (tight: bool)
        requires
            old(self).readable(dual_module),
            old(self).signals_agree(dual_module),
        ensures
            tight == old(self).spec_post_execute_is_tight(dual_module),
            final(self).is_filled_from(old(self), dual_module),
            *final(self) == (Edge {
                signals: EdgeCombSignals {
                    post_execute_is_tight: Some(tight),
                    ..old(self).signals
                },
                ..*old(self)
            }),
    {
        match self.signals.post_execute_is_tight {
            Some(tight) => tight,
            None => {
                let left_vertex = &dual_module.vertices[self.left_index];
                let right_vertex = &dual_module.vertices[self.right_index];
                let tight = left_vertex.get_post_execute_signals(dual_module).grown
                    + right_vertex.get_post_execute_signals(dual_module).grown
                    >= self.registers.weight;
                self.signals.post_execute_is_tight = Some(tight);
                tight
            },
        }
    }

    /// What is left of the weight after the update stage.
    pub fn get_remaining(&self, dual_module: &DualModuleCombDriver) -> (remaining: Weight)
        requires
            self.readable(dual_module),
        ensures
            remaining == self.spec_remaining(dual_module),
    {
        let left_vertex = dual_module.vertices[self.left_index].get_post_update_signals(
            dual_module,
        );
        let right_vertex = dual_module.vertices[self.right_index].get_post_update_signals(
            dual_module,
        );
        self.registers.weight - left_vertex.grown - right_vertex.grown
    }

    /// What the edge answers in this cycle.
    pub fn get_response(&mut self, dual_module: &DualModuleCombDriver) -> (response:
        CompactObstacle)
        requires
            old(self).readable(dual_module),
            old(self).signals_agree(dual_module),
            old(self).answerable(dual_module),
        ensures
            response == old(self).spec_response(dual_module),
            final(self).is_filled_from(old(self), dual_module),
            *final(self) == (Edge {
                signals: EdgeCombSignals { response: Some(response), ..old(self).signals },
                ..*old(self)
            }),
    {
        match self.signals.response {
            Some(response) => response,
            None => {
                let response = self.compute_response(dual_module);
                self.signals.response = Some(response);
                response
            },
        }
    }

    fn compute_response(&self, dual_module: &DualModuleCombDriver) -> (response: CompactObstacle)
        requires
            self.readable(dual_module),
            self.answerable(dual_module),
        ensures
            response == self.spec_response(dual_module),
    {
        if !matches!(dual_module.instruction, Instruction::FindObstacle { .. }) {
            return CompactObstacle::NoObstacle;
        }
        let left_shadow = dual_module.vertices[self.left_index].get_shadow_node(dual_module);
        let right_shadow = dual_module.vertices[self.right_index].get_shadow_node(dual_module);
        if same_owner(&left_shadow.node_index, &right_shadow.node_index) {
            return CompactObstacle::GrowLength { length: CompactWeight::MAX };
        }
        let joint_speed: Weight = left_shadow.speed.speed() + right_shadow.speed.speed();
        if joint_speed > 0 {
            let remaining = self.get_remaining(dual_module);
            if remaining == 0 {
                return CompactObstacle::Conflict {
                    node_1: map_node(left_shadow.node_index),
                    touch_1: map_node(left_shadow.root_index),
                    vertex_1: CompactVertexIndex::new(self.left_index as CompactVertexNum),
                    node_2: map_node(right_shadow.node_index),
                    touch_2: map_node(right_shadow.root_index),
                    vertex_2: CompactVertexIndex::new(self.right_index as CompactVertexNum),
                };
            }
            assert(self.limits_growth(dual_module));
            assert(joint_speed == self.joint_speed(dual_module));
            let length: Weight = if joint_speed == 2 {
                assert(remaining % 2 == 0);
                halve(remaining)
            } else {
                assert(joint_speed == 1);
                assert(remaining / 1 == remaining);
                remaining
            };
            assert(length as int == (remaining as int) / self.joint_speed(dual_module));
            return CompactObstacle::GrowLength { length: length as CompactWeight };
        }
        CompactObstacle::GrowLength { length: CompactWeight::MAX }
    }

    /// The registers that the edge writes back: the ones it has.
    pub fn get_write_signals(&self, _dual_module: &DualModuleCombDriver) -> (registers:
        &EdgeRegisters)
        ensures
            *registers == self.registers,
    {
        &self.registers
    }
}

/// whether a sum of weights is a weight
fn fits_weight(sum: i128) -> (fits: bool)
    ensures
        fits == (isize::MIN <= sum <= isize::MAX),
{
    isize::MIN as i128 <= sum && sum <= isize::MAX as i128
}

/// whether the node fits a compact node index or stands for a virtual vertex
fn is_mappable(node_index: Option<NodeIndex>) -> (fits: bool)
    ensures
        fits == mappable(node_index),
{
    match node_index {
        Some(index) => index == VIRTUAL_NODE_INDEX || index <= CompactNodeNum::MAX as usize,
        None => true,
    }
}

/// half of an even weight
fn halve(weight: Weight) -> (half: Weight)
    requires
        weight % 2 == 0,
    ensures
        half == weight / 2,
        half * 2 == weight,
{
    if weight >= 0 {
        weight / 2
    } else {
        let half: Weight = (0 - (weight + 2)) / 2 + 1;
        0 - half
    }
}

/// whether two vertices show the same node, or both none
fn same_owner(left: &Option<NodeIndex>, right: &Option<NodeIndex>) -> (b: bool)
    ensures
        b == (*left == *right),
{
    match (left, right) {
        (Some(left_node), Some(right_node)) => *left_node == *right_node,
        (None, None) => true,
        _ => false,
    }
}

} // verus!
