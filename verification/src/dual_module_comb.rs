//! The driver of the combinatorial dual module, as far as its edges read it.
//!
//! In the combinatorial model a cycle has no stages in time: every signal is a
//! function of the registers and of the instruction. The driver holds, for the
//! current cycle, the instruction and the signals of every vertex.

use crate::dual_module_rtl::Instruction;
use crate::dual_module_rtl::NodeIndex;
use crate::dual_module_rtl::Weight;
use crate::util::CompactGrowState;
use vstd::prelude::*;

verus! {

/// the node index that stands for a virtual vertex on the dual side; the
/// primal side knows virtual vertices by the absence of a node
pub const VIRTUAL_NODE_INDEX: NodeIndex = usize::MAX;

/// the registers of a vertex
#[derive(Clone, Copy, Debug)]
pub struct VertexRegisters {
    pub speed: CompactGrowState,
    pub grown: Weight,
    pub is_virtual: bool,
    pub is_defect: bool,
    pub node_index: Option<NodeIndex>,
    pub root_index: Option<NodeIndex>,
}

/// the node that a vertex shows to its edges: its own, or the one that is
/// about to take it over
#[derive(Clone, Copy, Debug)]
pub struct ShadowNode {
    pub node_index: Option<NodeIndex>,
    pub root_index: Option<NodeIndex>,
    pub speed: CompactGrowState,
}

/// the signals of a vertex in the current cycle
#[derive(Clone, Copy, Debug)]
pub struct VertexCombSignals {
    /// the vertex is a growing defect outside any tree and unmatched
    pub permit_pre_matching: bool,
    /// the registers after the execute stage
    pub post_execute_state: VertexRegisters,
    /// the registers after the update stage
    pub post_update_state: VertexRegisters,
    pub shadow_node: ShadowNode,
}

/// A vertex of the combinatorial dual module: its registers, and its
/// signals in the current cycle.
#[derive(Clone, Copy, Debug)]
pub struct Vertex {
    pub registers: VertexRegisters,
    pub signals: VertexCombSignals,
}

/// The combinatorial dual module as an edge reads it.
pub struct DualModuleCombDriver {
    pub vertices: Vec<Vertex>,
    /// the instruction of the current cycle
    pub instruction: Instruction,
    /// whether edges may match two defects without the primal module
    pub use_pre_matching: bool,
}

impl Vertex {
    /// Whether the vertex may be matched without the primal module.
    pub fn get_permit_pre_matching(&self, dual_module: &DualModuleCombDriver) -> (permit: bool)
        ensures
            permit == self.signals.permit_pre_matching,
    {
        self.signals.permit_pre_matching
    }

    /// The registers of the vertex after the execute stage.
    pub fn get_post_execute_signals(&self, dual_module: &DualModuleCombDriver) -> (state:
        &VertexRegisters)
        ensures
            *state == self.signals.post_execute_state,
    {
        &self.signals.post_execute_state
    }

    /// The registers of the vertex after the update stage.
    pub fn get_post_update_signals(&self, dual_module: &DualModuleCombDriver) -> (state:
        &VertexRegisters)
        ensures
            *state == self.signals.post_update_state,
    {
        &self.signals.post_update_state
    }

    /// The node that the vertex shows to its edges.
    pub fn get_shadow_node(&self, dual_module: &DualModuleCombDriver) -> (shadow: &ShadowNode)
        ensures
            *shadow == self.signals.shadow_node,
    {
        &self.signals.shadow_node
    }
}

} // verus!
