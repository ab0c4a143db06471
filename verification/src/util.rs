//! Compact index and state types shared by the primal node store and the dual
//! modules.
//!
//! Every reference between nodes, vertices and edges is a small unsigned
//! integer. Node and vertex indices live in separate index spaces, so each has
//! a type of its own; a missing reference is always an `Option`, never a
//! reserved number.

use vstd::prelude::*;

verus! {

/// the integer behind a compact node index
pub type CompactNodeNum = u16;

/// the integer behind a compact vertex index
pub type CompactVertexNum = u16;

/// dual growth in compact form; `CompactWeight::MAX` says that a source sets no
/// finite limit on growth
pub type CompactWeight = i32;

/// index of a primal node: a defect or a blossom
#[derive(Clone, Copy, Debug, PartialEq, Eq, Structural)]
pub struct CompactNodeIndex(pub CompactNodeNum);

/// index of a vertex of the decoding graph
#[derive(Clone, Copy, Debug, PartialEq, Eq, Structural)]
pub struct CompactVertexIndex(pub CompactVertexNum);

impl View for CompactNodeIndex {
    type V = int;

    open spec fn view(&self) -> int {
        self.0 as int
    }
}

impl View for CompactVertexIndex {
    type V = int;

    open spec fn view(&self) -> int {
        self.0 as int
    }
}

impl CompactNodeIndex {
    /// The node index with the given number.
    pub fn new(value: CompactNodeNum) -> (index: Self)
        ensures
            index == CompactNodeIndex(value),
    {
        CompactNodeIndex(value)
    }

    /// The number of the node index.
    pub fn get(&self) -> (value: CompactNodeNum)
        ensures
            value == self.0,
    {
        self.0
    }
}

impl CompactVertexIndex {
    /// The vertex index with the given number.
    pub fn new(value: CompactVertexNum) -> (index: Self)
        ensures
            index == CompactVertexIndex(value),
    {
        CompactVertexIndex(value)
    }

    /// The number of the vertex index.
    pub fn get(&self) -> (value: CompactVertexNum)
        ensures
            value == self.0,
    {
        self.0
    }
}

/// how the dual variable of an outer node changes while time advances
#[derive(Clone, Copy, Debug, PartialEq, Eq, Structural)]
pub enum CompactGrowState {
    Stay,
    Grow,
    Shrink,
}

impl CompactGrowState {
    /// change of the dual variable per unit of growth
    pub open spec fn spec_speed(self) -> int {
        match self {
            CompactGrowState::Stay => 0,
            CompactGrowState::Grow => 1,
            CompactGrowState::Shrink => -1,
        }
    }

    /// change of the dual variable per unit of growth
    pub fn speed(self) -> (speed: isize)
        ensures
            speed == self.spec_speed(),
    {
        match self {
            CompactGrowState::Stay => 0,
            CompactGrowState::Grow => 1,
            CompactGrowState::Shrink => -1,
        }
    }
}

/// what an outer node is matched to
#[derive(Clone, Copy, Debug, PartialEq, Eq, Structural)]
pub enum CompactMatchTarget {
    Peer(CompactNodeIndex),
    VirtualVertex(CompactVertexIndex),
}

/// the next event that the primal module has to handle
#[derive(Clone, Copy, Debug, PartialEq, Eq, Structural)]
pub enum CompactObstacle {
    /// nothing limits growth
    NoObstacle,
    /// two nodes touch; an absent node stands for a virtual vertex
    Conflict {
        node_1: Option<CompactNodeIndex>,
        touch_1: Option<CompactNodeIndex>,
        vertex_1: CompactVertexIndex,
        node_2: Option<CompactNodeIndex>,
        touch_2: Option<CompactNodeIndex>,
        vertex_2: CompactVertexIndex,
    },
    /// a shrinking blossom has reached a dual variable of zero
    BlossomNeedExpand { blossom: CompactNodeIndex },
    /// the dual module may grow by this length before anything happens
    GrowLength { length: CompactWeight },
}

} // verus!
