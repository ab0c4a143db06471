//! Register Transfer Level (RTL) Dual Module
//!
//! A software model of the dual module as a clocked circuit. All vertices and
//! edges share one clock. An instruction passes through three stages, execute,
//! update and write; in each stage every vertex and every edge computes its
//! next registers from the registers that the stage before left, so that none
//! sees what another writes in the same stage.

use crate::interface::DualInterface;
use crate::util::CompactGrowState;
use crate::util::CompactNodeIndex;
use crate::util::CompactNodeNum;
use crate::util::CompactObstacle;
use crate::util::CompactVertexIndex;
use crate::util::CompactVertexNum;
use crate::util::CompactWeight;
use vstd::prelude::*;

verus! {

/// a weight of an edge, or an amount of dual growth
pub type Weight = isize;

/// index of a vertex of the decoding graph
pub type VertexIndex = usize;

/// index of an edge of the decoding graph
pub type EdgeIndex = usize;

/// index of a dual node
pub type NodeIndex = usize;

/// whether the dual variable of a node grows, stays or shrinks
#[derive(Clone, Copy, Debug, PartialEq, Eq, Structural)]
pub enum DualNodeGrowState {
    Grow,
    Stay,
    Shrink,
}

/// The decoding graph that a dual module is built for.
#[derive(Debug)]
pub struct SolverInitializer {
    /// the number of vertices
    pub vertex_num: usize,
    /// weighted edges, as the two vertices and the weight
    pub weighted_edges: Vec<(VertexIndex, VertexIndex, Weight)>,
    /// the virtual vertices
    pub virtual_vertices: Vec<VertexIndex>,
}

/// What the pipeline is told to do in one cycle.
#[derive(Clone, Copy, Debug, PartialEq, Eq, Structural)]
pub enum Instruction {
    SetSpeed { node: NodeIndex, speed: DualNodeGrowState },
    SetBlossom { node: NodeIndex, blossom: NodeIndex },
    AddDefectVertex { vertex: VertexIndex, node: NodeIndex },
    FindObstacle { region_preference: usize },
    Grow { length: Weight },
}

/// What a vertex or an edge answers in the write stage, and what the
/// answers of all of them reduce to.
#[derive(Clone, Copy, Debug, PartialEq, Eq, Structural)]
pub enum Response {
    NonZeroGrow { length: Weight },
    Conflict {
        node_1: NodeIndex,
        node_2: NodeIndex,
        touch_1: NodeIndex,
        touch_2: NodeIndex,
        vertex_1: VertexIndex,
        vertex_2: VertexIndex,
    },
    ConflictVirtual {
        node: NodeIndex,
        touch: NodeIndex,
        vertex: VertexIndex,
        virtual_vertex: VertexIndex,
    },
    BlossomNeedExpand { blossom: NodeIndex },
}

/// The registers of a vertex, and the edges that end at it.
#[derive(Debug)]
pub struct Vertex {
    pub vertex_index: VertexIndex,
    pub edge_indices: Vec<EdgeIndex>,
    pub speed: DualNodeGrowState,
    pub grown: Weight,
    pub is_virtual: bool,
    pub is_defect: bool,
    /// the outer node that the vertex belongs to
    pub node_index: Option<NodeIndex>,
    /// the defect node from which the vertex was reached
    pub root_index: Option<NodeIndex>,
}

/// The registers of an edge: how far it is covered from either side.
#[derive(Clone, Copy, Debug)]
pub struct Edge {
    pub edge_index: EdgeIndex,
    pub weight: Weight,
    pub left_index: VertexIndex,
    pub right_index: VertexIndex,
    pub left_growth: Weight,
    pub right_growth: Weight,
}

/// A vertex as a plain value: its registers, and the indices of its edges as a
/// sequence.
pub struct VertexView {
    pub vertex_index: VertexIndex,
    pub edge_indices: Seq<EdgeIndex>,
    pub speed: DualNodeGrowState,
    pub grown: Weight,
    pub is_virtual: bool,
    pub is_defect: bool,
    pub node_index: Option<NodeIndex>,
    pub root_index: Option<NodeIndex>,
}

/// The registers of all vertices and edges between two stages.
pub struct Registers {
    pub vertices: Seq<VertexView>,
    pub edges: Seq<Edge>,
}

impl View for Vertex {
    type V = VertexView;

    open spec fn view(&self) -> VertexView {
        VertexView {
            vertex_index: self.vertex_index,
            edge_indices: self.edge_indices@,
            speed: self.speed,
            grown: self.grown,
            is_virtual: self.is_virtual,
            is_defect: self.is_defect,
            node_index: self.node_index,
            root_index: self.root_index,
        }
    }
}

impl DualNodeGrowState {
    /// change of a dual variable per unit of growth
    pub open spec fn spec_speed(self) -> int {
        match self {
            DualNodeGrowState::Stay => 0,
            DualNodeGrowState::Shrink => -1,
            DualNodeGrowState::Grow => 1,
        }
    }
}

impl Edge {
    /// the growth from both sides covers the edge
    pub open spec fn spec_is_tight(&self) -> bool {
        self.left_growth + self.right_growth >= self.weight
    }

    /// the vertex is one of the two that the edge joins
    pub open spec fn incident(&self, vertex: VertexIndex) -> bool {
        vertex == self.left_index || vertex == self.right_index
    }

    /// the vertex at the other end of the edge
    pub open spec fn spec_get_peer(&self, vertex: VertexIndex) -> VertexIndex {
        if vertex == self.left_index {
            self.right_index
        } else {
            self.left_index
        }
    }

    /// the growth from the side of `vertex` alone covers the edge
    pub open spec fn spec_is_tight_from(&self, vertex: VertexIndex) -> bool {
        if vertex == self.left_index {
            self.left_growth == self.weight
        } else {
            self.right_growth == self.weight
        }
    }

    /// Whether the growth from both sides covers the edge.
    #[verifier::when_used_as_spec(spec_is_tight)]
    pub fn is_tight(&self) -> (tight: bool)
        requires
            self.left_growth + self.right_growth <= isize::MAX,
            self.left_growth + self.right_growth >= isize::MIN,
        ensures
            tight == self.spec_is_tight(),
    {
        self.left_growth + self.right_growth >= self.weight
    }

    /// The vertex at the other end of the edge.
    #[verifier::when_used_as_spec(spec_get_peer)]
    pub fn get_peer(&self, vertex: VertexIndex) -> (peer: VertexIndex)
        requires
            self.incident(vertex),
        ensures
            peer == self.spec_get_peer(vertex),
    {
        if vertex == self.left_index {
            self.right_index
        } else {
            self.left_index
        }
    }

    /// Whether the growth from the side of `vertex` alone covers the edge.
    #[verifier::when_used_as_spec(spec_is_tight_from)]
    pub fn is_tight_from(&self, vertex: VertexIndex) -> (tight: bool)
        requires
            self.incident(vertex),
        ensures
            tight == self.spec_is_tight_from(vertex),
    {
        if vertex == self.left_index {
            self.left_growth == self.weight
        } else {
            self.right_growth == self.weight
        }
    }

    /// The growth on both sides is non-negative and together within the
    /// weight.
    pub open spec fn feasible(&self) -> bool {
        &&& 0 <= self.left_growth
        &&& 0 <= self.right_growth
        &&& self.left_growth + self.right_growth <= self.weight
    }

    /// Whether the execute stage accepts the instruction at this edge: growth
    /// between two vertices of different nodes must leave the edge feasible.
    pub open spec fn executable(&self, vertices: Seq<VertexView>, instruction: Instruction) -> bool {
        match instruction {
            Instruction::Grow { length } => {
                let left = vertices[self.left_index as int];
                let right = vertices[self.right_index as int];
                left.node_index != right.node_index ==> {
                    &&& 0 <= self.left_growth + left.speed.spec_speed() * length
                    &&& 0 <= self.right_growth + right.speed.spec_speed() * length
                    &&& self.left_growth + left.speed.spec_speed() * length + self.right_growth
                        + right.speed.spec_speed() * length <= self.weight
                }
            },
            _ => true,
        }
    }

    /// The edge after the execute stage. Growth moves each side by the speed
    /// of its vertex, unless both vertices belong to the same node.
    pub open spec fn executed(&self, vertices: Seq<VertexView>, instruction: Instruction) -> Edge {
        match instruction {
            Instruction::Grow { length } => {
                let left = vertices[self.left_index as int];
                let right = vertices[self.right_index as int];
                if left.node_index != right.node_index {
                    Edge {
                        left_growth: (self.left_growth + left.speed.spec_speed() * length) as isize,
                        right_growth: (self.right_growth + right.speed.spec_speed()
                            * length) as isize,
                        ..*self
                    }
                } else {
                    *self
                }
            },
            _ => *self,
        }
    }
}

impl VertexView {
    /// Whether the execute stage accepts the instruction at this vertex:
    /// growth must leave the dual variable non-negative.
    pub open spec fn executable(&self, instruction: Instruction) -> bool {
        match instruction {
            Instruction::Grow { length } => 0 <= self.grown + self.speed.spec_speed() * length
                <= isize::MAX,
            _ => true,
        }
    }

    /// The vertex after the execute stage.
    pub open spec fn executed(&self, instruction: Instruction) -> VertexView {
        match instruction {
            Instruction::AddDefectVertex { vertex, node } => if vertex == self.vertex_index {
                VertexView {
                    is_defect: true,
                    speed: DualNodeGrowState::Grow,
                    root_index: Some(node),
                    node_index: Some(node),
                    ..*self
                }
            } else {
                *self
            },
            Instruction::SetSpeed { node, speed } => if Some(node) == self.node_index {
                VertexView { speed: speed, ..*self }
            } else {
                *self
            },
            Instruction::Grow { length } => VertexView {
                grown: (self.grown + self.speed.spec_speed() * length) as isize,
                ..*self
            },
            Instruction::SetBlossom { node, blossom } => if Some(node) == self.node_index || Some(
                node,
            ) == self.root_index {
                VertexView {
                    node_index: Some(blossom),
                    speed: DualNodeGrowState::Grow,
                    ..*self
                }
            } else {
                *self
            },
            Instruction::FindObstacle { .. } => *self,
        }
    }

    /// The vertex has an owner exactly if it has a root, and its dual
    /// variable is non-negative.
    pub open spec fn feasible(&self) -> bool {
        &&& self.node_index.is_some() == self.root_index.is_some()
        &&& 0 <= self.grown
    }
}

impl Registers {
    /// The vertices and edges know their own indices; every vertex has an
    /// edge, and the edges it lists are edges that end at it; every edge
    /// ends at two vertices; and vertices and edges are feasible.
    pub open spec fn wf(&self) -> bool {
        &&& forall|i: int|
            0 <= i < self.vertices.len() ==> {
                &&& (#[trigger] self.vertices[i]).vertex_index == i
                &&& self.vertices[i].edge_indices.len() > 0
                &&& self.vertices[i].feasible()
                &&& self.attached(self.vertices[i])
            }
        &&& forall|j: int|
            0 <= j < self.edges.len() ==> {
                &&& (#[trigger] self.edges[j]).edge_index == j
                &&& self.edges[j].left_index < self.vertices.len()
                &&& self.edges[j].right_index < self.vertices.len()
                &&& self.edges[j].feasible()
            }
    }

    /// every edge that the vertex lists is an edge of the graph that ends at
    /// the vertex
    pub open spec fn attached(&self, vertex: VertexView) -> bool {
        forall|k: int|
            0 <= k < vertex.edge_indices.len() ==> {
                &&& (#[trigger] vertex.edge_indices[k]) < self.edges.len()
                &&& self.edges[vertex.edge_indices[k] as int].incident(vertex.vertex_index)
            }
    }

    /// Whether the execute stage accepts the instruction at every vertex and
    /// every edge.
    pub open spec fn executable(&self, instruction: Instruction) -> bool {
        &&& forall|i: int|
            0 <= i < self.vertices.len() ==> (#[trigger] self.vertices[i]).executable(instruction)
        &&& forall|j: int|
            0 <= j < self.edges.len() ==> (#[trigger] self.edges[j]).executable(
                self.vertices,
                instruction,
            )
    }

    /// The registers after the execute stage: every vertex and every edge
    /// executes the instruction on the registers from before the stage.
    pub open spec fn executed(&self, instruction: Instruction) -> Registers {
        Registers {
            vertices: Seq::new(self.vertices.len(), |i: int| self.vertices[i].executed(instruction)),
            edges: Seq::new(
                self.edges.len(),
                |j: int| self.edges[j].executed(self.vertices, instruction),
            ),
        }
    }

    /// Whether the vertex at the other end of the `k`-th edge of `vertex`
    /// propagates to it: that vertex grows, and its own side covers the edge.
    pub open spec fn propagates(&self, vertex: VertexView, k: int) -> bool {
        let edge = self.edges[vertex.edge_indices[k] as int];
        let peer_index = edge.spec_get_peer(vertex.vertex_index);
        edge.spec_is_tight_from(peer_index) && self.vertices[peer_index as int].speed
            == DualNodeGrowState::Grow
    }

    /// the first vertex, in the order of the edges of `vertex` from the
    /// `from`-th on, that propagates to it
    pub open spec fn propagating_peer(&self, vertex: VertexView, from: int) -> Option<VertexIndex>
        decreases vertex.edge_indices.len() - from,
    {
        if from < 0 || from >= vertex.edge_indices.len() {
            None
        } else if self.propagates(vertex, from) {
            Some(self.edges[vertex.edge_indices[from] as int].spec_get_peer(vertex.vertex_index))
        } else {
            self.propagating_peer(vertex, from + 1)
        }
    }

    /// The vertex after the update stage. A vertex that is neither a defect
    /// nor virtual and has not grown takes node, root and speed from the
    /// first vertex that propagates to it; without one it belongs to no node
    /// and stays. Any other vertex keeps its registers.
    pub open spec fn updated_vertex(&self, vertex: VertexView) -> VertexView {
        if !vertex.is_defect && !vertex.is_virtual && vertex.grown == 0 {
            match self.propagating_peer(vertex, 0) {
                Some(peer_index) => VertexView {
                    node_index: self.vertices[peer_index as int].node_index,
                    root_index: self.vertices[peer_index as int].root_index,
                    speed: self.vertices[peer_index as int].speed,
                    ..vertex
                },
                None => VertexView {
                    node_index: None,
                    root_index: None,
                    speed: DualNodeGrowState::Stay,
                    ..vertex
                },
            }
        } else {
            vertex
        }
    }

    /// The registers after the update stage; the edges keep theirs.
    pub open spec fn updated(&self) -> Registers {
        Registers {
            vertices: Seq::new(
                self.vertices.len(),
                |i: int| self.updated_vertex(self.vertices[i]),
            ),
            edges: self.edges,
        }
    }

    /// The registers once the instruction has passed the execute stage and
    /// the update stage.
    pub open spec fn after(&self, instruction: Instruction) -> Registers {
        self.executed(instruction).updated()
    }

    /// What a vertex answers in the write stage. A shrinking vertex whose
    /// dual variable has come to zero inside a blossom, that is, one whose
    /// node is not its root, asks for that blossom to be expanded. Only
    /// `FindObstacle` is answered.
    pub open spec fn vertex_response(
        &self,
        vertex: VertexView,
        instruction: Instruction,
    ) -> Option<Response> {
        if instruction is FindObstacle && vertex.speed == DualNodeGrowState::Shrink && vertex.grown
            == 0 && vertex.node_index.is_some() && vertex.node_index != vertex.root_index {
            Some(Response::BlossomNeedExpand { blossom: vertex.node_index.unwrap() })
        } else {
            None
        }
    }

    /// Whether the write stage accepts the edge: where both its vertices
    /// grow, what remains of the edge must split evenly between them.
    pub open spec fn edge_respondable(&self, edge: Edge, instruction: Instruction) -> bool {
        let left = self.vertices[edge.left_index as int];
        let right = self.vertices[edge.right_index as int];
        instruction is FindObstacle && left.node_index != right.node_index
            && left.speed.spec_speed() + right.speed.spec_speed() == 2 ==> (edge.weight
            - edge.left_growth - edge.right_growth) % 2 == 0
    }

    /// What an edge answers in the write stage. Between two vertices of the
    /// same node, or where the two together do not grow, nothing. Else the
    /// length by which the dual module may still grow before the edge is
    /// covered: what remains of the weight, divided by the joint speed. Once
    /// nothing remains, two nodes are in conflict; a node and a virtual
    /// vertex are in conflict with a virtual vertex; and against a vertex
    /// that is not virtual and belongs to no node the length is zero. Only
    /// `FindObstacle` is answered.
    pub open spec fn edge_response(&self, edge: Edge, instruction: Instruction) -> Option<
        Response,
    > {
        let left = self.vertices[edge.left_index as int];
        let right = self.vertices[edge.right_index as int];
        let joint_speed = left.speed.spec_speed() + right.speed.spec_speed();
        let remaining = edge.weight - edge.left_growth - edge.right_growth;
        if !(instruction is FindObstacle) || left.node_index == right.node_index || joint_speed
            <= 0 {
            None
        } else if remaining == 0 && left.node_index.is_some() && right.node_index.is_some() {
            Some(
                Response::Conflict {
                    node_1: left.node_index.unwrap(),
                    node_2: right.node_index.unwrap(),
                    touch_1: left.root_index.unwrap(),
                    touch_2: right.root_index.unwrap(),
                    vertex_1: edge.left_index,
                    vertex_2: edge.right_index,
                },
            )
        } else if remaining == 0 && left.node_index.is_some() && right.is_virtual {
            Some(
                Response::ConflictVirtual {
                    node: left.node_index.unwrap(),
                    touch: left.root_index.unwrap(),
                    vertex: edge.left_index,
                    virtual_vertex: edge.right_index,
                },
            )
        } else if remaining == 0 && right.node_index.is_some() && left.is_virtual {
            Some(
                Response::ConflictVirtual {
                    node: right.node_index.unwrap(),
                    touch: right.root_index.unwrap(),
                    vertex: edge.right_index,
                    virtual_vertex: edge.left_index,
                },
            )
        } else {
            Some(Response::NonZeroGrow { length: (remaining / joint_speed) as isize })
        }
    }

    /// the answer of the `i`-th source of answers: the vertices come first,
    /// then the edges
    pub open spec fn source_response(&self, i: int, instruction: Instruction) -> Option<Response> {
        if i < self.vertices.len() {
            self.vertex_response(self.vertices[i], instruction)
        } else {
            self.edge_response(self.edges[i - self.vertices.len()], instruction)
        }
    }

    /// the answers of the first `count` sources, reduced to one
    pub open spec fn reduced_response(&self, count: int, instruction: Instruction) -> Option<
        Response,
    >
        decreases count,
    {
        if count <= 0 {
            None
        } else {
            Response::spec_reduce(
                self.reduced_response(count - 1, instruction),
                self.source_response(count - 1, instruction),
            )
        }
    }

    /// The answer of the write stage: the answers of all vertices and all
    /// edges, reduced to one.
    pub open spec fn response(&self, instruction: Instruction) -> Option<Response> {
        self.reduced_response((self.vertices.len() + self.edges.len()) as int, instruction)
    }

    /// Among the first `count` sources, the source `first` gives `answer`,
    /// no source gives a more urgent answer, and every source before
    /// `first` gives a less urgent answer or none.
    pub open spec fn is_first_most_urgent(
        &self,
        count: int,
        instruction: Instruction,
        first: int,
        answer: Response,
    ) -> bool {
        &&& 0 <= first < count
        &&& self.source_response(first, instruction) == Some(answer)
        &&& forall|i: int|
            0 <= i < count ==> (#[trigger] self.source_response(i, instruction) matches Some(
                other,
            ) ==> !other.more_urgent_than(answer))
        &&& forall|i: int|
            0 <= i < first ==> (#[trigger] self.source_response(i, instruction) matches Some(
                other,
            ) ==> answer.more_urgent_than(other))
    }

    /// The reduced answer does not depend on how the sweep over the sources
    /// is carried out: it is the most urgent answer that any source gives,
    /// and among sources that are equally urgent that of the source with the
    /// smallest index. There is none exactly if no source answers.
    pub proof fn lemma_reduced_response(&self, count: int, instruction: Instruction)
        requires
            0 <= count,
        ensures
            self.reduced_response(count, instruction) matches Some(answer) ==> exists|first: int|
                self.is_first_most_urgent(count, instruction, first, answer),
            self.reduced_response(count, instruction).is_none() ==> forall|i: int|
                0 <= i < count ==> (#[trigger] self.source_response(i, instruction)).is_none(),
        decreases count,
    {
        if count > 0 {
            let prior = count - 1;
            self.lemma_reduced_response(prior, instruction);
            let before = self.reduced_response(count - 1, instruction);
            let last = self.source_response(count - 1, instruction);
            match (before, last) {
                (None, None) => {},
                (None, Some(answer)) => {
                    assert(self.is_first_most_urgent(count, instruction, prior, answer));
                },
                (Some(kept), None) => {
                    let first = choose|first: int|
                        self.is_first_most_urgent(prior, instruction, first, kept);
                    assert(self.is_first_most_urgent(count, instruction, first, kept));
                },
                (Some(kept), Some(answer)) => {
                    let first = choose|first: int|
                        self.is_first_most_urgent(prior, instruction, first, kept);
                    if answer.more_urgent_than(kept) {
                        assert(self.is_first_most_urgent(count, instruction, prior, answer));
                    } else {
                        assert(self.is_first_most_urgent(count, instruction, first, kept));
                    }
                },
            }
        }
    }

    /// A length of growth that the write stage reports is safe for every
    /// edge: no edge between vertices of different nodes that together grow
    /// is covered beyond its weight when the dual module grows by it.
    pub proof fn lemma_reported_length_fits(
        &self,
        instruction: Instruction,
        length: Weight,
        j: int,
    )
        requires
            self.wf(),
            instruction is FindObstacle,
            self.respondable(instruction),
            self.response(instruction) == Some(Response::NonZeroGrow { length }),
            0 <= j < self.edges.len(),
            self.vertices[self.edges[j].left_index as int].node_index
                != self.vertices[self.edges[j].right_index as int].node_index,
            self.vertices[self.edges[j].left_index as int].speed.spec_speed()
                + self.vertices[self.edges[j].right_index as int].speed.spec_speed() > 0,
        ensures
            self.edges[j].left_growth + self.edges[j].right_growth + (
            self.vertices[self.edges[j].left_index as int].speed.spec_speed()
                + self.vertices[self.edges[j].right_index as int].speed.spec_speed()) * length
                <= self.edges[j].weight,
    {
        let count = (self.vertices.len() + self.edges.len()) as int;
        self.lemma_reduced_response(count, instruction);
        let answer = Response::NonZeroGrow { length };
        let first = choose|first: int|
            self.is_first_most_urgent(count, instruction, first, answer);
        let source = self.vertices.len() + j;
        let edge = self.edges[j];
        assert(self.source_response(source, instruction) == self.edge_response(edge, instruction));
        assert(self.edge_respondable(edge, instruction));
        assert(edge.feasible());
        let other = self.edge_response(edge, instruction).unwrap();
        assert(!other.more_urgent_than(answer));
    }

    /// Well-formed registers stay well-formed through any instructions that
    /// the execute stage accepts one after the other.
    pub proof fn lemma_after_all_wf(&self, instructions: Seq<Instruction>)
        requires
            self.wf(),
            self.executable_all(instructions),
        ensures
            self.after_all(instructions).wf(),
            self.after_all(instructions).vertices.len() == self.vertices.len(),
            self.after_all(instructions).edges.len() == self.edges.len(),
        decreases instructions.len(),
    {
        if instructions.len() > 0 {
            self.lemma_after_all_wf(instructions.drop_last());
            self.after_all(instructions.drop_last()).lemma_after_wf(instructions.last());
        }
    }

    /// the answers of the write stage to each of the instructions in turn
    pub open spec fn answers(&self, instructions: Seq<Instruction>) -> Seq<Option<Response>>
        decreases instructions.len(),
    {
        if instructions.len() == 0 {
            Seq::empty()
        } else {
            self.answers(instructions.drop_last()).push(
                self.after_all(instructions).response(instructions.last()),
            )
        }
    }

    /// Whether the write stage accepts the instruction at every edge.
    pub open spec fn respondable(&self, instruction: Instruction) -> bool {
        forall|j: int|
            0 <= j < self.edges.len() ==> self.edge_respondable(
                #[trigger] self.edges[j],
                instruction,
            )
    }

    /// The registers once each of the instructions, in their order, has
    /// passed the execute stage and the update stage.
    pub open spec fn after_all(&self, instructions: Seq<Instruction>) -> Registers
        decreases instructions.len(),
    {
        if instructions.len() == 0 {
            *self
        } else {
            self.after_all(instructions.drop_last()).after(instructions.last())
        }
    }

    /// Whether the execute stage accepts each of the instructions in its
    /// turn.
    pub open spec fn executable_all(&self, instructions: Seq<Instruction>) -> bool
        decreases instructions.len(),
    {
        instructions.len() > 0 ==> self.executable_all(instructions.drop_last()) && self.after_all(
            instructions.drop_last(),
        ).executable(instructions.last())
    }

    /// Well-formed registers stay well-formed through any instruction that
    /// the execute stage accepts: at every cycle every dual variable is
    /// non-negative, and the growth on the two sides of an edge is
    /// non-negative and together within the weight of the edge.
    pub proof fn lemma_after_wf(&self, instruction: Instruction)
        requires
            self.wf(),
            self.executable(instruction),
        ensures
            self.after(instruction).wf(),
            self.after(instruction).vertices.len() == self.vertices.len(),
            self.after(instruction).edges.len() == self.edges.len(),
    {
        self.lemma_executed_wf(instruction);
        self.executed(instruction).lemma_updated_wf();
    }

    /// An instruction that does not grow is accepted by the execute stage,
    /// and one that does not ask for an obstacle by the write stage.
    pub proof fn lemma_accepted(&self, instruction: Instruction)
        ensures
            !(instruction is Grow) ==> self.executable(instruction),
            !(instruction is FindObstacle) ==> self.respondable(instruction),
    {
    }

    /// the peer that propagates is a vertex of the graph
    pub proof fn lemma_propagating_peer_in_range(&self, vertex: VertexView, from: int)
        requires
            self.wf(),
            self.attached(vertex),
            self.propagating_peer(vertex, from).is_some(),
        ensures
            self.propagating_peer(vertex, from).unwrap() < self.vertices.len(),
        decreases vertex.edge_indices.len() - from,
    {
        if !self.propagates(vertex, from) {
            self.lemma_propagating_peer_in_range(vertex, from + 1);
        }
    }

    /// Well-formed registers stay well-formed through the execute stage of
    /// an instruction that the stage accepts. In particular no dual variable
    /// becomes negative and no edge is covered beyond its weight.
    pub proof fn lemma_executed_wf(&self, instruction: Instruction)
        requires
            self.wf(),
            self.executable(instruction),
        ensures
            self.executed(instruction).wf(),
            self.executed(instruction).vertices.len() == self.vertices.len(),
            self.executed(instruction).edges.len() == self.edges.len(),
    {
        let next = self.executed(instruction);
        assert forall|i: int| 0 <= i < next.vertices.len() implies {
            &&& (#[trigger] next.vertices[i]).vertex_index == i
            &&& next.vertices[i].edge_indices.len() > 0
            &&& next.vertices[i].feasible()
            &&& next.attached(next.vertices[i])
        } by {
            let before = self.vertices[i];
            assert(before.executable(instruction));
            assert(self.attached(before));
            assert(next.vertices[i].edge_indices == before.edge_indices);
            assert forall|k: int| 0 <= k < next.vertices[i].edge_indices.len() implies {
                &&& (#[trigger] next.vertices[i].edge_indices[k]) < next.edges.len()
                &&& next.edges[next.vertices[i].edge_indices[k] as int].incident(
                    next.vertices[i].vertex_index,
                )
            } by {
                let e = before.edge_indices[k];
                assert(e < self.edges.len());
                assert(self.edges[e as int].incident(before.vertex_index));
            }
        }
        assert forall|j: int| 0 <= j < next.edges.len() implies {
            &&& (#[trigger] next.edges[j]).edge_index == j
            &&& next.edges[j].left_index < next.vertices.len()
            &&& next.edges[j].right_index < next.vertices.len()
            &&& next.edges[j].feasible()
        } by {
            assert(self.edges[j].executable(self.vertices, instruction));
            assert(self.edges[j].feasible());
        }
    }

    /// Well-formed registers stay well-formed through the update stage.
    pub proof fn lemma_updated_wf(&self)
        requires
            self.wf(),
        ensures
            self.updated().wf(),
            self.updated().vertices.len() == self.vertices.len(),
            self.updated().edges == self.edges,
    {
        let next = self.updated();
        assert forall|i: int| 0 <= i < next.vertices.len() implies {
            &&& (#[trigger] next.vertices[i]).vertex_index == i
            &&& next.vertices[i].edge_indices.len() > 0
            &&& next.vertices[i].feasible()
            &&& next.attached(next.vertices[i])
        } by {
            let before = self.vertices[i];
            assert(self.attached(before));
            assert(before.feasible());
            if self.propagating_peer(before, 0).is_some() {
                self.lemma_propagating_peer_in_range(before, 0);
                let peer = self.propagating_peer(before, 0).unwrap();
                assert(self.vertices[peer as int].feasible());
            }
            assert(next.vertices[i].edge_indices == before.edge_indices);
            assert forall|k: int| 0 <= k < next.vertices[i].edge_indices.len() implies {
                &&& (#[trigger] next.vertices[i].edge_indices[k]) < next.edges.len()
                &&& next.edges[next.vertices[i].edge_indices[k] as int].incident(
                    next.vertices[i].vertex_index,
                )
            } by {
                let e = before.edge_indices[k];
                assert(e < self.edges.len());
            }
        }
    }
}

impl Response {
    /// the rank of an answer: a conflict or a blossom to expand comes before
    /// any length of growth
    pub open spec fn tier(self) -> int {
        match self {
            Response::NonZeroGrow { .. } => 1,
            _ => 0,
        }
    }

    /// `self` is to be handled before `other`: it has the lower tier, or both
    /// are lengths of growth and it is the shorter
    pub open spec fn more_urgent_than(self, other: Response) -> bool {
        self.tier() < other.tier() || (self matches Response::NonZeroGrow { length }
            && other matches Response::NonZeroGrow { length: other_length } && length
            < other_length)
    }

    /// The more urgent of two answers, the first of two that are equally
    /// urgent; the other where one is missing.
    pub open spec fn spec_reduce(resp1: Option<Response>, resp2: Option<Response>) -> Option<
        Response,
    > {
        match (resp1, resp2) {
            (None, _) => resp2,
            (_, None) => resp1,
            (Some(first), Some(second)) => if second.more_urgent_than(first) {
                resp2
            } else {
                resp1
            },
        }
    }

    /// Reduces two answers to the one that the primal module has to handle
    /// first. Reducing the answers of all sources in their order gives the
    /// most urgent answer of the source with the smallest index.
    pub fn reduce(resp1: Option<Response>, resp2: Option<Response>) -> (reduced: Option<Response>)
        ensures
            reduced == Self::spec_reduce(resp1, resp2),
    {
        match (resp1, resp2) {
            (None, _) => resp2,
            (_, None) => resp1,
            (Some(first), Some(second)) => {
                let second_wins = match (first, second) {
                    (
                        Response::NonZeroGrow { length: first_length },
                        Response::NonZeroGrow { length: second_length },
                    ) => second_length < first_length,
                    (Response::NonZeroGrow { .. }, _) => true,
                    _ => false,
                };
                if second_wins {
                    resp2
                } else {
                    resp1
                }
            },
        }
    }
}

impl Vertex {
    /// The change of the dual variable per unit of growth.
    pub fn get_speed(&self) -> (speed: Weight)
        ensures
            speed == self.speed.spec_speed(),
    {
        match self.speed {
            DualNodeGrowState::Stay => 0,
            DualNodeGrowState::Shrink => -1,
            DualNodeGrowState::Grow => 1,
        }
    }
}

impl Clone for Vertex {
    fn clone(&self) -> (copy: Self)
        ensures
            copy@ == self@,
    {
        Vertex {
            vertex_index: self.vertex_index,
            edge_indices: self.edge_indices.clone(),
            speed: self.speed,
            grown: self.grown,
            is_virtual: self.is_virtual,
            is_defect: self.is_defect,
            node_index: self.node_index,
            root_index: self.root_index,
        }
    }
}

/// The dual module: the registers of all vertices and edges, and the dual
/// nodes that were added.
#[derive(Debug)]
pub struct DualModuleRTL {
    /// the graph that the module was built for; `clear` builds the vertices
    /// and edges from it anew
    pub initializer: SolverInitializer,
    pub vertices: Vec<Vertex>,
    pub edges: Vec<Edge>,
    pub nodes: Vec<DualNode>,
}

/// what a dual node is: a defect at a vertex, or a blossom of nodes
#[derive(Debug)]
pub enum DualNodeClass {
    Blossom { nodes_circle: Vec<NodeIndex> },
    DefectVertex { defect_index: VertexIndex },
}

/// A dual node as the dual module keeps it.
#[derive(Debug)]
pub struct DualNode {
    pub index: NodeIndex,
    pub class: DualNodeClass,
}

impl View for DualModuleRTL {
    type V = Registers;

    open spec fn view(&self) -> Registers {
        Registers {
            vertices: Seq::new(self.vertices@.len(), |i: int| self.vertices@[i]@),
            edges: self.edges@,
        }
    }
}

/// One stage of the pipeline after another, at a vertex or at an edge.
pub trait DualPipelined: Sized {
    /// whether the execute stage accepts the instruction here
    spec fn can_execute(&self, dual_module: &DualModuleRTL, instruction: &Instruction) -> bool;

    /// `self` is `before` after the execute stage
    spec fn is_executed(
        &self,
        before: &Self,
        dual_module: &DualModuleRTL,
        instruction: &Instruction,
    ) -> bool;

    /// whether the update stage can run here
    spec fn can_update(&self, dual_module: &DualModuleRTL) -> bool;

    /// `self` is `before` after the update stage
    spec fn is_updated(&self, before: &Self, dual_module: &DualModuleRTL) -> bool;

    /// whether the write stage accepts the instruction here
    spec fn can_write(&self, dual_module: &DualModuleRTL, instruction: &Instruction) -> bool;

    /// the answer of the write stage
    spec fn written(&self, dual_module: &DualModuleRTL, instruction: &Instruction) -> Option<
        Response,
    >;

    /// load data from the registers; nothing is loaded in this model
    fn load_stage(&mut self, dual_module: &DualModuleRTL, instruction: &Instruction)
        ensures
            *final(self) == *old(self),
    {
    }

    /// execute growth and respond to speed and blossom updates
    fn execute_stage(&mut self, dual_module: &DualModuleRTL, instruction: &Instruction)
        requires
            old(self).can_execute(dual_module, instruction),
        ensures
            final(self).is_executed(old(self), dual_module, instruction),
    ;

    /// update the node according to the updated speed and length after growth
    fn update_stage(&mut self, dual_module: &DualModuleRTL, instruction: &Instruction)
        requires
            old(self).can_update(dual_module),
        ensures
            final(self).is_updated(old(self), dual_module),
    ;

    /// generate a response after the update stage
    fn write_stage(&self, dual_module: &DualModuleRTL, instruction: &Instruction) -> (response:
        Option<Response>)
        requires
            self.can_write(dual_module, instruction),
        ensures
            response == self.written(dual_module, instruction),
    ;
}

impl DualPipelined for Vertex {
    open spec fn can_execute(&self, dual_module: &DualModuleRTL, instruction: &Instruction) -> bool {
        self@.executable(*instruction)
    }

    open spec fn is_executed(
        &self,
        before: &Self,
        dual_module: &DualModuleRTL,
        instruction: &Instruction,
    ) -> bool {
        self@ == before@.executed(*instruction)
    }

    open spec fn can_update(&self, dual_module: &DualModuleRTL) -> bool {
        &&& dual_module@.wf()
        &&& dual_module@.attached(self@)
        &&& self@.edge_indices.len() > 0
    }

    open spec fn is_updated(&self, before: &Self, dual_module: &DualModuleRTL) -> bool {
        self@ == dual_module@.updated_vertex(before@)
    }

    open spec fn can_write(&self, dual_module: &DualModuleRTL, instruction: &Instruction) -> bool {
        true
    }

    open spec fn written(&self, dual_module: &DualModuleRTL, instruction: &Instruction) -> Option<
        Response,
    > {
        dual_module@.vertex_response(self@, *instruction)
    }

    fn execute_stage(&mut self, dual_module: &DualModuleRTL, instruction: &Instruction) {
        match instruction {
            Instruction::AddDefectVertex { vertex, node } => {
                if *vertex == self.vertex_index {
                    self.is_defect = true;
                    self.speed = DualNodeGrowState::Grow;
                    self.root_index = Some(*node);
                    self.node_index = Some(*node);
                }
            },
            Instruction::SetSpeed { node, speed } => {
                if holds(&self.node_index, *node) {
                    self.speed = *speed;
                }
            },
            Instruction::Grow { length } => {
                match self.speed {
                    DualNodeGrowState::Stay => {},
                    DualNodeGrowState::Grow => {
                        self.grown = self.grown + *length;
                    },
                    DualNodeGrowState::Shrink => {
                        self.grown = self.grown - *length;
                    },
                }
            },
            Instruction::SetBlossom { node, blossom } => {
                if holds(&self.node_index, *node) || holds(&self.root_index, *node) {
                    self.node_index = Some(*blossom);
                    self.speed = DualNodeGrowState::Grow;
                }
            },
            _ => {},
        }
    }

    fn update_stage(&mut self, dual_module: &DualModuleRTL, instruction: &Instruction) {
        // is there any growing peer trying to propagate to this node?
        let mut propagating_peer: Option<VertexIndex> = None;
        let mut position: usize = self.edge_indices.len();
        while position > 0
            invariant
                position <= self.edge_indices.len(),
                dual_module@.wf(),
                dual_module@.attached(self@),
                *self == *old(self),
                propagating_peer == dual_module@.propagating_peer(self@, position as int),
                propagating_peer.is_some() ==> propagating_peer.unwrap()
                    < dual_module.vertices@.len(),
            decreases position,
        {
            position -= 1;
            let edge_index = self.edge_indices[position];
            assert(edge_index == self@.edge_indices[position as int]);
            let edge = &dual_module.edges[edge_index];
            let peer_index = edge.get_peer(self.vertex_index);
            assert(dual_module@.edges[edge_index as int].left_index < dual_module@.vertices.len());
            assert(dual_module@.edges[edge_index as int].right_index < dual_module@.vertices.len());
            let peer = &dual_module.vertices[peer_index];
            assert(peer@ == dual_module@.vertices[peer_index as int]);
            if edge.is_tight_from(peer_index) && speed_is_grow(peer.speed) {
                propagating_peer = Some(peer_index);
            }
        }
        // only a vertex that is no defect, not virtual and has not grown is taken over
        if !self.is_defect && !self.is_virtual && self.grown == 0 {
            if let Some(peer_index) = propagating_peer {
                let peer = &dual_module.vertices[peer_index];
                assert(peer@ == dual_module@.vertices[peer_index as int]);
                self.node_index = peer.node_index;
                self.root_index = peer.root_index;
                self.speed = peer.speed;
            } else {
                self.node_index = None;
                self.root_index = None;
                self.speed = DualNodeGrowState::Stay;
            }
        }
    }

    // generate a response
    fn write_stage(&self, dual_module: &DualModuleRTL, instruction: &Instruction) -> (response:
        Option<Response>) {
        // only a shrinking vertex can stop the growth
        if !matches!(instruction, Instruction::FindObstacle { .. }) {
            return None;
        }
        match self.speed {
            DualNodeGrowState::Shrink => {},
            _ => {
                return None;
            },
        }
        if self.grown != 0 {
            return None;
        }
        match self.node_index {
            Some(blossom) => {
                if holds(&self.root_index, blossom) {
                    None
                } else {
                    Some(Response::BlossomNeedExpand { blossom })
                }
            },
            None => None,
        }
    }
}

/// whether an optional index is there and is `index`
fn holds(optional: &Option<NodeIndex>, index: NodeIndex) -> (b: bool)
    ensures
        b == (*optional == Some(index)),
{
    match optional {
        Some(value) => *value == index,
        None => false,
    }
}

fn speed_is_grow(speed: DualNodeGrowState) -> (b: bool)
    ensures
        b == (speed == DualNodeGrowState::Grow),
{
    match speed {
        DualNodeGrowState::Grow => true,
        _ => false,
    }
}

impl DualPipelined for Edge {
    open spec fn can_execute(&self, dual_module: &DualModuleRTL, instruction: &Instruction) -> bool {
        &&& self.left_index < dual_module@.vertices.len()
        &&& self.right_index < dual_module@.vertices.len()
        &&& self.feasible()
        &&& self.executable(dual_module@.vertices, *instruction)
    }

    open spec fn is_executed(
        &self,
        before: &Self,
        dual_module: &DualModuleRTL,
        instruction: &Instruction,
    ) -> bool {
        *self == before.executed(dual_module@.vertices, *instruction)
    }

    open spec fn can_update(&self, dual_module: &DualModuleRTL) -> bool {
        true
    }

    open spec fn is_updated(&self, before: &Self, dual_module: &DualModuleRTL) -> bool {
        *self == *before
    }

    open spec fn can_write(&self, dual_module: &DualModuleRTL, instruction: &Instruction) -> bool {
        &&& self.left_index < dual_module@.vertices.len()
        &&& self.right_index < dual_module@.vertices.len()
        &&& self.feasible()
        &&& dual_module@.vertices[self.left_index as int].feasible()
        &&& dual_module@.vertices[self.right_index as int].feasible()
        &&& dual_module@.edge_respondable(*self, *instruction)
    }

    open spec fn written(&self, dual_module: &DualModuleRTL, instruction: &Instruction) -> Option<
        Response,
    > {
        dual_module@.edge_response(*self, *instruction)
    }

    // compute the next register values
    fn execute_stage(&mut self, dual_module: &DualModuleRTL, instruction: &Instruction) {
        match instruction {
            Instruction::Grow { length } => {
                let left_vertex = &dual_module.vertices[self.left_index];
                let right_vertex = &dual_module.vertices[self.right_index];
                assert(left_vertex@ == dual_module@.vertices[self.left_index as int]);
                assert(right_vertex@ == dual_module@.vertices[self.right_index as int]);
                if !same_node(&left_vertex.node_index, &right_vertex.node_index) {
                    match left_vertex.speed {
                        DualNodeGrowState::Stay => {},
                        DualNodeGrowState::Grow => {
                            self.left_growth = self.left_growth + *length;
                        },
                        DualNodeGrowState::Shrink => {
                            self.left_growth = self.left_growth - *length;
                        },
                    }
                    match right_vertex.speed {
                        DualNodeGrowState::Stay => {},
                        DualNodeGrowState::Grow => {
                            self.right_growth = self.right_growth + *length;
                        },
                        DualNodeGrowState::Shrink => {
                            self.right_growth = self.right_growth - *length;
                        },
                    }
                }
            },
            _ => {},
        }
    }

    fn update_stage(&mut self, dual_module: &DualModuleRTL, instruction: &Instruction) {
    }

    // generate a response
    fn write_stage(&self, dual_module: &DualModuleRTL, instruction: &Instruction) -> (response:
        Option<Response>) {
        if !matches!(instruction, Instruction::FindObstacle { .. }) {
            return None;
        }
        let left_vertex = &dual_module.vertices[self.left_index];
        let right_vertex = &dual_module.vertices[self.right_index];
        assert(left_vertex@ == dual_module@.vertices[self.left_index as int]);
        assert(right_vertex@ == dual_module@.vertices[self.right_index as int]);
        if same_node(&left_vertex.node_index, &right_vertex.node_index) {
            return None;
        }
        let joint_speed: Weight = left_vertex.get_speed() + right_vertex.get_speed();
        if joint_speed <= 0 {
            return None;
        }
        let remaining: Weight = self.weight - self.left_growth - self.right_growth;
        if remaining == 0 {
            match (left_vertex.node_index, right_vertex.node_index) {
                (Some(node_1), Some(node_2)) => {
                    return Some(
                        Response::Conflict {
                            node_1,
                            node_2,
                            touch_1: left_vertex.root_index.unwrap(),
                            touch_2: right_vertex.root_index.unwrap(),
                            vertex_1: self.left_index,
                            vertex_2: self.right_index,
                        },
                    );
                },
                (Some(node), None) => {
                    if right_vertex.is_virtual {
                        return Some(
                            Response::ConflictVirtual {
                                node,
                                touch: left_vertex.root_index.unwrap(),
                                vertex: self.left_index,
                                virtual_vertex: self.right_index,
                            },
                        );
                    }
                },
                (None, Some(node)) => {
                    if left_vertex.is_virtual {
                        return Some(
                            Response::ConflictVirtual {
                                node,
                                touch: right_vertex.root_index.unwrap(),
                                vertex: self.right_index,
                                virtual_vertex: self.left_index,
                            },
                        );
                    }
                },
                (None, None) => {},
            }
        }
        if joint_speed == 2 {
            Some(Response::NonZeroGrow { length: remaining / 2 })
        } else {
            Some(Response::NonZeroGrow { length: remaining })
        }
    }
}

/// whether two vertices belong to the same node, or both to none
fn same_node(left: &Option<NodeIndex>, right: &Option<NodeIndex>) -> (b: bool)
    ensures
        b == (*left == *right),
{
    match (left, right) {
        (Some(left_node), Some(right_node)) => *left_node == *right_node,
        (None, None) => true,
        _ => false,
    }
}

impl DualModuleRTL {
    /// Deterministic obstacles: two dual modules that hold the same
    /// registers give the same answers to the same instructions, and hold
    /// the same registers afterwards. Two dual modules that were built for
    /// the same graph hold the same registers.
    pub proof fn lemma_same_registers_same_answers(
        first: &DualModuleRTL,
        second: &DualModuleRTL,
        instructions: Seq<Instruction>,
    )
        requires
            first@ == second@ || (first.initializer@ == second.initializer@
                && first@ == first.initializer@.initial_registers() && second@
                == second.initializer@.initial_registers()),
        ensures
            first@.answers(instructions) == second@.answers(instructions),
            first@.after_all(instructions) == second@.after_all(instructions),
    {
    }

    /// The registers are well-formed, and so is the list of dual nodes.
    pub open spec fn wf(&self) -> bool {
        &&& self@.wf()
        &&& nodes_wf(self.nodes@)
    }

    /// `self` is `before` with the registers `registers`; the graph and the
    /// dual nodes are the same
    pub open spec fn has_registers(&self, before: &Self, registers: Registers) -> bool {
        &&& self@ == registers
        &&& self.nodes == before.nodes
        &&& self.initializer == before.initializer
    }

    fn run_execute_stage(&mut self, instruction: &Instruction)
        requires
            old(self)@.wf(),
            old(self)@.executable(*instruction),
        ensures
            final(self).has_registers(old(self), old(self)@.executed(*instruction)),
    {
        let mut vertices_next: Vec<Vertex> = Vec::new();
        let mut index: usize = 0;
        while index < self.vertices.len()
            invariant
                *self == *old(self),
                self@.wf(),
                self@.executable(*instruction),
                index <= self.vertices@.len(),
                vertices_next@.len() == index,
                forall|i: int|
                    0 <= i < index ==> (#[trigger] vertices_next@[i])@ == self@.vertices[i].executed(
                        *instruction,
                    ),
            decreases self.vertices@.len() - index,
        {
            let mut vertex = self.vertices[index].clone();
            assert(self@.vertices[index as int].executable(*instruction));
            vertex.execute_stage(self, instruction);
            vertices_next.push(vertex);
            index += 1;
        }
        let mut edges_next: Vec<Edge> = Vec::new();
        let mut index: usize = 0;
        while index < self.edges.len()
            invariant
                *self == *old(self),
                self@.wf(),
                self@.executable(*instruction),
                index <= self.edges@.len(),
                edges_next@.len() == index,
                forall|j: int|
                    0 <= j < index ==> (#[trigger] edges_next@[j]) == self@.edges[j].executed(
                        self@.vertices,
                        *instruction,
                    ),
            decreases self.edges@.len() - index,
        {
            let mut edge = self.edges[index];
            assert(edge == self@.edges[index as int]);
            assert(self@.edges[index as int].executable(self@.vertices, *instruction));
            edge.execute_stage(self, instruction);
            edges_next.push(edge);
            index += 1;
        }
        self.vertices = vertices_next;
        self.edges = edges_next;
        assert(self@.vertices =~= old(self)@.executed(*instruction).vertices);
        assert(self@.edges =~= old(self)@.executed(*instruction).edges);
    }

    fn run_update_stage(&mut self, instruction: &Instruction)
        requires
            old(self)@.wf(),
        ensures
            final(self).has_registers(old(self), old(self)@.updated()),
    {
        let mut vertices_next: Vec<Vertex> = Vec::new();
        let mut index: usize = 0;
        while index < self.vertices.len()
            invariant
                *self == *old(self),
                self@.wf(),
                index <= self.vertices@.len(),
                vertices_next@.len() == index,
                forall|i: int|
                    0 <= i < index ==> (#[trigger] vertices_next@[i])@ == self@.updated_vertex(
                        self@.vertices[i],
                    ),
            decreases self.vertices@.len() - index,
        {
            let mut vertex = self.vertices[index].clone();
            assert(self@.attached(self@.vertices[index as int]));
            vertex.update_stage(self, instruction);
            vertices_next.push(vertex);
            index += 1;
        }
        self.vertices = vertices_next;
        assert(self@.vertices =~= old(self)@.updated().vertices);
    }

    fn run_write_stage(&self, instruction: &Instruction) -> (response: Option<Response>)
        requires
            self@.wf(),
            self@.respondable(*instruction),
        ensures
            response == self@.response(*instruction),
    {
        let mut response: Option<Response> = None;
        let mut index: usize = 0;
        while index < self.vertices.len()
            invariant
                index <= self.vertices@.len(),
                response == self@.reduced_response(index as int, *instruction),
            decreases self.vertices@.len() - index,
        {
            let answer = self.vertices[index].write_stage(self, instruction);
            response = Response::reduce(response, answer);
            index += 1;
        }
        let count: usize = self.vertices.len();
        let mut index: usize = 0;
        while index < self.edges.len()
            invariant
                self@.wf(),
                self@.respondable(*instruction),
                count == self.vertices@.len(),
                index <= self.edges@.len(),
                response == self@.reduced_response(count + index, *instruction),
            decreases self.edges@.len() - index,
        {
            let edge = &self.edges[index];
            assert(*edge == self@.edges[index as int]);
            assert(self@.edge_respondable(self@.edges[index as int], *instruction));
            let answer = edge.write_stage(self, instruction);
            response = Response::reduce(response, answer);
            index += 1;
        }
        response
    }

    /// Passes one instruction through the pipeline: the execute stage at
    /// every vertex and edge, then the update stage, then the write stage,
    /// whose answers are reduced to the answer of the instruction.
    pub fn execute_instruction(&mut self, instruction: Instruction) -> (response: Option<Response>)
        requires
            old(self).wf(),
            old(self)@.executable(instruction),
            old(self)@.after(instruction).respondable(instruction),
        ensures
            final(self).wf(),
            final(self).has_registers(old(self), old(self)@.after(instruction)),
            response == final(self)@.response(instruction),
    {
        proof {
            self@.lemma_executed_wf(instruction);
            self@.executed(instruction).lemma_updated_wf();
        }
        self.run_execute_stage(&instruction);
        self.run_update_stage(&instruction);
        self.run_write_stage(&instruction)
    }
}

impl DualNode {
    /// the nodes of the cycle of a blossom; none for a defect
    pub open spec fn circle(&self) -> Seq<NodeIndex> {
        match self.class {
            DualNodeClass::Blossom { nodes_circle } => nodes_circle@,
            DualNodeClass::DefectVertex { .. } => Seq::empty(),
        }
    }
}

/// Every dual node stands at its own index, and a blossom is made of nodes
/// that came before it.
pub open spec fn nodes_wf(nodes: Seq<DualNode>) -> bool {
    forall|k: int|
        0 <= k < nodes.len() ==> {
            &&& (#[trigger] nodes[k]).index == k
            &&& forall|m: int| 0 <= m < nodes[k].circle().len() ==> nodes[k].circle()[m] < k
        }
}

/// A decoding graph as a plain value.
pub struct Graph {
    pub vertex_num: usize,
    pub weighted_edges: Seq<(VertexIndex, VertexIndex, Weight)>,
    pub virtual_vertices: Seq<VertexIndex>,
}

impl View for SolverInitializer {
    type V = Graph;

    open spec fn view(&self) -> Graph {
        Graph {
            vertex_num: self.vertex_num,
            weighted_edges: self.weighted_edges@,
            virtual_vertices: self.virtual_vertices@,
        }
    }
}

impl Graph {
    /// Every edge joins two vertices of the graph and has a non-negative
    /// weight, every virtual vertex is a vertex of the graph, and every
    /// vertex has an edge. The edges can be counted by an edge index.
    pub open spec fn valid(&self) -> bool {
        &&& self.weighted_edges.len() <= usize::MAX
        &&& forall|j: int|
            0 <= j < self.weighted_edges.len() ==> {
                &&& (#[trigger] self.weighted_edges[j]).0 < self.vertex_num
                &&& self.weighted_edges[j].1 < self.vertex_num
                &&& 0 <= self.weighted_edges[j].2
            }
        &&& forall|k: int|
            0 <= k < self.virtual_vertices.len() ==> (#[trigger] self.virtual_vertices[k])
                < self.vertex_num
        &&& forall|i: int| 0 <= i < self.vertex_num ==> #[trigger] self.has_edge(i)
    }

    /// some edge ends at the vertex `i`
    pub open spec fn has_edge(&self, i: int) -> bool {
        exists|j: int| 0 <= j < self.weighted_edges.len() && #[trigger] self.ends_at(j, i)
    }

    /// the edge `j` ends at the vertex `i`
    pub open spec fn ends_at(&self, j: int, i: int) -> bool {
        self.weighted_edges[j].0 == i || self.weighted_edges[j].1 == i
    }

    /// The edges among the first `count` that end at a vertex, in ascending
    /// order; an edge from the vertex to itself is listed twice.
    pub open spec fn incident_edges(&self, vertex: int, count: int) -> Seq<EdgeIndex>
        decreases count,
    {
        if count <= 0 {
            Seq::empty()
        } else {
            let before = self.incident_edges(vertex, count - 1);
            let edge = self.weighted_edges[count - 1];
            let with_left = if edge.0 == vertex {
                before.push((count - 1) as usize)
            } else {
                before
            };
            if edge.1 == vertex {
                with_left.push((count - 1) as usize)
            } else {
                with_left
            }
        }
    }

    /// whether the vertex is among the first `count` virtual vertices
    pub open spec fn virtual_among(&self, vertex: int, count: int) -> bool {
        exists|k: int| 0 <= k < count && #[trigger] self.virtual_vertices[k] == vertex
    }

    /// The registers of a dual module without any defect: nothing has
    /// grown, no vertex belongs to a node, and every vertex stays.
    pub open spec fn initial_registers(&self) -> Registers {
        Registers {
            vertices: Seq::new(
                self.vertex_num as nat,
                |i: int|
                    VertexView {
                        vertex_index: i as usize,
                        edge_indices: self.incident_edges(i, self.weighted_edges.len() as int),
                        speed: DualNodeGrowState::Stay,
                        grown: 0,
                        is_virtual: self.virtual_among(i, self.virtual_vertices.len() as int),
                        is_defect: false,
                        node_index: None,
                        root_index: None,
                    },
            ),
            edges: Seq::new(
                self.weighted_edges.len(),
                |j: int|
                    Edge {
                        edge_index: j as usize,
                        weight: self.weighted_edges[j].2,
                        left_index: self.weighted_edges[j].0,
                        right_index: self.weighted_edges[j].1,
                        left_growth: 0,
                        right_growth: 0,
                    },
            ),
        }
    }

    /// The edges listed for a vertex are edges that end at it, and a vertex
    /// at which an edge ends has an edge listed.
    pub proof fn lemma_incident_edges(&self, vertex: int, count: int)
        requires
            0 <= count <= self.weighted_edges.len() <= usize::MAX,
        ensures
            forall|k: int|
                0 <= k < self.incident_edges(vertex, count).len() ==> {
                    &&& 0 <= (#[trigger] self.incident_edges(vertex, count)[k]) < count
                    &&& self.ends_at(self.incident_edges(vertex, count)[k] as int, vertex)
                },
            forall|j: int|
                0 <= j < count && self.ends_at(j, vertex) ==> self.incident_edges(
                    vertex,
                    count,
                ).len() > 0,
        decreases count,
    {
        if count > 0 {
            self.lemma_incident_edges(vertex, count - 1);
            let before = self.incident_edges(vertex, count - 1);
            let edge = self.weighted_edges[count - 1];
            let listed = self.incident_edges(vertex, count);
            assert(self.ends_at(count - 1, vertex) == (edge.0 == vertex || edge.1 == vertex));
            assert forall|k: int| 0 <= k < listed.len() implies {
                &&& 0 <= (#[trigger] listed[k]) < count
                &&& self.ends_at(listed[k] as int, vertex)
            } by {
                if k < before.len() {
                    assert(listed[k] == before[k]);
                } else {
                    assert(listed[k] == (count - 1) as usize);
                }
            }
        }
    }

    /// The registers of a valid graph without any defect are well-formed.
    pub proof fn lemma_initial_registers_wf(&self)
        requires
            self.valid(),
        ensures
            self.initial_registers().wf(),
    {
        let registers = self.initial_registers();
        let count = self.weighted_edges.len() as int;
        assert forall|i: int| 0 <= i < registers.vertices.len() implies {
            &&& (#[trigger] registers.vertices[i]).vertex_index == i
            &&& registers.vertices[i].edge_indices.len() > 0
            &&& registers.vertices[i].feasible()
            &&& registers.attached(registers.vertices[i])
        } by {
            self.lemma_incident_edges(i, count);
            assert(self.has_edge(i));
            let j = choose|j: int| 0 <= j < count && #[trigger] self.ends_at(j, i);
            assert(self.ends_at(j, i));
            let listed = registers.vertices[i].edge_indices;
            assert(listed == self.incident_edges(i, count));
            assert forall|k: int| 0 <= k < listed.len() implies {
                &&& (#[trigger] listed[k]) < registers.edges.len()
                &&& registers.edges[listed[k] as int].incident(registers.vertices[i].vertex_index)
            } by {
                assert(self.ends_at(listed[k] as int, i));
            }
        }
        assert forall|j: int| 0 <= j < registers.edges.len() implies {
            &&& (#[trigger] registers.edges[j]).edge_index == j
            &&& registers.edges[j].left_index < registers.vertices.len()
            &&& registers.edges[j].right_index < registers.vertices.len()
            &&& registers.edges[j].feasible()
        } by {
            assert(self.weighted_edges[j].0 < self.vertex_num);
        }
    }
}

impl SolverInitializer {
    /// Whether a dual module can be built for the graph.
    pub fn is_valid(&self) -> (valid: bool)
        ensures
            valid == self@.valid(),
    {
        let mut has_edge: Vec<bool> = Vec::new();
        let mut vertex: usize = 0;
        while vertex < self.vertex_num
            invariant
                vertex <= self.vertex_num,
                has_edge@.len() == vertex,
                forall|i: int| 0 <= i < vertex ==> !(#[trigger] has_edge@[i]),
            decreases self.vertex_num - vertex,
        {
            has_edge.push(false);
            vertex += 1;
        }
        let mut edge: usize = 0;
        while edge < self.weighted_edges.len()
            invariant
                edge <= self.weighted_edges@.len(),
                has_edge@.len() == self.vertex_num,
                forall|j: int|
                    0 <= j < edge ==> {
                        &&& (#[trigger] self.weighted_edges@[j]).0 < self.vertex_num
                        &&& self.weighted_edges@[j].1 < self.vertex_num
                        &&& 0 <= self.weighted_edges@[j].2
                    },
                forall|i: int|
                    0 <= i < self.vertex_num ==> (#[trigger] has_edge@[i]) == exists|j: int|
                        0 <= j < edge && #[trigger] self@.ends_at(j, i),
            decreases self.weighted_edges@.len() - edge,
        {
            let (left, right, weight) = self.weighted_edges[edge];
            if left >= self.vertex_num || right >= self.vertex_num || weight < 0 {
                assert(!self@.valid()) by {
                    assert(self@.weighted_edges[edge as int] == (left, right, weight));
                }
                return false;
            }
            let ghost marked = has_edge@;
            has_edge[left] = true;
            has_edge[right] = true;
            proof {
                assert forall|i: int| 0 <= i < self.vertex_num implies (#[trigger] has_edge@[i])
                    == exists|j: int| 0 <= j < edge + 1 && #[trigger] self@.ends_at(j, i) by {
                    if has_edge@[i] {
                        if marked[i] {
                            let j = choose|j: int| 0 <= j < edge && #[trigger] self@.ends_at(j, i);
                            assert(self@.ends_at(j, i));
                        } else {
                            assert(self@.ends_at(edge as int, i));
                        }
                    }
                    if exists|j: int| 0 <= j < edge + 1 && #[trigger] self@.ends_at(j, i) {
                        let j = choose|j: int| 0 <= j < edge + 1 && #[trigger] self@.ends_at(j, i);
                        if j < edge {
                            assert(marked[i]);
                        }
                    }
                }
            }
            edge += 1;
        }
        let mut position: usize = 0;
        while position < self.virtual_vertices.len()
            invariant
                position <= self.virtual_vertices@.len(),
                forall|k: int|
                    0 <= k < position ==> (#[trigger] self.virtual_vertices@[k]) < self.vertex_num,
            decreases self.virtual_vertices@.len() - position,
        {
            if self.virtual_vertices[position] >= self.vertex_num {
                assert(!self@.valid()) by {
                    assert(self@.virtual_vertices[position as int] >= self.vertex_num);
                }
                return false;
            }
            position += 1;
        }
        let mut vertex: usize = 0;
        while vertex < self.vertex_num
            invariant
                vertex <= self.vertex_num,
                has_edge@.len() == self.vertex_num,
                forall|i: int|
                    0 <= i < self.vertex_num ==> (#[trigger] has_edge@[i]) == self@.has_edge(i),
                forall|i: int| 0 <= i < vertex ==> #[trigger] self@.has_edge(i),
            decreases self.vertex_num - vertex,
        {
            if !has_edge[vertex] {
                return false;
            }
            vertex += 1;
        }
        true
    }

    /// A copy of the graph.
    pub fn duplicate(&self) -> (copy: Self)
        ensures
            copy@ == self@,
    {
        let mut weighted_edges: Vec<(VertexIndex, VertexIndex, Weight)> = Vec::new();
        let mut position: usize = 0;
        while position < self.weighted_edges.len()
            invariant
                position <= self.weighted_edges@.len(),
                weighted_edges@ == self.weighted_edges@.take(position as int),
            decreases self.weighted_edges@.len() - position,
        {
            weighted_edges.push(self.weighted_edges[position]);
            position += 1;
            assert(weighted_edges@ =~= self.weighted_edges@.take(position as int));
        }
        let mut virtual_vertices: Vec<VertexIndex> = Vec::new();
        let mut position: usize = 0;
        while position < self.virtual_vertices.len()
            invariant
                position <= self.virtual_vertices@.len(),
                virtual_vertices@ == self.virtual_vertices@.take(position as int),
            decreases self.virtual_vertices@.len() - position,
        {
            virtual_vertices.push(self.virtual_vertices[position]);
            position += 1;
            assert(virtual_vertices@ =~= self.virtual_vertices@.take(position as int));
        }
        assert(weighted_edges@ =~= self.weighted_edges@);
        assert(virtual_vertices@ =~= self.virtual_vertices@);
        SolverInitializer { vertex_num: self.vertex_num, weighted_edges, virtual_vertices }
    }
}

impl DualModuleRTL {
    /// A dual module for a graph, without any defect.
    pub fn new_empty(initializer: &SolverInitializer) -> (dual_module: Self)
        requires
            initializer@.valid(),
        ensures
            dual_module.wf(),
            dual_module@ == initializer@.initial_registers(),
            dual_module.nodes@.len() == 0,
            dual_module.initializer@ == initializer@,
    {
        let mut dual_module = DualModuleRTL {
            initializer: initializer.duplicate(),
            vertices: Vec::new(),
            edges: Vec::new(),
            nodes: Vec::new(),
        };
        dual_module.clear();
        dual_module
    }

    /// Builds the vertices and edges anew from the graph, and forgets every
    /// dual node: nothing has grown, no vertex belongs to a node.
    pub fn clear(&mut self)
        requires
            old(self).initializer@.valid(),
        ensures
            final(self).wf(),
            final(self)@ == old(self).initializer@.initial_registers(),
            final(self).nodes@.len() == 0,
            final(self).initializer == old(self).initializer,
    {
        let vertex_num: usize = self.initializer.vertex_num;
        let ghost graph = self.initializer@;
        // set vertices
        let mut vertices: Vec<Vertex> = Vec::new();
        let mut vertex_index: usize = 0;
        while vertex_index < vertex_num
            invariant
                vertex_index <= vertex_num,
                vertices@.len() == vertex_index,
                forall|i: int|
                    0 <= i < vertex_index ==> (#[trigger] vertices@[i])@ == (VertexView {
                        vertex_index: i as usize,
                        edge_indices: Seq::empty(),
                        speed: DualNodeGrowState::Stay,
                        grown: 0,
                        is_virtual: false,
                        is_defect: false,
                        node_index: None,
                        root_index: None,
                    }),
            decreases vertex_num - vertex_index,
        {
            vertices.push(
                Vertex {
                    vertex_index,
                    edge_indices: Vec::new(),
                    speed: DualNodeGrowState::Stay,
                    grown: 0,
                    is_virtual: false,
                    is_defect: false,
                    node_index: None,
                    root_index: None,
                },
            );
            vertex_index += 1;
        }
        // set virtual vertices
        let mut position: usize = 0;
        while position < self.initializer.virtual_vertices.len()
            invariant
                self.initializer@ == graph,
                graph.valid(),
                vertex_num == graph.vertex_num,
                position <= graph.virtual_vertices.len(),
                vertices@.len() == vertex_num,
                forall|i: int|
                    0 <= i < vertex_num ==> (#[trigger] vertices@[i])@ == (VertexView {
                        vertex_index: i as usize,
                        edge_indices: Seq::empty(),
                        speed: DualNodeGrowState::Stay,
                        grown: 0,
                        is_virtual: graph.virtual_among(i, position as int),
                        is_defect: false,
                        node_index: None,
                        root_index: None,
                    }),
            decreases graph.virtual_vertices.len() - position,
        {
            let virtual_vertex = self.initializer.virtual_vertices[position];
            let ghost before = vertices@;
            vertices[virtual_vertex].is_virtual = true;
            proof {
                assert forall|i: int| 0 <= i < vertex_num implies graph.virtual_among(
                    i,
                    position + 1,
                ) == (i == virtual_vertex || graph.virtual_among(i, position as int)) by {
                    if graph.virtual_among(i, position + 1) {
                        let k = choose|k: int|
                            0 <= k < position + 1 && #[trigger] graph.virtual_vertices[k] == i;
                        if k < position {
                            assert(graph.virtual_among(i, position as int));
                        }
                    }
                    if graph.virtual_among(i, position as int) {
                        let k = choose|k: int|
                            0 <= k < position && #[trigger] graph.virtual_vertices[k] == i;
                        assert(graph.virtual_vertices[k] == i);
                    }
                    if i == virtual_vertex {
                        assert(graph.virtual_vertices[position as int] == i);
                    }
                }
            }
            position += 1;
        }
        // set edges
        let mut edges: Vec<Edge> = Vec::new();
        let mut edge_index: usize = 0;
        while edge_index < self.initializer.weighted_edges.len()
            invariant
                self.initializer@ == graph,
                graph.valid(),
                vertex_num == graph.vertex_num,
                edge_index <= graph.weighted_edges.len(),
                vertices@.len() == vertex_num,
                edges@.len() == edge_index,
                forall|i: int|
                    0 <= i < vertex_num ==> (#[trigger] vertices@[i])@ == (VertexView {
                        vertex_index: i as usize,
                        edge_indices: graph.incident_edges(i, edge_index as int),
                        speed: DualNodeGrowState::Stay,
                        grown: 0,
                        is_virtual: graph.virtual_among(i, graph.virtual_vertices.len() as int),
                        is_defect: false,
                        node_index: None,
                        root_index: None,
                    }),
                forall|j: int|
                    0 <= j < edge_index ==> (#[trigger] edges@[j]) == (Edge {
                        edge_index: j as usize,
                        weight: graph.weighted_edges[j].2,
                        left_index: graph.weighted_edges[j].0,
                        right_index: graph.weighted_edges[j].1,
                        left_growth: 0,
                        right_growth: 0,
                    }),
            decreases graph.weighted_edges.len() - edge_index,
        {
            let (i, j, weight) = self.initializer.weighted_edges[edge_index];
            edges.push(
                Edge {
                    edge_index,
                    weight,
                    left_index: i,
                    right_index: j,
                    left_growth: 0,
                    right_growth: 0,
                },
            );
            vertices[i].edge_indices.push(edge_index);
            vertices[j].edge_indices.push(edge_index);
            edge_index += 1;
        }
        self.vertices = vertices;
        self.edges = edges;
        // clear nodes
        self.nodes.clear();
        proof {
            graph.lemma_initial_registers_wf();
            assert(self@.vertices =~= graph.initial_registers().vertices);
            assert(self@.edges =~= graph.initial_registers().edges);
        }
    }
}

/// What limits the growth of the dual module, with nodes told by their index.
#[derive(Clone, Copy, Debug, PartialEq, Eq)]
pub enum MaxUpdateLength {
    /// a length by which the dual module may grow, and whether a boundary
    /// node is empty, which never is the case here
    NonZeroGrow((Weight, bool)),
    /// two nodes in conflict, each with the node inside it that touches
    Conflicting((NodeIndex, NodeIndex), (NodeIndex, NodeIndex)),
    /// a node, with the node inside it that touches, in conflict with a
    /// virtual vertex, which never is a mirror here
    TouchingVirtual((NodeIndex, NodeIndex), (VertexIndex, bool)),
    /// a blossom whose dual variable has come to zero while shrinking
    BlossomNeedExpand(NodeIndex),
}

impl MaxUpdateLength {
    /// The limit that an answer of the pipeline stands for.
    pub fn from_response(response: Response) -> (max_update_length: MaxUpdateLength)
        ensures
            max_update_length == Self::of(response),
    {
        match response {
            Response::NonZeroGrow { length } => MaxUpdateLength::NonZeroGrow((length, false)),
            Response::Conflict { node_1, node_2, touch_1, touch_2, .. } => {
                MaxUpdateLength::Conflicting((node_1, touch_1), (node_2, touch_2))
            },
            Response::ConflictVirtual { node, touch, virtual_vertex, .. } => {
                MaxUpdateLength::TouchingVirtual((node, touch), (virtual_vertex, false))
            },
            Response::BlossomNeedExpand { blossom } => MaxUpdateLength::BlossomNeedExpand(blossom),
        }
    }

    /// the limit that an answer of the pipeline stands for
    pub open spec fn of(response: Response) -> MaxUpdateLength {
        match response {
            Response::NonZeroGrow { length } => MaxUpdateLength::NonZeroGrow((length, false)),
            Response::Conflict { node_1, node_2, touch_1, touch_2, .. } => {
                MaxUpdateLength::Conflicting((node_1, touch_1), (node_2, touch_2))
            },
            Response::ConflictVirtual { node, touch, virtual_vertex, .. } => {
                MaxUpdateLength::TouchingVirtual((node, touch), (virtual_vertex, false))
            },
            Response::BlossomNeedExpand { blossom } => MaxUpdateLength::BlossomNeedExpand(blossom),
        }
    }
}

impl DualNode {
    /// the vertex of a defect; none for a blossom
    pub open spec fn defect_vertex(&self) -> Option<VertexIndex> {
        match self.class {
            DualNodeClass::Blossom { .. } => None,
            DualNodeClass::DefectVertex { defect_index } => Some(defect_index),
        }
    }

    /// the two nodes have the same index and are the same defect or the same
    /// blossom
    pub open spec fn same_as(&self, other: &DualNode) -> bool {
        &&& self.index == other.index
        &&& self.defect_vertex() == other.defect_vertex()
        &&& self.circle() == other.circle()
    }

    /// A copy of the node.
    pub fn duplicate(&self) -> (copy: Self)
        ensures
            copy.same_as(self),
    {
        match &self.class {
            DualNodeClass::Blossom { nodes_circle } => {
                let mut circle: Vec<NodeIndex> = Vec::new();
                let mut position: usize = 0;
                while position < nodes_circle.len()
                    invariant
                        position <= nodes_circle@.len(),
                        circle@ == nodes_circle@.take(position as int),
                    decreases nodes_circle@.len() - position,
                {
                    circle.push(nodes_circle[position]);
                    position += 1;
                    assert(circle@ =~= nodes_circle@.take(position as int));
                }
                assert(circle@ =~= nodes_circle@);
                DualNode { index: self.index, class: DualNodeClass::Blossom { nodes_circle: circle } }
            },
            DualNodeClass::DefectVertex { defect_index } => DualNode {
                index: self.index,
                class: DualNodeClass::DefectVertex { defect_index: *defect_index },
            },
        }
    }
}

/// The defects that a dual node is made of, in the order of the cycles: the
/// node itself if it is a defect, else the defects of each node of its cycle.
pub open spec fn blossom_roots(nodes: Seq<DualNode>, node_index: int) -> Seq<NodeIndex>
    decreases node_index, 1nat, 0nat,
{
    if node_index < 0 || node_index >= nodes.len() {
        Seq::empty()
    } else {
        match nodes[node_index].class {
            DualNodeClass::DefectVertex { .. } => seq![nodes[node_index].index],
            DualNodeClass::Blossom { nodes_circle } => circle_roots(
                nodes,
                nodes_circle@,
                node_index,
                nodes_circle@.len(),
            ),
        }
    }
}

/// the defects of the first `count` nodes of a cycle, all of which come
/// before the node `bound`
pub open spec fn circle_roots(
    nodes: Seq<DualNode>,
    circle: Seq<NodeIndex>,
    bound: int,
    count: nat,
) -> Seq<NodeIndex>
    decreases bound, 0nat, count,
{
    if count == 0 || count > circle.len() {
        Seq::empty()
    } else if circle[count - 1] < bound {
        circle_roots(nodes, circle, bound, (count - 1) as nat) + blossom_roots(
            nodes,
            circle[count - 1] as int,
        )
    } else {
        circle_roots(nodes, circle, bound, (count - 1) as nat)
    }
}

/// The defects that a dual node is made of.
pub fn get_blossom_roots(nodes: &Vec<DualNode>, node_index: NodeIndex) -> (roots: Vec<NodeIndex>)
    requires
        nodes_wf(nodes@),
        node_index < nodes@.len(),
    ensures
        roots@ == blossom_roots(nodes@, node_index as int),
    decreases node_index,
{
    let node = &nodes[node_index];
    match &node.class {
        DualNodeClass::Blossom { nodes_circle } => {
            let mut node_indices: Vec<NodeIndex> = Vec::new();
            let mut position: usize = 0;
            while position < nodes_circle.len()
                invariant
                    nodes_wf(nodes@),
                    node_index < nodes@.len(),
                    nodes@[node_index as int].circle() == nodes_circle@,
                    position <= nodes_circle@.len(),
                    node_indices@ == circle_roots(
                        nodes@,
                        nodes_circle@,
                        node_index as int,
                        position as nat,
                    ),
                decreases nodes_circle@.len() - position,
            {
                let member = nodes_circle[position];
                assert(nodes@[node_index as int].circle()[position as int] < node_index);
                let mut member_roots = get_blossom_roots(nodes, member);
                node_indices.append(&mut member_roots);
                position += 1;
            }
            node_indices
        },
        DualNodeClass::DefectVertex { .. } => {
            let mut node_indices: Vec<NodeIndex> = Vec::new();
            node_indices.push(node.index);
            node_indices
        },
    }
}

/// the instructions that give the vertices of one node of an expanded
/// blossom back to that node: one for each defect that it is made of
pub open spec fn member_instructions(nodes: Seq<DualNode>, member: NodeIndex) -> Seq<Instruction> {
    Seq::new(
        blossom_roots(nodes, member as int).len(),
        |k: int|
            Instruction::SetBlossom { node: blossom_roots(nodes, member as int)[k], blossom: member },
    )
}

/// the instructions that expand a blossom, for the first `count` nodes of
/// its cycle
pub open spec fn expand_instructions(nodes: Seq<DualNode>, circle: Seq<NodeIndex>, count: nat) -> Seq<
    Instruction,
>
    decreases count,
{
    if count == 0 || count > circle.len() {
        Seq::empty()
    } else {
        expand_instructions(nodes, circle, (count - 1) as nat) + member_instructions(
            nodes,
            circle[count - 1],
        )
    }
}

/// the instructions that form a blossom, one for each node of its cycle
pub open spec fn form_instructions(circle: Seq<NodeIndex>, blossom: NodeIndex) -> Seq<Instruction> {
    Seq::new(circle.len(), |k: int| Instruction::SetBlossom { node: circle[k], blossom })
}

impl DualModuleRTL {
    /// runs an instruction that neither grows nor asks for an obstacle
    fn run_setting(&mut self, instruction: Instruction)
        requires
            old(self).wf(),
            !(instruction is Grow),
            !(instruction is FindObstacle),
        ensures
            final(self).wf(),
            final(self).has_registers(old(self), old(self)@.after(instruction)),
    {
        proof {
            self@.lemma_accepted(instruction);
            self@.after(instruction).lemma_accepted(instruction);
        }
        self.execute_instruction(instruction);
    }

    /// Takes note of a new dual node, which must come with the next free
    /// index. A defect marks its vertex, which grows from now on. A blossom
    /// takes over the vertices of the nodes of its cycle, one node after
    /// the other, and grows.
    pub fn add_dual_node(&mut self, dual_node: &DualNode)
        requires
            old(self).wf(),
            dual_node.index == old(self).nodes@.len(),
            forall|m: int|
                0 <= m < dual_node.circle().len() ==> dual_node.circle()[m] < dual_node.index,
            dual_node.defect_vertex() matches Some(defect_index) ==> defect_index < old(
                self,
            )@.vertices.len() && !old(self)@.vertices[defect_index as int].is_defect,
        ensures
            final(self).wf(),
            final(self).initializer == old(self).initializer,
            final(self).nodes@.len() == old(self).nodes@.len() + 1,
            forall|k: int|
                0 <= k < old(self).nodes@.len() ==> final(self).nodes@[k] == old(self).nodes@[k],
            final(self).nodes@[dual_node.index as int].same_as(dual_node),
            final(self)@ == old(self)@.after_all(
                match dual_node.defect_vertex() {
                    Some(defect_index) => seq![
                        Instruction::AddDefectVertex { vertex: defect_index, node: dual_node.index },
                    ],
                    None => form_instructions(dual_node.circle(), dual_node.index),
                },
            ),
    {
        self.nodes.push(dual_node.duplicate());
        assert(nodes_wf(self.nodes@)) by {
            assert forall|k: int| 0 <= k < self.nodes@.len() implies {
                &&& (#[trigger] self.nodes@[k]).index == k
                &&& forall|m: int|
                    0 <= m < self.nodes@[k].circle().len() ==> self.nodes@[k].circle()[m] < k
            } by {
                if k < old(self).nodes@.len() {
                    assert(self.nodes@[k] == old(self).nodes@[k]);
                }
            }
        }
        match &dual_node.class {
            DualNodeClass::Blossom { nodes_circle } => {
                // creating blossom is cheap
                let ghost instructions = form_instructions(nodes_circle@, dual_node.index);
                let mut position: usize = 0;
                assert(instructions.take(0) =~= Seq::<Instruction>::empty());
                while position < nodes_circle.len()
                    invariant
                        self.wf(),
                        self.initializer == old(self).initializer,
                        self.nodes@.len() == old(self).nodes@.len() + 1,
                        forall|k: int|
                            0 <= k < old(self).nodes@.len() ==> self.nodes@[k] == old(
                                self,
                            ).nodes@[k],
                        self.nodes@[dual_node.index as int].same_as(dual_node),
                        dual_node.index == old(self).nodes@.len(),
                        position <= nodes_circle@.len(),
                        instructions == form_instructions(nodes_circle@, dual_node.index),
                        self@ == old(self)@.after_all(instructions.take(position as int)),
                    decreases nodes_circle@.len() - position,
                {
                    let node_index = nodes_circle[position];
                    let instruction = Instruction::SetBlossom {
                        node: node_index,
                        blossom: dual_node.index,
                    };
                    self.run_setting(instruction);
                    proof {
                        let done = instructions.take(position as int + 1);
                        assert(done.drop_last() =~= instructions.take(position as int));
                        assert(done.last() == instruction);
                    }
                    position += 1;
                }
                assert(instructions.take(position as int) =~= instructions);
            },
            DualNodeClass::DefectVertex { defect_index } => {
                let instruction = Instruction::AddDefectVertex {
                    vertex: *defect_index,
                    node: dual_node.index,
                };
                self.run_setting(instruction);
                proof {
                    let instructions = seq![instruction];
                    assert(instructions.drop_last() =~= Seq::<Instruction>::empty());
                    assert(instructions.last() == instruction);
                    assert(old(self)@.after_all(instructions.drop_last()) == old(self)@);
                }
            },
        }
    }

    /// Expands a blossom in the registers: the vertices of each node of its
    /// cycle go back to that node, found by the defects that the node is
    /// made of, and grow. The vertices do not remember the blossoms inside
    /// a blossom, so each defect is told anew.
    pub fn remove_blossom(&mut self, dual_node: &DualNode)
        requires
            old(self).wf(),
            dual_node.defect_vertex().is_none(),
            forall|m: int|
                0 <= m < dual_node.circle().len() ==> dual_node.circle()[m] < old(
                    self,
                ).nodes@.len(),
        ensures
            final(self).wf(),
            final(self).initializer == old(self).initializer,
            final(self).nodes == old(self).nodes,
            final(self)@ == old(self)@.after_all(
                expand_instructions(
                    old(self).nodes@,
                    dual_node.circle(),
                    dual_node.circle().len(),
                ),
            ),
    {
        match &dual_node.class {
            DualNodeClass::Blossom { nodes_circle } => {
                let mut position: usize = 0;
                assert(dual_node.circle() == nodes_circle@);
                assert forall|m: int| 0 <= m < nodes_circle@.len() implies nodes_circle@[m]
                    < self.nodes@.len() by {
                    assert(dual_node.circle()[m] < old(self).nodes@.len());
                }
                while position < nodes_circle.len()
                    invariant
                        self.wf(),
                        self.initializer == old(self).initializer,
                        self.nodes == old(self).nodes,
                        dual_node.circle() == nodes_circle@,
                        position <= nodes_circle@.len(),
                        forall|m: int|
                            0 <= m < nodes_circle@.len() ==> nodes_circle@[m] < self.nodes@.len(),
                        self@ == old(self)@.after_all(
                            expand_instructions(self.nodes@, nodes_circle@, position as nat),
                        ),
                    decreases nodes_circle@.len() - position,
                {
                    let blossom_index = nodes_circle[position];
                    let roots = get_blossom_roots(&self.nodes, blossom_index);
                    let ghost done = expand_instructions(
                        self.nodes@,
                        nodes_circle@,
                        position as nat,
                    );
                    let ghost instructions = member_instructions(self.nodes@, blossom_index);
                    let mut root_position: usize = 0;
                    assert(done + instructions.take(0) =~= done);
                    while root_position < roots.len()
                        invariant
                            self.wf(),
                            self.initializer == old(self).initializer,
                            self.nodes == old(self).nodes,
                            roots@ == blossom_roots(self.nodes@, blossom_index as int),
                            instructions == member_instructions(self.nodes@, blossom_index),
                            root_position <= roots@.len(),
                            self@ == old(self)@.after_all(
                                done + instructions.take(root_position as int),
                            ),
                        decreases roots@.len() - root_position,
                    {
                        let root_index = roots[root_position];
                        let instruction = Instruction::SetBlossom {
                            node: root_index,
                            blossom: blossom_index,
                        };
                        self.run_setting(instruction);
                        proof {
                            let next = done + instructions.take(root_position as int + 1);
                            assert(next.drop_last() =~= done + instructions.take(
                                root_position as int,
                            ));
                            assert(next.last() == instruction);
                        }
                        root_position += 1;
                    }
                    assert(done + instructions.take(root_position as int) =~= done + instructions);
                    position += 1;
                }
            },
            DualNodeClass::DefectVertex { .. } => {},
        }
    }

    /// Gives a node a grow state: every vertex that belongs to the node
    /// takes the speed.
    pub fn set_grow_state(&mut self, node_index: NodeIndex, grow_state: DualNodeGrowState)
        requires
            old(self).wf(),
        ensures
            final(self).wf(),
            final(self).has_registers(
                old(self),
                old(self)@.after(Instruction::SetSpeed { node: node_index, speed: grow_state }),
            ),
    {
        self.run_setting(Instruction::SetSpeed { node: node_index, speed: grow_state });
    }

    /// Asks the pipeline what limits the growth. Nothing does where no
    /// vertex and no edge answers.
    pub fn compute_maximum_update_length(&mut self) -> (max_update_length: Option<MaxUpdateLength>)
        requires
            old(self).wf(),
            old(self)@.after(Instruction::FindObstacle { region_preference: 0 }).respondable(
                Instruction::FindObstacle { region_preference: 0 },
            ),
        ensures
            final(self).wf(),
            final(self).has_registers(
                old(self),
                old(self)@.after(Instruction::FindObstacle { region_preference: 0 }),
            ),
            max_update_length == match final(self)@.response(
                Instruction::FindObstacle { region_preference: 0 },
            ) {
                Some(response) => Some(MaxUpdateLength::of(response)),
                None => None,
            },
    {
        proof {
            self@.lemma_accepted(Instruction::FindObstacle { region_preference: 0 });
        }
        let return_value = self.execute_instruction(
            Instruction::FindObstacle { region_preference: 0 },
        );
        match return_value {
            Some(response) => Some(MaxUpdateLength::from_response(response)),
            None => None,
        }
    }

    /// Lets time pass: every dual variable moves by its speed times the
    /// length, and so does each side of every edge between two nodes.
    pub fn grow(&mut self, length: Weight)
        requires
            old(self).wf(),
            length > 0,
            old(self)@.executable(Instruction::Grow { length }),
        ensures
            final(self).wf(),
            final(self).has_registers(old(self), old(self)@.after(Instruction::Grow { length })),
    {
        proof {
            self@.after(Instruction::Grow { length }).lemma_accepted(Instruction::Grow { length });
        }
        self.execute_instruction(Instruction::Grow { length });
    }
}

/// why the pipeline turns an instruction down
#[derive(Clone, Copy, Debug, PartialEq, Eq, Structural)]
pub enum PipelineError {
    /// growth by the length of the instruction would make a dual variable
    /// negative, or cover an edge beyond its weight
    GrowthRejected,
    /// an edge between two growing vertices has an odd remainder, so that
    /// the length it would tell is not exact
    InexactLength,
}

impl DualNodeGrowState {
    /// The change of a dual variable per unit of growth.
    pub fn speed(self) -> (speed: Weight)
        ensures
            speed == self.spec_speed(),
    {
        match self {
            DualNodeGrowState::Stay => 0,
            DualNodeGrowState::Shrink => -1,
            DualNodeGrowState::Grow => 1,
        }
    }
}

impl DualModuleRTL {
    /// Whether the execute stage accepts the instruction: whether growth
    /// leaves every dual variable non-negative and every edge feasible.
    pub fn can_execute(&self, instruction: &Instruction) -> (accepted: bool)
        requires
            self.wf(),
        ensures
            accepted == self@.executable(*instruction),
    {
        match instruction {
            Instruction::Grow { length } => {
                let mut index: usize = 0;
                while index < self.vertices.len()
                    invariant
                        index <= self.vertices@.len(),
                        *instruction == (Instruction::Grow { length: *length }),
                        forall|i: int|
                            0 <= i < index ==> (#[trigger] self@.vertices[i]).executable(
                                *instruction,
                            ),
                    decreases self.vertices@.len() - index,
                {
                    let vertex = &self.vertices[index];
                    assert(vertex@ == self@.vertices[index as int]);
                    let after: i128 = vertex.grown as i128 + (vertex.speed.speed() as i128) * (
                    *length as i128);
                    if after < 0 || after > isize::MAX as i128 {
                        assert(!self@.vertices[index as int].executable(*instruction));
                        return false;
                    }
                    index += 1;
                }
                let mut index: usize = 0;
                while index < self.edges.len()
                    invariant
                        self.wf(),
                        index <= self.edges@.len(),
                        *instruction == (Instruction::Grow { length: *length }),
                        forall|i: int|
                            0 <= i < self.vertices@.len() ==> (
                            #[trigger] self@.vertices[i]).executable(*instruction),
                        forall|j: int|
                            0 <= j < index ==> (#[trigger] self@.edges[j]).executable(
                                self@.vertices,
                                *instruction,
                            ),
                    decreases self.edges@.len() - index,
                {
                    let edge = &self.edges[index];
                    assert(*edge == self@.edges[index as int]);
                    let left_vertex = &self.vertices[edge.left_index];
                    let right_vertex = &self.vertices[edge.right_index];
                    assert(left_vertex@ == self@.vertices[edge.left_index as int]);
                    assert(right_vertex@ == self@.vertices[edge.right_index as int]);
                    if !same_node(&left_vertex.node_index, &right_vertex.node_index) {
                        let left_after: i128 = edge.left_growth as i128 + (
                        left_vertex.speed.speed() as i128) * (*length as i128);
                        let right_after: i128 = edge.right_growth as i128 + (
                        right_vertex.speed.speed() as i128) * (*length as i128);
                        if left_after < 0 || right_after < 0 || left_after + right_after
                            > edge.weight as i128 {
                            assert(!self@.edges[index as int].executable(
                                self@.vertices,
                                *instruction,
                            ));
                            return false;
                        }
                    }
                    index += 1;
                }
                true
            },
            _ => true,
        }
    }

    /// Whether the write stage accepts the instruction: whether every edge
    /// between two growing vertices of different nodes has an even
    /// remainder.
    pub fn can_respond(&self, instruction: &Instruction) -> (accepted: bool)
        requires
            self.wf(),
        ensures
            accepted == self@.respondable(*instruction),
    {
        if !matches!(instruction, Instruction::FindObstacle { .. }) {
            return true;
        }
        let mut index: usize = 0;
        while index < self.edges.len()
            invariant
                self.wf(),
                index <= self.edges@.len(),
                *instruction is FindObstacle,
                forall|j: int|
                    0 <= j < index ==> self@.edge_respondable(
                        #[trigger] self@.edges[j],
                        *instruction,
                    ),
            decreases self.edges@.len() - index,
        {
            let edge = &self.edges[index];
            assert(*edge == self@.edges[index as int]);
            let left_vertex = &self.vertices[edge.left_index];
            let right_vertex = &self.vertices[edge.right_index];
            assert(left_vertex@ == self@.vertices[edge.left_index as int]);
            assert(right_vertex@ == self@.vertices[edge.right_index as int]);
            if !same_node(&left_vertex.node_index, &right_vertex.node_index)
                && left_vertex.get_speed() + right_vertex.get_speed() == 2 {
                let remaining: Weight = edge.weight - edge.left_growth - edge.right_growth;
                if remaining % 2 != 0 {
                    assert(!self@.edge_respondable(self@.edges[index as int], *instruction));
                    return false;
                }
            }
            index += 1;
        }
        true
    }

    /// Passes one instruction through the pipeline if the pipeline accepts
    /// it. Growth that the execute stage turns down leaves the registers as
    /// they were. A length that would not be exact shows only after the
    /// update stage, whose registers then stand.
    pub fn try_execute_instruction(&mut self, instruction: Instruction) -> (result: Result<
        Option<Response>,
        PipelineError,
    >)
        requires
            old(self).wf(),
        ensures
            final(self).wf(),
            !old(self)@.executable(instruction) ==> result == Err::<
                Option<Response>,
                PipelineError,
            >(PipelineError::GrowthRejected) && *final(self) == *old(self),
            old(self)@.executable(instruction) ==> final(self).has_registers(
                old(self),
                old(self)@.after(instruction),
            ) && result == if final(self)@.respondable(instruction) {
                Ok::<Option<Response>, PipelineError>(final(self)@.response(instruction))
            } else {
                Err::<Option<Response>, PipelineError>(PipelineError::InexactLength)
            },
    {
        if !self.can_execute(&instruction) {
            return Err(PipelineError::GrowthRejected);
        }
        proof {
            self@.lemma_after_wf(instruction);
        }
        self.run_execute_stage(&instruction);
        self.run_update_stage(&instruction);
        if !self.can_respond(&instruction) {
            return Err(PipelineError::InexactLength);
        }
        Ok(self.run_write_stage(&instruction))
    }
}

impl DualNodeGrowState {
    /// the grow state that a compact grow state stands for
    pub open spec fn spec_from_compact(grow_state: CompactGrowState) -> DualNodeGrowState {
        match grow_state {
            CompactGrowState::Stay => DualNodeGrowState::Stay,
            CompactGrowState::Grow => DualNodeGrowState::Grow,
            CompactGrowState::Shrink => DualNodeGrowState::Shrink,
        }
    }

    /// The grow state that a compact grow state stands for.
    pub fn from_compact(grow_state: CompactGrowState) -> (state: DualNodeGrowState)
        ensures
            state == Self::spec_from_compact(grow_state),
    {
        match grow_state {
            CompactGrowState::Stay => DualNodeGrowState::Stay,
            CompactGrowState::Grow => DualNodeGrowState::Grow,
            CompactGrowState::Shrink => DualNodeGrowState::Shrink,
        }
    }
}

impl Response {
    /// whether an answer can be told in compact form: every index fits a
    /// compact index, and a length a compact weight
    pub open spec fn compactable(response: Option<Response>) -> bool {
        match response {
            None => true,
            Some(Response::NonZeroGrow { length }) => CompactWeight::MIN <= length
                <= CompactWeight::MAX,
            Some(Response::Conflict { node_1, node_2, touch_1, touch_2, vertex_1, vertex_2 }) => {
                &&& node_1 <= CompactNodeNum::MAX
                &&& node_2 <= CompactNodeNum::MAX
                &&& touch_1 <= CompactNodeNum::MAX
                &&& touch_2 <= CompactNodeNum::MAX
                &&& vertex_1 <= CompactVertexNum::MAX
                &&& vertex_2 <= CompactVertexNum::MAX
            },
            Some(Response::ConflictVirtual { node, touch, vertex, virtual_vertex }) => {
                &&& node <= CompactNodeNum::MAX
                &&& touch <= CompactNodeNum::MAX
                &&& vertex <= CompactVertexNum::MAX
                &&& virtual_vertex <= CompactVertexNum::MAX
            },
            Some(Response::BlossomNeedExpand { blossom }) => blossom <= CompactNodeNum::MAX,
        }
    }

    /// The obstacle that an answer of the pipeline stands for. No answer
    /// is no obstacle. A conflict with a virtual vertex is a conflict
    /// whose second side names no node.
    pub open spec fn spec_compact(response: Option<Response>) -> CompactObstacle {
        match response {
            None => CompactObstacle::NoObstacle,
            Some(Response::NonZeroGrow { length }) => CompactObstacle::GrowLength {
                length: length as CompactWeight,
            },
            Some(
                Response::Conflict { node_1, node_2, touch_1, touch_2, vertex_1, vertex_2 },
            ) => CompactObstacle::Conflict {
                node_1: Some(CompactNodeIndex(node_1 as CompactNodeNum)),
                touch_1: Some(CompactNodeIndex(touch_1 as CompactNodeNum)),
                vertex_1: CompactVertexIndex(vertex_1 as CompactVertexNum),
                node_2: Some(CompactNodeIndex(node_2 as CompactNodeNum)),
                touch_2: Some(CompactNodeIndex(touch_2 as CompactNodeNum)),
                vertex_2: CompactVertexIndex(vertex_2 as CompactVertexNum),
            },
            Some(
                Response::ConflictVirtual { node, touch, vertex, virtual_vertex },
            ) => CompactObstacle::Conflict {
                node_1: Some(CompactNodeIndex(node as CompactNodeNum)),
                touch_1: Some(CompactNodeIndex(touch as CompactNodeNum)),
                vertex_1: CompactVertexIndex(vertex as CompactVertexNum),
                node_2: None,
                touch_2: None,
                vertex_2: CompactVertexIndex(virtual_vertex as CompactVertexNum),
            },
            Some(Response::BlossomNeedExpand { blossom }) => CompactObstacle::BlossomNeedExpand {
                blossom: CompactNodeIndex(blossom as CompactNodeNum),
            },
        }
    }

    /// Whether an answer can be told in compact form.
    pub fn is_compactable(response: &Option<Response>) -> (fits: bool)
        ensures
            fits == Self::compactable(*response),
    {
        match response {
            None => true,
            Some(Response::NonZeroGrow { length }) => CompactWeight::MIN as isize <= *length
                && *length <= CompactWeight::MAX as isize,
            Some(Response::Conflict { node_1, node_2, touch_1, touch_2, vertex_1, vertex_2 }) => {
                *node_1 <= CompactNodeNum::MAX as usize && *node_2 <= CompactNodeNum::MAX as usize
                    && *touch_1 <= CompactNodeNum::MAX as usize && *touch_2
                    <= CompactNodeNum::MAX as usize && *vertex_1 <= CompactVertexNum::MAX as usize
                    && *vertex_2 <= CompactVertexNum::MAX as usize
            },
            Some(Response::ConflictVirtual { node, touch, vertex, virtual_vertex }) => {
                *node <= CompactNodeNum::MAX as usize && *touch <= CompactNodeNum::MAX as usize
                    && *vertex <= CompactVertexNum::MAX as usize && *virtual_vertex
                    <= CompactVertexNum::MAX as usize
            },
            Some(Response::BlossomNeedExpand { blossom }) => *blossom
                <= CompactNodeNum::MAX as usize,
        }
    }

    /// The obstacle that an answer of the pipeline stands for.
    pub fn compact(response: Option<Response>) -> (obstacle: CompactObstacle)
        requires
            Self::compactable(response),
        ensures
            obstacle == Self::spec_compact(response),
    {
        match response {
            None => CompactObstacle::NoObstacle,
            Some(Response::NonZeroGrow { length }) => CompactObstacle::GrowLength {
                length: length as CompactWeight,
            },
            Some(
                Response::Conflict { node_1, node_2, touch_1, touch_2, vertex_1, vertex_2 },
            ) => CompactObstacle::Conflict {
                node_1: Some(CompactNodeIndex::new(node_1 as CompactNodeNum)),
                touch_1: Some(CompactNodeIndex::new(touch_1 as CompactNodeNum)),
                vertex_1: CompactVertexIndex::new(vertex_1 as CompactVertexNum),
                node_2: Some(CompactNodeIndex::new(node_2 as CompactNodeNum)),
                touch_2: Some(CompactNodeIndex::new(touch_2 as CompactNodeNum)),
                vertex_2: CompactVertexIndex::new(vertex_2 as CompactVertexNum),
            },
            Some(
                Response::ConflictVirtual { node, touch, vertex, virtual_vertex },
            ) => CompactObstacle::Conflict {
                node_1: Some(CompactNodeIndex::new(node as CompactNodeNum)),
                touch_1: Some(CompactNodeIndex::new(touch as CompactNodeNum)),
                vertex_1: CompactVertexIndex::new(vertex as CompactVertexNum),
                node_2: None,
                touch_2: None,
                vertex_2: CompactVertexIndex::new(virtual_vertex as CompactVertexNum),
            },
            Some(Response::BlossomNeedExpand { blossom }) => CompactObstacle::BlossomNeedExpand {
                blossom: CompactNodeIndex::new(blossom as CompactNodeNum),
            },
        }
    }
}

/// the instruction that asks for an obstacle
pub open spec fn find_obstacle_instruction() -> Instruction {
    Instruction::FindObstacle { region_preference: 0 }
}

/// the node indices of compact node indices
pub open spec fn plain_indices(members: Seq<CompactNodeIndex>) -> Seq<NodeIndex> {
    Seq::new(members.len(), |k: int| members[k].0 as usize)
}

impl DualInterface for DualModuleRTL {
    open spec fn accepts_instructions(&self) -> bool {
        self.wf()
    }

    /// The instruction that sets the speed has passed the pipeline.
    open spec fn grow_state_set(
        &self,
        after: &Self,
        node: CompactNodeIndex,
        grow_state: CompactGrowState,
    ) -> bool {
        after.has_registers(
            self,
            self@.after(
                Instruction::SetSpeed {
                    node: node.0 as usize,
                    speed: DualNodeGrowState::spec_from_compact(grow_state),
                },
            ),
        )
    }

    /// The node is the next one, and the vertex is a vertex of the graph
    /// that is no defect yet.
    open spec fn can_add_defect(&self, vertex: CompactVertexIndex, node: CompactNodeIndex) -> bool {
        &&& node@ == self.nodes@.len()
        &&& vertex@ < self@.vertices.len()
        &&& !self@.vertices[vertex@].is_defect
    }

    /// The defect is the last of the dual nodes, and the instruction that
    /// adds it has passed the pipeline.
    open spec fn defect_added(
        &self,
        after: &Self,
        vertex: CompactVertexIndex,
        node: CompactNodeIndex,
    ) -> bool {
        &&& after.initializer == self.initializer
        &&& after.nodes@.len() == self.nodes@.len() + 1
        &&& forall|k: int| 0 <= k < self.nodes@.len() ==> after.nodes@[k] == self.nodes@[k]
        &&& after.nodes@[node@].index == node@
        &&& after.nodes@[node@].defect_vertex() == Some(vertex.0 as usize)
        &&& after@ == self@.after(
            Instruction::AddDefectVertex { vertex: vertex.0 as usize, node: node.0 as usize },
        )
    }

    /// The blossom is the next node, and is made of nodes that are there.
    open spec fn can_create_blossom(
        &self,
        members: &Vec<CompactNodeIndex>,
        blossom: CompactNodeIndex,
    ) -> bool {
        &&& blossom@ == self.nodes@.len()
        &&& forall|m: int| 0 <= m < members@.len() ==> (#[trigger] members@[m])@ < blossom@
    }

    /// The blossom is the last of the dual nodes, and for each of its
    /// members in turn the instruction that hands the vertices over has
    /// passed the pipeline.
    open spec fn blossom_created(
        &self,
        after: &Self,
        members: &Vec<CompactNodeIndex>,
        blossom: CompactNodeIndex,
    ) -> bool {
        &&& after.initializer == self.initializer
        &&& after.nodes@.len() == self.nodes@.len() + 1
        &&& forall|k: int| 0 <= k < self.nodes@.len() ==> after.nodes@[k] == self.nodes@[k]
        &&& after.nodes@[blossom@].index == blossom@
        &&& after.nodes@[blossom@].defect_vertex().is_none()
        &&& after.nodes@[blossom@].circle() == plain_indices(members@)
        &&& after@ == self@.after_all(
            form_instructions(plain_indices(members@), blossom.0 as usize),
        )
    }

    open spec fn can_expand_blossom(&self, blossom: CompactNodeIndex) -> bool {
        &&& blossom@ < self.nodes@.len()
        &&& self.nodes@[blossom@].defect_vertex().is_none()
    }

    /// The instructions that give the vertices back, one for each defect of
    /// each member, have passed the pipeline.
    open spec fn blossom_expanded(&self, after: &Self, blossom: CompactNodeIndex) -> bool {
        after.has_registers(
            self,
            self@.after_all(
                expand_instructions(
                    self.nodes@,
                    self.nodes@[blossom@].circle(),
                    self.nodes@[blossom@].circle().len(),
                ),
            ),
        )
    }

    /// The write stage accepts the registers as they are after the update
    /// stage, and its answer can be told in compact form.
    open spec fn can_find_obstacle(&self) -> bool {
        &&& self@.after(find_obstacle_instruction()).respondable(find_obstacle_instruction())
        &&& Response::compactable(
            self@.after(find_obstacle_instruction()).response(find_obstacle_instruction()),
        )
    }

    open spec fn obstacle_found(&self, after: &Self, obstacle: CompactObstacle) -> bool {
        &&& after.has_registers(self, self@.after(find_obstacle_instruction()))
        &&& obstacle == Response::spec_compact(after@.response(find_obstacle_instruction()))
    }

    open spec fn can_grow(&self, length: CompactWeight) -> bool {
        length > 0 && self@.executable(Instruction::Grow { length: length as isize })
    }

    open spec fn has_grown(&self, after: &Self, length: CompactWeight) -> bool {
        after.has_registers(self, self@.after(Instruction::Grow { length: length as isize }))
    }

    fn set_grow_state(&mut self, node: CompactNodeIndex, grow_state: CompactGrowState) {
        self.run_setting(
            Instruction::SetSpeed {
                node: node.get() as usize,
                speed: DualNodeGrowState::from_compact(grow_state),
            },
        );
    }

    fn add_defect(&mut self, vertex: CompactVertexIndex, node: CompactNodeIndex) {
        let dual_node = DualNode {
            index: node.get() as usize,
            class: DualNodeClass::DefectVertex { defect_index: vertex.get() as usize },
        };
        self.add_dual_node(&dual_node);
        proof {
            let instruction = Instruction::AddDefectVertex {
                vertex: vertex.0 as usize,
                node: node.0 as usize,
            };
            let instructions = seq![instruction];
            assert(instructions.drop_last() =~= Seq::<Instruction>::empty());
            assert(instructions.last() == instruction);
            assert(old(self)@.after_all(instructions.drop_last()) == old(self)@);
        }
    }

    fn create_blossom(&mut self, members: &Vec<CompactNodeIndex>, blossom: CompactNodeIndex) {
        let mut nodes_circle: Vec<NodeIndex> = Vec::new();
        let mut position: usize = 0;
        while position < members.len()
            invariant
                position <= members@.len(),
                nodes_circle@ == plain_indices(members@).take(position as int),
            decreases members@.len() - position,
        {
            nodes_circle.push(members[position].get() as usize);
            position += 1;
            assert(nodes_circle@ =~= plain_indices(members@).take(position as int));
        }
        assert(nodes_circle@ =~= plain_indices(members@));
        let dual_node = DualNode {
            index: blossom.get() as usize,
            class: DualNodeClass::Blossom { nodes_circle },
        };
        assert forall|m: int| 0 <= m < dual_node.circle().len() implies dual_node.circle()[m]
            < dual_node.index by {
            assert(members@[m]@ < blossom@);
        }
        self.add_dual_node(&dual_node);
    }

    fn expand_blossom(&mut self, blossom: CompactNodeIndex) {
        let dual_node = self.nodes[blossom.get() as usize].duplicate();
        assert forall|m: int| 0 <= m < dual_node.circle().len() implies dual_node.circle()[m]
            < self.nodes@.len() by {
            assert(self.nodes@[blossom@].circle()[m] < blossom@);
        }
        self.remove_blossom(&dual_node);
    }

    fn find_obstacle(&mut self) -> (obstacle: CompactObstacle) {
        proof {
            self@.lemma_accepted(find_obstacle_instruction());
        }
        let response = self.execute_instruction(Instruction::FindObstacle { region_preference: 0 });
        Response::compact(response)
    }

    fn grow(&mut self, length: CompactWeight) {
        DualModuleRTL::grow(self, length as isize);
    }
}

} // verus!
