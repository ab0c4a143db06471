//! Forming a blossom in the dual module and expanding it at once.
//!
//! The vertices do not remember the nodes that a blossom was made of: to
//! expand it, every defect inside it is told anew which node it belongs to.
//! This file proves that the two together give back what the dual module held
//! before, as far as it can be given back: the dual variables, the edges, and
//! the node of every vertex that the update stage leaves alone.

use crate::dual_module_rtl::blossom_roots;
use crate::dual_module_rtl::circle_roots;
use crate::dual_module_rtl::expand_instructions;
use crate::dual_module_rtl::form_instructions;
use crate::dual_module_rtl::member_instructions;
use crate::dual_module_rtl::nodes_wf;
use crate::dual_module_rtl::DualNode;
use crate::dual_module_rtl::DualNodeGrowState;
use crate::dual_module_rtl::Instruction;
use crate::dual_module_rtl::NodeIndex;
use crate::dual_module_rtl::Registers;
use crate::dual_module_rtl::VertexView;
use vstd::prelude::*;

verus! {

/// every instruction hands vertices over to a node
pub open spec fn all_set_blossom(instructions: Seq<Instruction>) -> bool {
    forall|i: int| 0 <= i < instructions.len() ==> (#[trigger] instructions[i]) is SetBlossom
}

impl VertexView {
    /// The update stage leaves the vertex alone: it is a defect or virtual,
    /// or it has grown.
    pub open spec fn settled(&self) -> bool {
        self.is_defect || self.is_virtual || self.grown != 0
    }

    /// the vertex once each of the instructions has passed the execute stage
    pub open spec fn executed_all(&self, instructions: Seq<Instruction>) -> VertexView
        decreases instructions.len(),
    {
        if instructions.len() == 0 {
            *self
        } else {
            self.executed_all(instructions.drop_last()).executed(instructions.last())
        }
    }

    /// the vertex with another node, otherwise the same
    pub open spec fn with_node(&self, node: NodeIndex) -> VertexView {
        VertexView { node_index: Some(node), ..*self }
    }

    /// Instructions that hand vertices over change neither what a vertex has
    /// grown, nor its root, nor whether it is a defect or virtual.
    pub proof fn lemma_executed_all_keeps(&self, instructions: Seq<Instruction>)
        requires
            all_set_blossom(instructions),
        ensures
            self.executed_all(instructions).grown == self.grown,
            self.executed_all(instructions).root_index == self.root_index,
            self.executed_all(instructions).is_defect == self.is_defect,
            self.executed_all(instructions).is_virtual == self.is_virtual,
            self.executed_all(instructions).vertex_index == self.vertex_index,
            self.executed_all(instructions).edge_indices == self.edge_indices,
        decreases instructions.len(),
    {
        if instructions.len() > 0 {
            assert(instructions.last() is SetBlossom);
            self.lemma_executed_all_keeps(instructions.drop_last());
        }
    }

    /// Instructions one after the other are the first of them, then the rest.
    pub proof fn lemma_executed_all_concat(
        &self,
        first: Seq<Instruction>,
        second: Seq<Instruction>,
    )
        ensures
            self.executed_all(first + second) == self.executed_all(first).executed_all(second),
        decreases second.len(),
    {
        if second.len() == 0 {
            assert(first + second =~= first);
        } else {
            assert((first + second).drop_last() =~= first + second.drop_last());
            assert((first + second).last() == second.last());
            self.lemma_executed_all_concat(first, second.drop_last());
        }
    }
}

impl Registers {
    /// Instructions that hand vertices over leave the edges and the dual
    /// variables as they are, and act on a vertex that the update stage
    /// leaves alone through the execute stage only.
    pub proof fn lemma_after_all_set_blossom(&self, instructions: Seq<Instruction>)
        requires
            all_set_blossom(instructions),
        ensures
            self.after_all(instructions).edges == self.edges,
            self.after_all(instructions).vertices.len() == self.vertices.len(),
            forall|v: int|
                0 <= v < self.vertices.len() ==> (#[trigger] self.after_all(
                    instructions,
                ).vertices[v]).grown == self.vertices[v].grown,
            forall|v: int|
                0 <= v < self.vertices.len() && self.vertices[v].settled() ==> (
                #[trigger] self.after_all(instructions).vertices[v])
                    == self.vertices[v].executed_all(instructions),
        decreases instructions.len(),
    {
        if instructions.len() > 0 {
            let before = self.after_all(instructions.drop_last());
            let last = instructions.last();
            assert(last is SetBlossom);
            self.lemma_after_all_set_blossom(instructions.drop_last());
            assert(before.executed(last).edges =~= before.edges);
            assert forall|v: int| 0 <= v < self.vertices.len() && self.vertices[v].settled() implies (
            #[trigger] self.after_all(instructions).vertices[v]) == self.vertices[v].executed_all(
                instructions,
            ) by {
                self.vertices[v].lemma_executed_all_keeps(instructions.drop_last());
            }
        }
    }
}

/// The defects that a node is made of are defects that came no later than
/// the node, and each of them is made of itself alone.
pub proof fn lemma_roots_are_defects(nodes: Seq<DualNode>, node_index: int)
    requires
        nodes_wf(nodes),
        0 <= node_index < nodes.len(),
    ensures
        forall|j: int|
            0 <= j < blossom_roots(nodes, node_index).len() ==> is_defect_before(
                nodes,
                #[trigger] blossom_roots(nodes, node_index)[j],
                node_index + 1,
            ),
    decreases node_index, 1nat, 0nat,
{
    let roots = blossom_roots(nodes, node_index);
    assert(nodes[node_index].index == node_index);
    if nodes[node_index].defect_vertex().is_none() {
        let circle = nodes[node_index].circle();
        lemma_circle_roots_are_defects(nodes, circle, node_index, circle.len());
        assert(roots == circle_roots(nodes, circle, node_index, circle.len()));
        assert forall|j: int| 0 <= j < roots.len() implies is_defect_before(
            nodes,
            #[trigger] roots[j],
            node_index + 1,
        ) by {
            assert(is_defect_before(nodes, roots[j], node_index));
        }
    } else {
        assert(roots == seq![nodes[node_index].index]);
    }
}

/// the node `root` is a defect with an index below `bound`, made of itself
pub open spec fn is_defect_before(nodes: Seq<DualNode>, root: NodeIndex, bound: int) -> bool {
    &&& root < bound
    &&& root < nodes.len()
    &&& nodes[root as int].defect_vertex().is_some()
    &&& blossom_roots(nodes, root as int) == seq![root]
}

/// the defects of the nodes of a cycle are defects that came before the
/// bound of the cycle
pub proof fn lemma_circle_roots_are_defects(
    nodes: Seq<DualNode>,
    circle: Seq<NodeIndex>,
    bound: int,
    count: nat,
)
    requires
        nodes_wf(nodes),
        0 <= bound <= nodes.len(),
        count <= circle.len(),
    ensures
        forall|j: int|
            0 <= j < circle_roots(nodes, circle, bound, count).len() ==> is_defect_before(
                nodes,
                #[trigger] circle_roots(nodes, circle, bound, count)[j],
                bound,
            ),
    decreases bound, 0nat, count,
{
    if count > 0 {
        let before = circle_roots(nodes, circle, bound, (count - 1) as nat);
        let roots = circle_roots(nodes, circle, bound, count);
        lemma_circle_roots_are_defects(nodes, circle, bound, (count - 1) as nat);
        if circle[count - 1] < bound {
            let member = circle[count - 1] as int;
            lemma_roots_are_defects(nodes, member);
            assert(roots == before + blossom_roots(nodes, member));
            assert forall|j: int| 0 <= j < roots.len() implies is_defect_before(
                nodes,
                #[trigger] roots[j],
                bound,
            ) by {
                if j < before.len() {
                    assert(roots[j] == before[j]);
                } else {
                    assert(roots[j] == blossom_roots(nodes, member)[j - before.len()]);
                    assert(is_defect_before(nodes, roots[j], member + 1));
                }
            }
        }
    }
}

/// the vertex belongs to the node, or was reached from it
pub open spec fn claims(vertex: VertexView, node: NodeIndex) -> bool {
    vertex.node_index == Some(node) || vertex.root_index == Some(node)
}

/// the vertex belongs to one of the first `count` nodes of the cycle, or was
/// reached from one
pub open spec fn claimed_among(vertex: VertexView, circle: Seq<NodeIndex>, count: int) -> bool {
    exists|j: int| 0 <= j < count && claims(vertex, #[trigger] circle[j])
}

/// the vertex once it belongs to a growing blossom
pub open spec fn taken_over(vertex: VertexView, blossom: NodeIndex) -> VertexView {
    VertexView { node_index: Some(blossom), speed: DualNodeGrowState::Grow, ..vertex }
}

/// Forming a blossom gives it, growing, every vertex that one of its nodes
/// claims, and leaves every other vertex alone, as far as the execute stage
/// goes.
pub proof fn lemma_formed(vertex: VertexView, circle: Seq<NodeIndex>, blossom: NodeIndex, count: int)
    requires
        0 <= count <= circle.len(),
        forall|k: int| 0 <= k < circle.len() ==> #[trigger] circle[k] != blossom,
    ensures
        vertex.executed_all(form_instructions(circle.take(count), blossom)) == if claimed_among(
            vertex,
            circle,
            count,
        ) {
            taken_over(vertex, blossom)
        } else {
            vertex
        },
    decreases count,
{
    let instructions = form_instructions(circle.take(count), blossom);
    if count > 0 {
        lemma_formed(vertex, circle, blossom, count - 1);
        assert(instructions.drop_last() =~= form_instructions(circle.take(count - 1), blossom));
        assert(instructions.last() == Instruction::SetBlossom {
            node: circle[count - 1],
            blossom,
        });
        if claimed_among(vertex, circle, count - 1) {
            let j = choose|j: int| 0 <= j < count - 1 && claims(vertex, #[trigger] circle[j]);
            assert(claims(vertex, circle[j]));
        } else if claims(vertex, circle[count - 1]) {
        } else {
            if claimed_among(vertex, circle, count) {
                let j = choose|j: int| 0 <= j < count && claims(vertex, #[trigger] circle[j]);
                assert(j < count - 1);
            }
        }
    }
}

/// What the expansion needs of the node `member` of the cycle: none of its
/// defects is the blossom, and if one of them is the root of the vertex or
/// the node of the vertex, then `member` is that node.
pub open spec fn tells_apart(
    nodes: Seq<DualNode>,
    member: NodeIndex,
    blossom: NodeIndex,
    node: NodeIndex,
    root: NodeIndex,
) -> bool {
    forall|j: int|
        0 <= j < blossom_roots(nodes, member as int).len() ==> {
            let told = #[trigger] blossom_roots(nodes, member as int)[j];
            &&& told != blossom
            &&& told == root ==> member == node
            &&& told == node ==> member == node
        }
}

/// the first `count` defects of the node `member` hold the root
pub open spec fn root_among(nodes: Seq<DualNode>, member: NodeIndex, root: NodeIndex, count: int) -> bool {
    exists|j: int| 0 <= j < count && #[trigger] blossom_roots(nodes, member as int)[j] == root
}

/// Telling the defects of one node of the cycle leaves a vertex of the
/// blossom with the blossom or with its own node; with its own node it
/// stays; and it gets its own node when its root is told.
pub proof fn lemma_member_told(
    vertex: VertexView,
    start: VertexView,
    nodes: Seq<DualNode>,
    member: NodeIndex,
    blossom: NodeIndex,
    node: NodeIndex,
    root: NodeIndex,
    count: int,
)
    requires
        vertex.root_index == Some(root),
        vertex.speed == DualNodeGrowState::Grow,
        start == vertex.with_node(blossom) || start == vertex.with_node(node),
        tells_apart(nodes, member, blossom, node, root),
        0 <= count <= blossom_roots(nodes, member as int).len(),
    ensures
        ({
            let told = start.executed_all(member_instructions(nodes, member).take(count));
            &&& told == vertex.with_node(blossom) || told == vertex.with_node(node)
            &&& start == vertex.with_node(node) ==> told == vertex.with_node(node)
            &&& member == node && root_among(nodes, member, root, count) ==> told
                == vertex.with_node(node)
        }),
    decreases count,
{
    let instructions = member_instructions(nodes, member).take(count);
    if count > 0 {
        lemma_member_told(vertex, start, nodes, member, blossom, node, root, count - 1);
        assert(instructions.drop_last() =~= member_instructions(nodes, member).take(count - 1));
        let told = blossom_roots(nodes, member as int)[count - 1];
        assert(instructions.last() == Instruction::SetBlossom { node: told, blossom: member });
        if member == node && root_among(nodes, member, root, count) {
            let j = choose|j: int|
                0 <= j < count && #[trigger] blossom_roots(nodes, member as int)[j] == root;
            if j < count - 1 {
                assert(root_among(nodes, member, root, count - 1));
            }
        }
    }
}

/// the first `count` nodes of the cycle hold the node
pub open spec fn node_among(circle: Seq<NodeIndex>, node: NodeIndex, count: int) -> bool {
    exists|k: int| 0 <= k < count && #[trigger] circle[k] == node
}

/// Expanding a blossom gives a vertex of it back to its own node, once the
/// node of the cycle that holds its root has been told.
pub proof fn lemma_expanded(
    vertex: VertexView,
    nodes: Seq<DualNode>,
    circle: Seq<NodeIndex>,
    blossom: NodeIndex,
    node: NodeIndex,
    root: NodeIndex,
    count: nat,
)
    requires
        vertex.root_index == Some(root),
        vertex.speed == DualNodeGrowState::Grow,
        forall|k: int|
            0 <= k < circle.len() ==> tells_apart(nodes, #[trigger] circle[k], blossom, node, root),
        root_among(nodes, node, root, blossom_roots(nodes, node as int).len() as int),
        count <= circle.len(),
    ensures
        ({
            let told = vertex.with_node(blossom).executed_all(
                expand_instructions(nodes, circle, count),
            );
            &&& told == vertex.with_node(blossom) || told == vertex.with_node(node)
            &&& node_among(circle, node, count as int) ==> told == vertex.with_node(node)
        }),
    decreases count,
{
    if count > 0 {
        let before = expand_instructions(nodes, circle, (count - 1) as nat);
        let member = circle[count - 1];
        let telling = member_instructions(nodes, member);
        lemma_expanded(vertex, nodes, circle, blossom, node, root, (count - 1) as nat);
        let start = vertex.with_node(blossom).executed_all(before);
        vertex.with_node(blossom).lemma_executed_all_concat(before, telling);
        assert(telling.take(telling.len() as int) =~= telling);
        lemma_member_told(
            vertex,
            start,
            nodes,
            member,
            blossom,
            node,
            root,
            telling.len() as int,
        );
        if node_among(circle, node, count as int) {
            let k = choose|k: int| 0 <= k < count && #[trigger] circle[k] == node;
            if k < count - 1 {
                assert(node_among(circle, node, count - 1));
            }
        }
    }
}

/// Round trip of a blossom in the dual module. Let the instructions that
/// form a blossom pass the pipeline, and right after them those that expand
/// it. Then the edges and all dual variables are as before. And every vertex
/// that the update stage leaves alone, that belonged to a node of the cycle
/// and was reached from a defect of that node, belongs to that node again,
/// with its root and its flags as before; it grows, whatever it did before.
/// The defects of the nodes of the cycle must tell the nodes apart: the root
/// of the vertex is a defect of no other node of the cycle.
pub proof fn lemma_form_then_expand(
    registers: Registers,
    nodes: Seq<DualNode>,
    blossom: NodeIndex,
    v: int,
    node: NodeIndex,
    root: NodeIndex,
)
    requires
        nodes_wf(nodes),
        blossom < nodes.len(),
        nodes[blossom as int].defect_vertex().is_none(),
        0 <= v < registers.vertices.len(),
        registers.vertices[v].settled(),
        registers.vertices[v].node_index == Some(node),
        registers.vertices[v].root_index == Some(root),
        node_among(
            nodes[blossom as int].circle(),
            node,
            nodes[blossom as int].circle().len() as int,
        ),
        root_among(nodes, node, root, blossom_roots(nodes, node as int).len() as int),
        forall|k: int, j: int|
            0 <= k < nodes[blossom as int].circle().len() && 0 <= j < blossom_roots(
                nodes,
                nodes[blossom as int].circle()[k] as int,
            ).len() && #[trigger] blossom_roots(nodes, nodes[blossom as int].circle()[k] as int)[j]
                == root ==> nodes[blossom as int].circle()[k] == node,
    ensures
        ({
            let circle = nodes[blossom as int].circle();
            let after = registers.after_all(form_instructions(circle, blossom)).after_all(
                expand_instructions(nodes, circle, circle.len()),
            );
            &&& after.edges == registers.edges
            &&& after.vertices.len() == registers.vertices.len()
            &&& forall|u: int|
                0 <= u < registers.vertices.len() ==> (#[trigger] after.vertices[u]).grown
                    == registers.vertices[u].grown
            &&& after.vertices[v] == (VertexView {
                speed: DualNodeGrowState::Grow,
                ..registers.vertices[v]
            })
        }),
{
    let circle = nodes[blossom as int].circle();
    let forming = form_instructions(circle, blossom);
    let expanding = expand_instructions(nodes, circle, circle.len());
    let vertex = registers.vertices[v];
    let formed = registers.after_all(forming);
    lemma_expand_instructions_set_blossom(nodes, circle, circle.len());
    registers.lemma_after_all_set_blossom(forming);
    formed.lemma_after_all_set_blossom(expanding);
    // forming: the vertex goes to the blossom
    assert(circle.take(circle.len() as int) =~= circle);
    lemma_formed(vertex, circle, blossom, circle.len() as int);
    let k = choose|k: int| 0 <= k < circle.len() && #[trigger] circle[k] == node;
    assert(claims(vertex, circle[k]));
    vertex.lemma_executed_all_keeps(forming);
    assert(formed.vertices[v] == taken_over(vertex, blossom));
    // expanding: the vertex comes back to its node
    let grown = VertexView { speed: DualNodeGrowState::Grow, ..vertex };
    assert(taken_over(vertex, blossom) == grown.with_node(blossom));
    assert forall|k: int| 0 <= k < circle.len() implies tells_apart(
        nodes,
        #[trigger] circle[k],
        blossom,
        node,
        root,
    ) by {
        let member = circle[k];
        lemma_roots_are_defects(nodes, member as int);
        assert forall|j: int| 0 <= j < blossom_roots(nodes, member as int).len() implies {
            let told = #[trigger] blossom_roots(nodes, member as int)[j];
            &&& told != blossom
            &&& told == root ==> member == node
            &&& told == node ==> member == node
        } by {
            let told = blossom_roots(nodes, member as int)[j];
            assert(is_defect_before(nodes, told, member + 1));
            if told == node {
                // a node that is told is a defect, made of itself: it is the root
                let j0 = choose|j0: int|
                    0 <= j0 < blossom_roots(nodes, node as int).len() && #[trigger] blossom_roots(
                        nodes,
                        node as int,
                    )[j0] == root;
                assert(blossom_roots(nodes, node as int) == seq![node]);
                assert(root == node);
            }
        }
    }
    lemma_expanded(grown, nodes, circle, blossom, node, root, circle.len());
    assert(grown.with_node(node) == grown);
}

/// the instructions that expand a blossom all hand vertices over
pub proof fn lemma_expand_instructions_set_blossom(
    nodes: Seq<DualNode>,
    circle: Seq<NodeIndex>,
    count: nat,
)
    ensures
        all_set_blossom(expand_instructions(nodes, circle, count)),
    decreases count,
{
    if count > 0 && count <= circle.len() {
        lemma_expand_instructions_set_blossom(nodes, circle, (count - 1) as nat);
    }
}

} // verus!
