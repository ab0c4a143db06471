//! Primal Nodes
//!
//! A fixed-capacity store of the primal nodes: the defect nodes that the dual
//! module has reported so far, and every blossom. Defect nodes occupy the slots
//! `[0, N)`, blossoms the slots `[N, 2N)`. The store never allocates: a slot is
//! present or absent, and two counters say how far each half is in use.

use crate::interface::DualInterface;
use crate::util::CompactGrowState;
use crate::util::CompactMatchTarget;
use crate::util::CompactNodeIndex;
use crate::util::CompactNodeNum;
use crate::util::CompactVertexIndex;
use vstd::prelude::*;

verus! {

/// How a node touches the peer it is matched or linked to.
#[derive(Clone, Copy, Debug, PartialEq, Eq, Structural)]
pub struct TouchingLink {
    /// the inner node on this side that touches
    pub touch: Option<CompactNodeIndex>,
    /// the vertex on this side that the touch goes through
    pub through: Option<CompactVertexIndex>,
    /// the inner node on the peer's side that touches; absent for a virtual vertex
    pub peer_touch: Option<CompactNodeIndex>,
    /// the vertex on the peer's side that the touch goes through
    pub peer_through: Option<CompactVertexIndex>,
}

/// A primal node: a defect or a blossom.
#[derive(Clone, Copy, Debug)]
pub struct PrimalNode {
    /// the grow state of an outer node; absent for a node inside a blossom
    pub grow_state: Option<CompactGrowState>,
    /// for an outer node its parent in the alternating tree, for a node inside
    /// a blossom that blossom
    pub parent: Option<CompactNodeIndex>,
    /// for an outer node its first child in the alternating tree, for a blossom
    /// the first node of its cycle
    pub first_child: Option<CompactNodeIndex>,
    /// for an outer node another child of the same parent, or the node it is
    /// matched to; for a node inside a blossom the next node of the cycle
    pub sibling: Option<CompactNodeIndex>,
    /// the touch between this node and its parent, its match or its sibling
    pub link: TouchingLink,
}

/// The store of the primal nodes, for up to `N` defects and `N` blossoms;
/// `DOUBLE_N` is twice `N`.
#[derive(Debug)]
pub struct PrimalNodes<const N: usize, const DOUBLE_N: usize> {
    /// defect nodes starting from 0, blossom nodes starting from `N`
    pub buffer: [Option<PrimalNode>; DOUBLE_N],
    /// the first child within a blossom
    pub first_blossom_child: [Option<CompactNodeIndex>; N],
    /// the number of defect slots in use: one more than the largest defect
    /// index that was ever reported
    pub count_defects: usize,
    /// the number of allocated blossoms
    pub count_blossoms: usize,
}

impl<const N: usize, const DOUBLE_N: usize> View for PrimalNodes<N, DOUBLE_N> {
    type V = Map<int, PrimalNode>;

    /// The nodes that the store holds, by index: the present slots among those
    /// in use. What lies in a slot beyond the two counters is left over from an
    /// earlier decoding and is no node.
    open spec fn view(&self) -> Map<int, PrimalNode> {
        Map::new(
            |i: int| self.in_use(i) && self.buffer@[i].is_some(),
            |i: int| self.buffer@[i].unwrap(),
        )
    }
}

impl<const N: usize, const DOUBLE_N: usize> PrimalNodes<N, DOUBLE_N> {
    /// The two halves have the same size, every slot index fits a compact node
    /// index, and neither counter exceeds its half.
    pub open spec fn wf(&self) -> bool {
        &&& DOUBLE_N == 2 * N
        &&& DOUBLE_N <= 0x1_0000
        &&& self.count_defects <= N
        &&& self.count_blossoms <= N
    }

    /// the slot is a defect slot below `count_defects` or an allocated blossom slot
    pub open spec fn in_use(&self, i: int) -> bool {
        0 <= i < self.count_defects || N <= i < N + self.count_blossoms
    }

    /// the index lies in the blossom half, and that blossom has been allocated
    pub open spec fn index_valid(&self, node_index: CompactNodeIndex) -> bool {
        &&& node_index@ < DOUBLE_N
        &&& node_index@ >= N ==> node_index@ - N < self.count_blossoms
    }

    /// the index lies in the half of the blossoms
    pub open spec fn spec_is_blossom(&self, node_index: CompactNodeIndex) -> bool {
        node_index@ >= N
    }

    /// the slot of the index is present
    pub open spec fn spec_has_node(&self, node_index: CompactNodeIndex) -> bool {
        node_index@ < DOUBLE_N && self.buffer@[node_index@].is_some()
    }

    /// the node in the slot of the index
    pub open spec fn spec_get_node(&self, node_index: CompactNodeIndex) -> PrimalNode {
        self.buffer@[node_index@].unwrap()
    }

    /// `self` is `before` with the slot of `node_index` holding `slot`, and
    /// nothing else changed
    pub open spec fn is_update_of(
        &self,
        before: &Self,
        node_index: CompactNodeIndex,
        slot: Option<PrimalNode>,
    ) -> bool {
        &&& self.buffer@ == before.buffer@.update(node_index@, slot)
        &&& self.first_blossom_child == before.first_blossom_child
        &&& self.count_defects == before.count_defects
        &&& self.count_blossoms == before.count_blossoms
    }

    /// An empty store.
    pub fn new() -> (nodes: Self)
        requires
            N * 2 == DOUBLE_N,
            DOUBLE_N <= 0x1_0000,
        ensures
            nodes.wf(),
            nodes.count_defects == 0,
            nodes.count_blossoms == 0,
            forall|i: int| 0 <= i < DOUBLE_N ==> nodes.buffer@[i].is_none(),
            forall|i: int| 0 <= i < N ==> nodes.first_blossom_child@[i].is_none(),
            nodes@ == Map::<int, PrimalNode>::empty(),
    {
        let nodes = Self {
            buffer: [None; DOUBLE_N],
            first_blossom_child: [None; N],
            count_defects: 0,
            count_blossoms: 0,
        };
        assert(nodes@ =~= Map::<int, PrimalNode>::empty());
        nodes
    }

    /// Forgets every node by resetting both counters. The slots are not wiped:
    /// each is cleared when it comes into use again.
    pub fn clear(&mut self)
        ensures
            final(self).count_defects == 0,
            final(self).count_blossoms == 0,
            final(self).buffer == old(self).buffer,
            final(self).first_blossom_child == old(self).first_blossom_child,
            final(self)@ == Map::<int, PrimalNode>::empty(),
            old(self).wf() ==> final(self).wf(),
    {
        self.count_defects = 0;
        self.count_blossoms = 0;
        assert(self@ =~= Map::<int, PrimalNode>::empty());
    }

    /// Brings the defect slots up to and including `defect_index` into use,
    /// each of the new ones absent.
    fn prepare_defects_up_to(&mut self, defect_index: CompactNodeIndex)
        requires
            old(self).wf(),
            defect_index@ < N,
        ensures
            final(self).wf(),
            final(self).count_defects == if defect_index@ >= old(self).count_defects {
                defect_index@ + 1
            } else {
                old(self).count_defects as int
            },
            final(self).count_blossoms == old(self).count_blossoms,
            final(self).first_blossom_child == old(self).first_blossom_child,
            forall|i: int|
                0 <= i < DOUBLE_N ==> final(self).buffer@[i] == if old(self).count_defects <= i
                    <= defect_index@ {
                    None
                } else {
                    old(self).buffer@[i]
                },
    {
        let target: usize = defect_index.get() as usize;
        if target >= self.count_defects {
            let mut index: usize = self.count_defects;
            while index <= target
                invariant
                    DOUBLE_N == 2 * N,
                    target < N,
                    old(self).count_defects <= index <= target + 1,
                    self.count_defects == old(self).count_defects,
                    self.count_blossoms == old(self).count_blossoms,
                    self.first_blossom_child == old(self).first_blossom_child,
                    forall|i: int|
                        0 <= i < DOUBLE_N ==> self.buffer@[i] == if old(self).count_defects <= i
                            < index {
                            None
                        } else {
                            old(self).buffer@[i]
                        },
                decreases target + 1 - index,
            {
                self.buffer[index] = None;
                index += 1;
            }
            self.count_defects = target + 1;
        }
    }

    /// Makes sure that a node index which the dual module has reported stands
    /// for a node. A blossom index must be one that `allocate_blossom` gave
    /// out. A defect index brings the defect slots up to it into use, and gets
    /// a fresh node unless it has one: the store learns of defects one by one,
    /// and may never hear of those that were matched before they reached it.
    pub fn check_node_index(&mut self, node_index: CompactNodeIndex)
        requires
            old(self).wf(),
            old(self).index_valid(node_index),
        ensures
            final(self).wf(),
            final(self).count_blossoms == old(self).count_blossoms,
            final(self).first_blossom_child == old(self).first_blossom_child,
            old(self).spec_is_blossom(node_index) ==> *final(self) == *old(self),
            !old(self).spec_is_blossom(node_index) ==> {
                &&& final(self).count_defects == if node_index@ >= old(self).count_defects {
                    node_index@ + 1
                } else {
                    old(self).count_defects as int
                }
                &&& forall|i: int|
                    0 <= i < DOUBLE_N ==> #[trigger] final(self).buffer@[i] == if i
                        == node_index@ {
                        if node_index@ < old(self).count_defects && old(self).buffer@[i].is_some() {
                            old(self).buffer@[i]
                        } else {
                            Some(PrimalNode::fresh())
                        }
                    } else if old(self).count_defects <= i < node_index@ {
                        None
                    } else {
                        old(self).buffer@[i]
                    }
            },
    {
        if !self.is_blossom(node_index) {
            self.prepare_defects_up_to(node_index);
            if self.buffer[node_index.get() as usize].is_none() {
                self.buffer[node_index.get() as usize] = Some(PrimalNode::new());
            }
        }
    }

    /// Whether the index is that of a blossom: blossoms, and only they, have
    /// the indices from `N` on.
    #[verifier::when_used_as_spec(spec_is_blossom)]
    pub fn is_blossom(&self, node_index: CompactNodeIndex) -> (b: bool)
        requires
            self.index_valid(node_index),
        ensures
            b == self.spec_is_blossom(node_index),
    {
        !((node_index.get() as usize) < N)
    }

    /// Whether the slot of the index is present. For a slot that is not in use
    /// this tells of what an earlier decoding left there.
    #[verifier::when_used_as_spec(spec_has_node)]
    pub fn has_node(&self, node_index: CompactNodeIndex) -> (b: bool)
        requires
            node_index@ < DOUBLE_N,
        ensures
            b == self.spec_has_node(node_index),
    {
        self.buffer[node_index.get() as usize].is_some()
    }

    /// The node at an index whose slot is present.
    pub fn get_node(&self, node_index: CompactNodeIndex) -> (node: &PrimalNode)
        requires
            self.has_node(node_index),
        ensures
            *node == self.spec_get_node(node_index),
    {
        self.buffer[node_index.get() as usize].as_ref().unwrap()
    }

    /// The node for writing: what the caller leaves in it is what the store
    /// holds afterwards, and nothing else changes.
    pub fn get_node_mut(&mut self, node_index: CompactNodeIndex) -> (node: &mut PrimalNode)
        requires
            old(self).has_node(node_index),
        ensures
            *node == old(self).spec_get_node(node_index),
            final(self).is_update_of(old(self), node_index, Some(*final(node))),
    {
        self.buffer[node_index.get() as usize].as_mut().unwrap()
    }

    /// the node at which the cycle of a blossom is entered
    pub open spec fn spec_get_first_blossom_child(
        &self,
        blossom_index: CompactNodeIndex,
    ) -> CompactNodeIndex {
        self.first_blossom_child@[blossom_index@ - N].unwrap()
    }

    /// The node at which the cycle of a blossom is entered.
    #[verifier::when_used_as_spec(spec_get_first_blossom_child)]
    pub fn get_first_blossom_child(&self, blossom_index: CompactNodeIndex) -> (child:
        CompactNodeIndex)
        requires
            self.wf(),
            self.index_valid(blossom_index),
            self.is_blossom(blossom_index),
            self.has_node(blossom_index),
            self.first_blossom_child@[blossom_index@ - N].is_some(),
        ensures
            child == self.spec_get_first_blossom_child(blossom_index),
    {
        self.first_blossom_child[blossom_index.get() as usize - N].unwrap()
    }

    /// the outer node that the chain of parents of a node comes to within
    /// `steps` parent links
    pub open spec fn outer_within(&self, node_index: CompactNodeIndex, steps: nat) -> Option<
        CompactNodeIndex,
    >
        decreases steps,
    {
        if !self.has_node(node_index) {
            None
        } else if self.spec_get_node(node_index).grow_state.is_some() {
            Some(node_index)
        } else if steps == 0 || self.spec_get_node(node_index).parent.is_none() {
            None
        } else {
            self.outer_within(
                self.spec_get_node(node_index).parent.unwrap(),
                (steps - 1) as nat,
            )
        }
    }

    /// The outer node that contains a node: the node itself if it is outer,
    /// else the outer node that contains its parent. It is `None` where the
    /// chain of parents leaves the store, or never comes to an outer node.
    pub open spec fn spec_get_outer_blossom(&self, node_index: CompactNodeIndex) -> Option<
        CompactNodeIndex,
    > {
        if exists|steps: nat| self.outer_within(node_index, steps).is_some() {
            self.outer_within(
                node_index,
                choose|steps: nat| self.outer_within(node_index, steps).is_some(),
            )
        } else {
            None
        }
    }

    /// The chain of parents, once it has come to an outer node within some
    /// number of steps, comes to the same node within any larger number.
    pub proof fn lemma_outer_within_more_steps(
        &self,
        node_index: CompactNodeIndex,
        steps: nat,
        more: nat,
    )
        requires
            self.outer_within(node_index, steps).is_some(),
            steps <= more,
        ensures
            self.outer_within(node_index, more) == self.outer_within(node_index, steps),
        decreases steps,
    {
        if self.spec_get_node(node_index).grow_state.is_none() {
            self.lemma_outer_within_more_steps(
                self.spec_get_node(node_index).parent.unwrap(),
                (steps - 1) as nat,
                (more - 1) as nat,
            );
        }
    }

    /// Whatever number of steps brings the chain of parents to an outer node,
    /// that node is the outer node of `spec_get_outer_blossom`: a present node
    /// with a grow state.
    pub proof fn lemma_outer_blossom_is(&self, node_index: CompactNodeIndex, steps: nat)
        requires
            self.outer_within(node_index, steps).is_some(),
        ensures
            self.spec_get_outer_blossom(node_index) == self.outer_within(node_index, steps),
            self.has_node(self.outer_within(node_index, steps).unwrap()),
            self.spec_get_node(
                self.outer_within(node_index, steps).unwrap(),
            ).is_outer_blossom(),
        decreases steps,
    {
        let chosen = choose|steps: nat| self.outer_within(node_index, steps).is_some();
        if chosen <= steps {
            self.lemma_outer_within_more_steps(node_index, chosen, steps);
        } else {
            self.lemma_outer_within_more_steps(node_index, steps, chosen);
        }
        if self.spec_get_node(node_index).grow_state.is_none() {
            self.lemma_outer_blossom_is(
                self.spec_get_node(node_index).parent.unwrap(),
                (steps - 1) as nat,
            );
        }
    }

    /// get the outer blossom of this possibly inner node
    pub fn get_outer_blossom(&self, node_index: CompactNodeIndex) -> (outer: CompactNodeIndex)
        requires
            self.spec_get_outer_blossom(node_index).is_some(),
        ensures
            Some(outer) == self.spec_get_outer_blossom(node_index),
            self.has_node(outer),
            self.spec_get_node(outer).is_outer_blossom(),
    {
        let ghost mut steps = choose|steps: nat| self.outer_within(node_index, steps).is_some();
        let mut current = node_index;
        proof {
            self.lemma_outer_blossom_is(node_index, steps);
        }
        loop
            invariant
                self.outer_within(current, steps) == self.spec_get_outer_blossom(node_index),
                self.outer_within(current, steps).is_some(),
                self.has_node(self.spec_get_outer_blossom(node_index).unwrap()),
                self.spec_get_node(
                    self.spec_get_outer_blossom(node_index).unwrap(),
                ).is_outer_blossom(),
            decreases steps,
        {
            let node = self.get_node(current);
            if node.grow_state.is_none() {
                current = node.parent.unwrap();
                proof {
                    steps = (steps - 1) as nat;
                }
            } else {
                return current;
            }
        }
    }

    /// the last inner node on the chain of parents of an inner node, reached
    /// within `steps` parent links
    pub open spec fn second_outer_within(&self, node_index: CompactNodeIndex, steps: nat) -> Option<
        CompactNodeIndex,
    >
        decreases steps,
    {
        if !self.has_node(node_index) || self.spec_get_node(node_index).grow_state.is_some()
            || self.spec_get_node(node_index).parent.is_none() {
            None
        } else {
            let parent = self.spec_get_node(node_index).parent.unwrap();
            if !self.has_node(parent) {
                None
            } else if self.spec_get_node(parent).grow_state.is_some() {
                Some(node_index)
            } else if steps == 0 {
                None
            } else {
                self.second_outer_within(parent, (steps - 1) as nat)
            }
        }
    }

    /// The node just below the outer node that contains an inner node: the
    /// last inner node on its chain of parents. It is `None` for an outer
    /// node, and where the chain leaves the store or never comes to an outer
    /// node.
    pub open spec fn spec_get_second_outer_blossom(&self, node_index: CompactNodeIndex) -> Option<
        CompactNodeIndex,
    > {
        if exists|steps: nat| self.second_outer_within(node_index, steps).is_some() {
            self.second_outer_within(
                node_index,
                choose|steps: nat| self.second_outer_within(node_index, steps).is_some(),
            )
        } else {
            None
        }
    }

    /// More steps do not change the node just below the outer node.
    pub proof fn lemma_second_outer_within_more_steps(
        &self,
        node_index: CompactNodeIndex,
        steps: nat,
        more: nat,
    )
        requires
            self.second_outer_within(node_index, steps).is_some(),
            steps <= more,
        ensures
            self.second_outer_within(node_index, more) == self.second_outer_within(
                node_index,
                steps,
            ),
        decreases steps,
    {
        let parent = self.spec_get_node(node_index).parent.unwrap();
        if self.spec_get_node(parent).grow_state.is_none() {
            self.lemma_second_outer_within_more_steps(
                parent,
                (steps - 1) as nat,
                (more - 1) as nat,
            );
        }
    }

    /// The node just below the outer node is an inner node whose parent is
    /// the outer node that contains the node the chain started from.
    pub proof fn lemma_second_outer_blossom_is(&self, node_index: CompactNodeIndex, steps: nat)
        requires
            self.second_outer_within(node_index, steps).is_some(),
        ensures
            self.spec_get_second_outer_blossom(node_index) == self.second_outer_within(
                node_index,
                steps,
            ),
            self.second_outer_parent(
                self.second_outer_within(node_index, steps).unwrap(),
                node_index,
            ),
        decreases steps,
    {
        let chosen = choose|steps: nat| self.second_outer_within(node_index, steps).is_some();
        if chosen <= steps {
            self.lemma_second_outer_within_more_steps(node_index, chosen, steps);
        } else {
            self.lemma_second_outer_within_more_steps(node_index, steps, chosen);
        }
        let parent = self.spec_get_node(node_index).parent.unwrap();
        if self.spec_get_node(parent).grow_state.is_none() {
            self.lemma_second_outer_blossom_is(parent, (steps - 1) as nat);
            let up = choose|up: nat| self.outer_within(parent, up).is_some();
            self.lemma_outer_blossom_is(parent, up);
            assert(self.outer_within(node_index, up + 1) == self.outer_within(parent, up));
            self.lemma_outer_blossom_is(node_index, up + 1);
        } else {
            assert(self.outer_within(parent, 0) == Some(parent));
            assert(self.outer_within(node_index, 1) == Some(parent));
            self.lemma_outer_blossom_is(node_index, 1);
        }
    }

    /// `second` is an inner node, and its parent is the outer node that
    /// contains `node_index`
    pub open spec fn second_outer_parent(
        &self,
        second: CompactNodeIndex,
        node_index: CompactNodeIndex,
    ) -> bool {
        &&& self.has_node(second)
        &&& !self.spec_get_node(second).is_outer_blossom()
        &&& self.spec_get_node(second).parent.is_some()
        &&& self.spec_get_node(second).parent == self.spec_get_outer_blossom(node_index)
    }

    /// get the node index of the inner node of the most outer blossom
    pub fn get_second_outer_blossom(&self, node_index: CompactNodeIndex) -> (second:
        CompactNodeIndex)
        requires
            self.spec_get_second_outer_blossom(node_index).is_some(),
        ensures
            Some(second) == self.spec_get_second_outer_blossom(node_index),
            self.second_outer_parent(second, node_index),
    {
        let ghost mut steps = choose|steps: nat|
            self.second_outer_within(node_index, steps).is_some();
        proof {
            self.lemma_second_outer_blossom_is(node_index, steps);
        }
        let mut second_outer_blossom = node_index;
        let mut current = self.get_node(node_index).parent.unwrap();
        loop
            invariant
                self.second_outer_within(second_outer_blossom, steps)
                    == self.spec_get_second_outer_blossom(node_index),
                self.second_outer_within(second_outer_blossom, steps).is_some(),
                Some(current) == self.spec_get_node(second_outer_blossom).parent,
                self.second_outer_parent(
                    self.spec_get_second_outer_blossom(node_index).unwrap(),
                    node_index,
                ),
            decreases steps,
        {
            let node = self.get_node(current);
            if node.grow_state.is_none() {
                assert(self.second_outer_within(current, (steps - 1) as nat).is_some());
                second_outer_blossom = current;
                current = node.parent.unwrap();
                proof {
                    steps = (steps - 1) as nat;
                }
            } else {
                return second_outer_blossom;
            }
        }
    }

    /// the members of a cycle of siblings from `current` on, up to the node
    /// whose sibling is `first`, if that node comes within `steps` nodes
    pub open spec fn cycle_within(
        &self,
        first: CompactNodeIndex,
        current: CompactNodeIndex,
        steps: nat,
    ) -> Option<Seq<(CompactNodeIndex, TouchingLink)>>
        decreases steps,
    {
        if steps == 0 || !self.has_node(current) || self.spec_get_node(current).sibling.is_none() {
            None
        } else {
            let entry = (current, self.spec_get_node(current).link);
            let next = self.spec_get_node(current).sibling.unwrap();
            if next == first {
                Some(seq![entry])
            } else {
                match self.cycle_within(first, next, (steps - 1) as nat) {
                    Some(rest) => Some(seq![entry] + rest),
                    None => None,
                }
            }
        }
    }

    /// The children of a blossom, each with its link, in the order of the
    /// cycle: from the first child along the siblings until the first child
    /// would come again. It is `None` where the blossom has no first child,
    /// or the siblings leave the store or never come back to the first child.
    pub open spec fn spec_blossom_children(&self, blossom_index: CompactNodeIndex) -> Option<
        Seq<(CompactNodeIndex, TouchingLink)>,
    > {
        if N <= blossom_index@ < DOUBLE_N && self.first_blossom_child@[blossom_index@ - N].is_some()
            && exists|steps: nat|
            self.cycle_within(
                self.spec_get_first_blossom_child(blossom_index),
                self.spec_get_first_blossom_child(blossom_index),
                steps,
            ).is_some() {
            let first = self.spec_get_first_blossom_child(blossom_index);
            self.cycle_within(
                first,
                first,
                choose|steps: nat| self.cycle_within(first, first, steps).is_some(),
            )
        } else {
            None
        }
    }

    /// A cycle that closes within some number of steps is the same cycle
    /// within any larger number.
    pub proof fn lemma_cycle_within_more_steps(
        &self,
        first: CompactNodeIndex,
        current: CompactNodeIndex,
        steps: nat,
        more: nat,
    )
        requires
            self.cycle_within(first, current, steps).is_some(),
            steps <= more,
        ensures
            self.cycle_within(first, current, more) == self.cycle_within(first, current, steps),
        decreases steps,
    {
        let next = self.spec_get_node(current).sibling.unwrap();
        if next != first {
            self.lemma_cycle_within_more_steps(
                first,
                next,
                (steps - 1) as nat,
                (more - 1) as nat,
            );
        }
    }

    /// Whatever number of steps closes the cycle of a blossom, the cycle
    /// found is the one of `spec_blossom_children`.
    pub proof fn lemma_blossom_children_is(&self, blossom_index: CompactNodeIndex, steps: nat)
        requires
            N <= blossom_index@ < DOUBLE_N,
            self.first_blossom_child@[blossom_index@ - N].is_some(),
            self.cycle_within(
                self.spec_get_first_blossom_child(blossom_index),
                self.spec_get_first_blossom_child(blossom_index),
                steps,
            ).is_some(),
        ensures
            self.spec_blossom_children(blossom_index) == self.cycle_within(
                self.spec_get_first_blossom_child(blossom_index),
                self.spec_get_first_blossom_child(blossom_index),
                steps,
            ),
    {
        let first = self.spec_get_first_blossom_child(blossom_index);
        let chosen = choose|steps: nat| self.cycle_within(first, first, steps).is_some();
        if chosen <= steps {
            self.lemma_cycle_within_more_steps(first, first, chosen, steps);
        } else {
            self.lemma_cycle_within_more_steps(first, first, steps, chosen);
        }
    }

    /// The children of a blossom with their links, in the order of the cycle,
    /// the first child first. The cycle must be closed and of odd length.
    pub fn iterate_blossom_children(&self, blossom_index: CompactNodeIndex) -> (children: Vec<
        (CompactNodeIndex, TouchingLink),
    >)
        requires
            self.wf(),
            self.index_valid(blossom_index),
            self.is_blossom(blossom_index),
            self.has_node(blossom_index),
            self.spec_blossom_children(blossom_index).is_some(),
            self.spec_blossom_children(blossom_index).unwrap().len() % 2 == 1,
        ensures
            Some(children@) == self.spec_blossom_children(blossom_index),
    {
        let first_child = self.get_first_blossom_child(blossom_index);
        let ghost mut steps = choose|steps: nat|
            self.cycle_within(first_child, first_child, steps).is_some();
        let ghost whole = self.spec_blossom_children(blossom_index).unwrap();
        let mut children: Vec<(CompactNodeIndex, TouchingLink)> = Vec::new();
        let mut child_index = first_child;
        loop
            invariant_except_break
                self.cycle_within(first_child, child_index, steps).is_some(),
                children@ + self.cycle_within(first_child, child_index, steps).unwrap() == whole,
            ensures
                children@ == whole,
            decreases steps,
        {
            let node = self.get_node(child_index);
            let ghost before = children@;
            children.push((child_index, node.link));
            let next = node.sibling.unwrap();
            if next == first_child {
                assert(before + seq![(child_index, node.link)] == children@);
                break ;
            }
            proof {
                let rest = self.cycle_within(first_child, next, (steps - 1) as nat).unwrap();
                assert(before + (seq![(child_index, node.link)] + rest) == before.push(
                    (child_index, node.link),
                ) + rest);
                steps = (steps - 1) as nat;
            }
            child_index = next;
        }
        children
    }

    /// Every outer node in use is matched, and its match can be read.
    pub open spec fn all_outer_matched(&self) -> bool {
        forall|i: int|
            self.in_use(i) && (#[trigger] self.buffer@[i]).is_some()
                && self.buffer@[i].unwrap().is_outer_blossom()
                ==> self.buffer@[i].unwrap().match_recorded()
    }

    /// What the slot `i` adds to the matching of the outer nodes: nothing if
    /// it is absent or holds an inner node; the match with a virtual vertex;
    /// the match with a peer if the peer has the larger index, so that each
    /// pair is told once, at its smaller end.
    pub open spec fn intermediate_entry(&self, i: int) -> Option<
        (CompactNodeIndex, CompactMatchTarget, TouchingLink),
    > {
        if self.buffer@[i].is_none() || !self.buffer@[i].unwrap().is_outer_blossom() {
            None
        } else {
            let node = self.buffer@[i].unwrap();
            match node.sibling {
                Some(peer_index) => if peer_index@ > i {
                    Some(
                        (
                            CompactNodeIndex(i as CompactNodeNum),
                            CompactMatchTarget::Peer(peer_index),
                            node.link,
                        ),
                    )
                } else {
                    None
                },
                None => Some(
                    (
                        CompactNodeIndex(i as CompactNodeNum),
                        CompactMatchTarget::VirtualVertex(node.link.peer_through.unwrap()),
                        node.link,
                    ),
                ),
            }
        }
    }

    /// the entries of the slots from `low` up to, not including, `high`, in
    /// ascending order of the slots
    pub open spec fn matches_between(&self, low: int, high: int) -> Seq<
        (CompactNodeIndex, CompactMatchTarget, TouchingLink),
    >
        decreases high - low,
    {
        if high <= low {
            Seq::empty()
        } else {
            match self.intermediate_entry(high - 1) {
                Some(entry) => self.matches_between(low, high - 1).push(entry),
                None => self.matches_between(low, high - 1),
            }
        }
    }

    /// The matching of the outer nodes: the entries of the defect slots in
    /// use, then those of the allocated blossoms, each in ascending order.
    pub open spec fn spec_intermediate_matching(&self) -> Seq<
        (CompactNodeIndex, CompactMatchTarget, TouchingLink),
    > {
        self.matches_between(0, self.count_defects as int) + self.matches_between(
            N as int,
            N + self.count_blossoms,
        )
    }

    /// the slot is in use and holds an outer node
    pub open spec fn outer_in_use(&self, i: int) -> bool {
        self.in_use(i) && self.buffer@[i].is_some() && self.buffer@[i].unwrap().is_outer_blossom()
    }

    /// Matches between outer nodes are mutual: the sibling of an outer node
    /// is another outer node in use, whose sibling is the node.
    pub open spec fn peers_mutual(&self) -> bool {
        forall|i: int| #[trigger]
            self.outer_in_use(i) && self.buffer@[i].unwrap().sibling.is_some() ==> {
                let peer = self.buffer@[i].unwrap().sibling.unwrap();
                &&& peer@ != i
                &&& self.outer_in_use(peer@)
                &&& self.buffer@[peer@].unwrap().sibling.is_some()
                &&& self.buffer@[peer@].unwrap().sibling.unwrap()@ == i
            }
    }

    /// the entry tells of the node: as the node that is matched, or as the
    /// peer that it is matched to
    pub open spec fn mentions(
        entry: (CompactNodeIndex, CompactMatchTarget, TouchingLink),
        node: int,
    ) -> bool {
        entry.0@ == node || (entry.1 matches CompactMatchTarget::Peer(peer) && peer@ == node)
    }

    /// The entries of a range of slots are the entries of its slots, in
    /// strictly ascending order of the slots, with none left out.
    pub proof fn lemma_matches_between(&self, low: int, high: int)
        requires
            0 <= low <= high <= 0x1_0000,
        ensures
            forall|k: int|
                0 <= k < self.matches_between(low, high).len() ==> {
                    &&& low <= (#[trigger] self.matches_between(low, high)[k]).0@ < high
                    &&& self.intermediate_entry(self.matches_between(low, high)[k].0@) == Some(
                        self.matches_between(low, high)[k],
                    )
                },
            forall|k1: int, k2: int|
                0 <= k1 < k2 < self.matches_between(low, high).len() ==> (
                #[trigger] self.matches_between(low, high)[k1]).0@ < (#[trigger] self.matches_between(
                    low,
                    high,
                )[k2]).0@,
            forall|j: int|
                low <= j < high && (#[trigger] self.intermediate_entry(j)).is_some() ==> exists|
                    k: int,
                |
                    0 <= k < self.matches_between(low, high).len() && #[trigger] self.matches_between(
                        low,
                        high,
                    )[k] == self.intermediate_entry(j).unwrap(),
        decreases high - low,
    {
        if high > low {
            self.lemma_matches_between(low, high - 1);
            let before = self.matches_between(low, high - 1);
            let all = self.matches_between(low, high);
            assert forall|j: int|
                low <= j < high && (#[trigger] self.intermediate_entry(j)).is_some() implies exists|
                k: int,
            | 0 <= k < all.len() && #[trigger] all[k] == self.intermediate_entry(j).unwrap() by {
                if j < high - 1 {
                    let k = choose|k: int|
                        0 <= k < before.len() && #[trigger] before[k] == self.intermediate_entry(
                            j,
                        ).unwrap();
                    assert(all[k] == before[k]);
                } else {
                    assert(all[all.len() - 1] == self.intermediate_entry(j).unwrap());
                }
            }
            assert forall|k: int| 0 <= k < all.len() implies {
                &&& low <= (#[trigger] all[k]).0@ < high
                &&& self.intermediate_entry(all[k].0@) == Some(all[k])
            } by {
                if k < before.len() {
                    assert(all[k] == before[k]);
                }
            }
            assert forall|k1: int, k2: int| 0 <= k1 < k2 < all.len() implies (#[trigger] all[k1]).0@
                < (#[trigger] all[k2]).0@ by {
                assert(all[k1] == before[k1]);
                if k2 < before.len() {
                    assert(all[k2] == before[k2]);
                }
            }
        }
    }

    /// The matching of the outer nodes holds the entries of the slots in
    /// use, each once, in strictly ascending order of the node indices.
    pub proof fn lemma_intermediate_matching_entries(&self)
        requires
            self.wf(),
        ensures
            forall|k: int|
                0 <= k < self.spec_intermediate_matching().len() ==> {
                    &&& self.in_use((#[trigger] self.spec_intermediate_matching()[k]).0@)
                    &&& self.intermediate_entry(self.spec_intermediate_matching()[k].0@) == Some(
                        self.spec_intermediate_matching()[k],
                    )
                },
            forall|k1: int, k2: int|
                0 <= k1 < k2 < self.spec_intermediate_matching().len() ==> (
                #[trigger] self.spec_intermediate_matching()[k1]).0@
                    < (#[trigger] self.spec_intermediate_matching()[k2]).0@,
            forall|j: int|
                self.in_use(j) && (#[trigger] self.intermediate_entry(j)).is_some() ==> exists|
                    k: int,
                |
                    0 <= k < self.spec_intermediate_matching().len()
                        && #[trigger] self.spec_intermediate_matching()[k]
                        == self.intermediate_entry(j).unwrap(),
    {
        let defects = self.matches_between(0, self.count_defects as int);
        let blossoms = self.matches_between(N as int, N + self.count_blossoms);
        let all = self.spec_intermediate_matching();
        self.lemma_matches_between(0, self.count_defects as int);
        self.lemma_matches_between(N as int, N + self.count_blossoms);
        assert forall|k: int| 0 <= k < all.len() implies {
            &&& self.in_use((#[trigger] all[k]).0@)
            &&& self.intermediate_entry(all[k].0@) == Some(all[k])
        } by {
            if k < defects.len() {
                assert(all[k] == defects[k]);
            } else {
                assert(all[k] == blossoms[k - defects.len()]);
            }
        }
        assert forall|k1: int, k2: int| 0 <= k1 < k2 < all.len() implies (#[trigger] all[k1]).0@
            < (#[trigger] all[k2]).0@ by {
            if k1 < defects.len() {
                assert(all[k1] == defects[k1]);
            } else {
                assert(all[k1] == blossoms[k1 - defects.len()]);
            }
            if k2 < defects.len() {
                assert(all[k2] == defects[k2]);
            } else {
                assert(all[k2] == blossoms[k2 - defects.len()]);
            }
        }
        assert forall|j: int|
            self.in_use(j) && (#[trigger] self.intermediate_entry(j)).is_some() implies exists|
            k: int,
        | 0 <= k < all.len() && #[trigger] all[k] == self.intermediate_entry(j).unwrap() by {
            if j < self.count_defects {
                let k = choose|k: int|
                    0 <= k < defects.len() && #[trigger] defects[k] == self.intermediate_entry(
                        j,
                    ).unwrap();
                assert(all[k] == defects[k]);
            } else {
                let k = choose|k: int|
                    0 <= k < blossoms.len() && #[trigger] blossoms[k] == self.intermediate_entry(
                        j,
                    ).unwrap();
                assert(all[defects.len() + k] == blossoms[k]);
            }
        }
    }

    /// Matching completeness, for the matching of the outer nodes: where
    /// every outer node is matched and matches are mutual, every outer node
    /// appears in exactly one entry, as the node that is matched to a peer
    /// or to a virtual vertex, or as the peer.
    pub proof fn lemma_matching_complete(&self, node: int)
        requires
            self.wf(),
            self.all_outer_matched(),
            self.peers_mutual(),
            self.outer_in_use(node),
        ensures
            exists|k: int|
                0 <= k < self.spec_intermediate_matching().len() && Self::mentions(
                    #[trigger] self.spec_intermediate_matching()[k],
                    node,
                ) && forall|other: int|
                    0 <= other < self.spec_intermediate_matching().len() && Self::mentions(
                        #[trigger] self.spec_intermediate_matching()[other],
                        node,
                    ) ==> other == k,
    {
        let all = self.spec_intermediate_matching();
        self.lemma_intermediate_matching_entries();
        let primal_node = self.buffer@[node].unwrap();
        // the slot at which the node is told
        let told_at = if primal_node.sibling.is_some() && primal_node.sibling.unwrap()@ < node {
            primal_node.sibling.unwrap()@
        } else {
            node
        };
        assert(self.outer_in_use(told_at));
        assert(self.intermediate_entry(told_at).is_some());
        let k = choose|k: int|
            0 <= k < all.len() && #[trigger] all[k] == self.intermediate_entry(told_at).unwrap();
        assert(Self::mentions(all[k], node));
        assert forall|other: int|
            0 <= other < all.len() && Self::mentions(#[trigger] all[other], node) implies other
            == k by {
            let slot = all[other].0@;
            assert(self.intermediate_entry(slot) == Some(all[other]));
            assert(self.outer_in_use(slot));
            assert(slot == told_at);
            if other < k {
                assert(all[other].0@ < all[k].0@);
            }
            if k < other {
                assert(all[k].0@ < all[other].0@);
            }
        }
    }

    /// appends to `matching` the entries of the slots from `low` up to, not
    /// including, `high`
    fn append_matches_between(
        &self,
        low: usize,
        high: usize,
        matching: &mut Vec<(CompactNodeIndex, CompactMatchTarget, TouchingLink)>,
    )
        requires
            self.wf(),
            self.all_outer_matched(),
            low <= high <= DOUBLE_N,
            forall|i: int| low <= i < high ==> self.in_use(i),
        ensures
            final(matching)@ == old(matching)@ + self.matches_between(low as int, high as int),
    {
        let mut index: usize = low;
        while index < high
            invariant
                self.wf(),
                self.all_outer_matched(),
                low <= index <= high <= DOUBLE_N,
                forall|i: int| low <= i < high ==> self.in_use(i),
                matching@ == old(matching)@ + self.matches_between(low as int, index as int),
            decreases high - index,
        {
            let node_index = CompactNodeIndex::new(index as CompactNodeNum);
            let ghost before = matching@;
            let ghost done = self.matches_between(low as int, index as int);
            assert(self.in_use(index as int));
            if self.has_node(node_index) {
                let node = self.get_node(node_index);
                if node.is_outer_blossom() {
                    if let Some(peer_index) = node.sibling {
                        if peer_index.get() > node_index.get() {
                            matching.push(
                                (node_index, CompactMatchTarget::Peer(peer_index), node.link),
                            );
                        }
                    } else {
                        matching.push(
                            (
                                node_index,
                                CompactMatchTarget::VirtualVertex(node.link.peer_through.unwrap()),
                                node.link,
                            ),
                        );
                    }
                }
            }
            proof {
                match self.intermediate_entry(index as int) {
                    Some(entry) => {
                        assert(old(matching)@ + done.push(entry) == (old(matching)@ + done).push(
                            entry,
                        ));
                    },
                    None => {},
                }
            }
            index += 1;
        }
    }

    /// The matching of the outer nodes, from small index to large: defects
    /// first, then blossoms. An outer node matched to a virtual vertex is
    /// told with that vertex; two outer nodes matched to each other are told
    /// once, at the node with the smaller index. Disposed blossoms and inner
    /// nodes are passed over.
    pub fn iterate_intermediate_matching(&self) -> (matching: Vec<
        (CompactNodeIndex, CompactMatchTarget, TouchingLink),
    >)
        requires
            self.wf(),
            self.all_outer_matched(),
        ensures
            matching@ == self.spec_intermediate_matching(),
    {
        let mut matching: Vec<(CompactNodeIndex, CompactMatchTarget, TouchingLink)> = Vec::new();
        self.append_matches_between(0, self.count_defects, &mut matching);
        self.append_matches_between(N, N + self.count_blossoms, &mut matching);
        matching
    }

    /// The pairs inside the blossoms on the way from the inner node `touch`
    /// up to the blossom `stop_at`, within a nesting depth of `depth`. At each
    /// level the cycle that `touch` belongs to is expanded; then the blossom
    /// of that cycle takes the place of `touch`, until it is `stop_at`.
    /// An outer `touch` has nothing to expand.
    pub open spec fn blossom_matchings_within(
        &self,
        touch: CompactNodeIndex,
        stop_at: CompactNodeIndex,
        depth: nat,
    ) -> Option<Seq<(CompactNodeIndex, CompactMatchTarget, TouchingLink)>>
        decreases depth, 2nat,
    {
        if depth == 0 || !self.has_node(touch) {
            None
        } else if self.spec_get_node(touch).grow_state.is_some() {
            Some(Seq::empty())
        } else if self.spec_get_node(touch).parent.is_none() || self.spec_get_node(
            touch,
        ).sibling.is_none() {
            None
        } else {
            let parent = self.spec_get_node(touch).parent.unwrap();
            match self.cycle_matchings_within(
                touch,
                self.spec_get_node(touch).sibling.unwrap(),
                (depth - 1) as nat,
            ) {
                None => None,
                Some(level) => if parent == stop_at {
                    Some(level)
                } else {
                    match self.blossom_matchings_within(parent, stop_at, (depth - 1) as nat) {
                        None => None,
                        Some(above) => Some(level + above),
                    }
                },
            }
        }
    }

    /// The pairs of one cycle, from `inner` on until `touch` comes again:
    /// `inner` with its sibling, then the node after that with its sibling,
    /// and so on. The node `touch` itself stays unpaired at this level, so
    /// the cycle has odd length.
    pub open spec fn cycle_matchings_within(
        &self,
        touch: CompactNodeIndex,
        inner: CompactNodeIndex,
        depth: nat,
    ) -> Option<Seq<(CompactNodeIndex, CompactMatchTarget, TouchingLink)>>
        decreases depth, 1nat,
    {
        if inner == touch {
            Some(Seq::empty())
        } else if depth == 0 || !self.has_node(inner) || self.spec_get_node(
            inner,
        ).sibling.is_none() {
            None
        } else {
            let peer = self.spec_get_node(inner).sibling.unwrap();
            if peer == touch || !self.has_node(peer) || self.spec_get_node(
                peer,
            ).sibling.is_none() {
                None
            } else {
                match (
                    self.expand_matching_within(
                        inner,
                        peer,
                        self.spec_get_node(inner).link,
                        (depth - 1) as nat,
                    ),
                    self.cycle_matchings_within(
                        touch,
                        self.spec_get_node(peer).sibling.unwrap(),
                        (depth - 1) as nat,
                    ),
                ) {
                    (Some(pair), Some(rest)) => Some(pair + rest),
                    _ => None,
                }
            }
        }
    }

    /// The pairs that the match between `node` and `peer` stands for: what is
    /// inside `node` if it is a blossom, then what is inside `peer` if it is
    /// one, then the pair itself, with each blossom replaced by the node
    /// inside it that touches.
    pub open spec fn expand_matching_within(
        &self,
        node: CompactNodeIndex,
        peer: CompactNodeIndex,
        link: TouchingLink,
        depth: nat,
    ) -> Option<Seq<(CompactNodeIndex, CompactMatchTarget, TouchingLink)>>
        decreases depth, 0nat,
    {
        if depth == 0 || !self.index_valid(node) || !self.index_valid(peer) {
            None
        } else {
            match (
                self.inside_within(node, link.touch, (depth - 1) as nat),
                self.inside_within(peer, link.peer_touch, (depth - 1) as nat),
            ) {
                (Some(first), Some(second)) => Some(
                    (first + second).push(
                        (
                            Self::touching_node(node, link.touch, N as int),
                            CompactMatchTarget::Peer(
                                Self::touching_node(peer, link.peer_touch, N as int),
                            ),
                            link,
                        ),
                    ),
                ),
                _ => None,
            }
        }
    }

    /// the pairs inside `node`, which touches through `touch`: none for a
    /// defect, the expansion from `touch` up to `node` for a blossom
    pub open spec fn inside_within(
        &self,
        node: CompactNodeIndex,
        touch: Option<CompactNodeIndex>,
        depth: nat,
    ) -> Option<Seq<(CompactNodeIndex, CompactMatchTarget, TouchingLink)>>
        decreases depth, 3nat,
    {
        if node@ < N {
            Some(Seq::empty())
        } else if touch.is_none() || depth == 0 {
            None
        } else {
            self.blossom_matchings_within(touch.unwrap(), node, depth)
        }
    }

    /// the node that stands for `node` in a pair: `node` itself if it is a
    /// defect, the inner node that touches if it is a blossom
    pub open spec fn touching_node(
        node: CompactNodeIndex,
        touch: Option<CompactNodeIndex>,
        half: int,
    ) -> CompactNodeIndex {
        if node@ < half {
            node
        } else {
            touch.unwrap()
        }
    }

    /// Where the pairs of a cycle are defined from a node other than the
    /// touching node on, the nodes from there up to the touching node are
    /// even in number.
    pub proof fn lemma_paired_nodes_are_even(
        &self,
        touch: CompactNodeIndex,
        inner: CompactNodeIndex,
        depth: nat,
    )
        requires
            inner != touch,
            self.cycle_matchings_within(touch, inner, depth).is_some(),
        ensures
            self.cycle_within(touch, inner, 2 * depth).is_some(),
            self.cycle_within(touch, inner, 2 * depth).unwrap().len() % 2 == 0,
            self.cycle_within(touch, inner, 2 * depth).unwrap().len() >= 2,
        decreases depth,
    {
        let peer = self.spec_get_node(inner).sibling.unwrap();
        let next = self.spec_get_node(peer).sibling.unwrap();
        assert(self.cycle_within(touch, peer, (2 * depth - 1) as nat).is_some() && self.cycle_within(
            touch,
            peer,
            (2 * depth - 1) as nat,
        ).unwrap().len() % 2 == 1) by {
            if next != touch {
                self.lemma_paired_nodes_are_even(touch, next, (depth - 1) as nat);
                assert(2 * depth - 1 - 1 == 2 * (depth - 1));
            }
        }
    }

    /// Blossom cycle parity: a cycle whose pairs are defined around its
    /// touching node has odd length, three at least. The one cycle that has
    /// pairs defined and is shorter is that of a node which is its own
    /// sibling, and it is left out here.
    pub proof fn lemma_expanded_cycle_is_odd(&self, touch: CompactNodeIndex, depth: nat)
        requires
            self.has_node(touch),
            self.spec_get_node(touch).sibling.is_some(),
            self.spec_get_node(touch).sibling.unwrap() != touch,
            self.cycle_matchings_within(
                touch,
                self.spec_get_node(touch).sibling.unwrap(),
                depth,
            ).is_some(),
        ensures
            self.cycle_within(touch, touch, 2 * depth + 1).is_some(),
            self.cycle_within(touch, touch, 2 * depth + 1).unwrap().len() % 2 == 1,
            self.cycle_within(touch, touch, 2 * depth + 1).unwrap().len() >= 3,
    {
        let next = self.spec_get_node(touch).sibling.unwrap();
        self.lemma_paired_nodes_are_even(touch, next, depth);
        assert((2 * depth + 1 - 1) as nat == 2 * depth);
    }

    /// Blossom cycle parity, for a blossom that is expanded from its first
    /// child: its children are odd in number, three at least.
    pub proof fn lemma_blossom_children_are_odd(&self, blossom_index: CompactNodeIndex, depth: nat)
        requires
            N <= blossom_index@ < DOUBLE_N,
            self.first_blossom_child@[blossom_index@ - N].is_some(),
            self.has_node(self.spec_get_first_blossom_child(blossom_index)),
            self.spec_get_node(self.spec_get_first_blossom_child(blossom_index)).sibling.is_some(),
            self.spec_get_node(
                self.spec_get_first_blossom_child(blossom_index),
            ).sibling.unwrap() != self.spec_get_first_blossom_child(blossom_index),
            self.cycle_matchings_within(
                self.spec_get_first_blossom_child(blossom_index),
                self.spec_get_node(
                    self.spec_get_first_blossom_child(blossom_index),
                ).sibling.unwrap(),
                depth,
            ).is_some(),
        ensures
            self.spec_blossom_children(blossom_index).is_some(),
            self.spec_blossom_children(blossom_index).unwrap().len() % 2 == 1,
            self.spec_blossom_children(blossom_index).unwrap().len() >= 3,
    {
        let first = self.spec_get_first_blossom_child(blossom_index);
        self.lemma_expanded_cycle_is_odd(first, depth);
        self.lemma_blossom_children_is(blossom_index, 2 * depth + 1);
    }

    /// Allocating a blossom and disposing of it again gives back the nodes
    /// that the store held before: every node is as it was, and the index of
    /// the blossom stands for no node. Only the count of blossoms has gone
    /// up, since an index is never given out twice.
    pub proof fn lemma_allocate_then_dispose(
        before: &Self,
        allocated: &Self,
        disposed: &Self,
        blossom_index: CompactNodeIndex,
    )
        requires
            before.wf(),
            before.count_blossoms < N,
            blossom_index@ == N + before.count_blossoms,
            allocated@ == before@.insert(blossom_index@, PrimalNode::fresh()),
            disposed@ == allocated@.remove(blossom_index@),
        ensures
            disposed@ == before@,
            !before@.dom().contains(blossom_index@),
    {
        assert(!before.in_use(blossom_index@));
        assert(disposed@ =~= before@);
    }

    /// appends the pairs inside the blossoms from `touch` up to `stop_at`
    fn iterate_blossom_matchings(
        &self,
        touch: CompactNodeIndex,
        stop_at: CompactNodeIndex,
        matching: &mut Vec<(CompactNodeIndex, CompactMatchTarget, TouchingLink)>,
        Ghost(depth): Ghost<nat>,
    )
        requires
            self.wf(),
            self.blossom_matchings_within(touch, stop_at, depth).is_some(),
        ensures
            final(matching)@ == old(matching)@ + self.blossom_matchings_within(
                touch,
                stop_at,
                depth,
            ).unwrap(),
        decreases depth, 2nat,
    {
        let ghost whole = matching@ + self.blossom_matchings_within(
            touch,
            stop_at,
            depth,
        ).unwrap();
        let ghost mut left = depth;
        let mut touch = touch;
        loop
            invariant_except_break
                self.wf(),
                left <= depth,
                self.blossom_matchings_within(touch, stop_at, left).is_some(),
                matching@ + self.blossom_matchings_within(touch, stop_at, left).unwrap() == whole,
            ensures
                matching@ == whole,
            decreases left,
        {
            let node = self.get_node(touch);
            if node.grow_state.is_some() {
                assert(matching@ + Seq::empty() == matching@);
                break ;  // only visit inner node
            }
            let parent_blossom_index = node.parent.unwrap();
            let mut inner_index = node.sibling.unwrap();
            let ghost above = if parent_blossom_index == stop_at {
                Seq::empty()
            } else {
                self.blossom_matchings_within(
                    parent_blossom_index,
                    stop_at,
                    (left - 1) as nat,
                ).unwrap()
            };
            let ghost mut level_left = (left - 1) as nat;
            while inner_index != touch
                invariant
                    self.wf(),
                    level_left < left <= depth,
                    self.cycle_matchings_within(touch, inner_index, level_left).is_some(),
                    matching@ + self.cycle_matchings_within(
                        touch,
                        inner_index,
                        level_left,
                    ).unwrap() + above == whole,
                decreases level_left,
            {
                let primal_inner = self.get_node(inner_index);
                let peer_index = primal_inner.sibling.unwrap();
                let primal_peer = self.get_node(peer_index);
                let next_inner_index = primal_peer.sibling.unwrap();
                let ghost before = matching@;
                let ghost pair = self.expand_matching_within(
                    inner_index,
                    peer_index,
                    primal_inner.link,
                    (level_left - 1) as nat,
                ).unwrap();
                let ghost rest = self.cycle_matchings_within(
                    touch,
                    next_inner_index,
                    (level_left - 1) as nat,
                ).unwrap();
                self.iterate_expand_matching(
                    inner_index,
                    peer_index,
                    &primal_inner.link,
                    matching,
                    Ghost((level_left - 1) as nat),
                );
                proof {
                    assert(before + (pair + rest) + above == before + pair + rest + above);
                    level_left = (level_left - 1) as nat;
                }
                inner_index = next_inner_index;
            }
            assert(matching@ + Seq::empty() + above == matching@ + above);
            touch = parent_blossom_index;
            proof {
                left = (left - 1) as nat;
            }
            if touch == stop_at {
                assert(matching@ + Seq::empty() == matching@);
                break ;
            }
        }
    }

    /// appends the pairs that the match between two nodes stands for
    fn iterate_expand_matching(
        &self,
        node_index: CompactNodeIndex,
        peer_index: CompactNodeIndex,
        link: &TouchingLink,
        matching: &mut Vec<(CompactNodeIndex, CompactMatchTarget, TouchingLink)>,
        Ghost(depth): Ghost<nat>,
    )
        requires
            self.wf(),
            self.expand_matching_within(node_index, peer_index, *link, depth).is_some(),
        ensures
            final(matching)@ == old(matching)@ + self.expand_matching_within(
                node_index,
                peer_index,
                *link,
                depth,
            ).unwrap(),
        decreases depth, 0nat,
    {
        let ghost before = matching@;
        let ghost first = self.inside_within(node_index, link.touch, (depth - 1) as nat).unwrap();
        let ghost second = self.inside_within(
            peer_index,
            link.peer_touch,
            (depth - 1) as nat,
        ).unwrap();
        let mut node_index = node_index;
        let mut peer_index = peer_index;
        if self.is_blossom(node_index) {
            let touch = link.touch.unwrap();
            self.iterate_blossom_matchings(touch, node_index, matching, Ghost((depth - 1) as nat));
            node_index = touch;
        }
        if self.is_blossom(peer_index) {
            let peer_touch = link.peer_touch.unwrap();
            self.iterate_blossom_matchings(
                peer_touch,
                peer_index,
                matching,
                Ghost((depth - 1) as nat),
            );
            peer_index = peer_touch;
        }
        assert(matching@ == before + first + second);
        matching.push((node_index, CompactMatchTarget::Peer(peer_index), *link));
        assert(matching@ == before + (first + second).push(
            (node_index, CompactMatchTarget::Peer(peer_index), *link),
        ));
    }

    /// The pairs that one entry of the matching of the outer nodes stands
    /// for: what is inside the node if it is a blossom, what is inside its
    /// peer if that is one, then the entry itself with each blossom replaced
    /// by the node inside it that touches.
    pub open spec fn perfect_entry_within(
        &self,
        entry: (CompactNodeIndex, CompactMatchTarget, TouchingLink),
        depth: nat,
    ) -> Option<Seq<(CompactNodeIndex, CompactMatchTarget, TouchingLink)>> {
        let (node_index, match_target, link) = entry;
        if !self.index_valid(node_index) {
            None
        } else {
            match (self.inside_within(node_index, link.touch, depth), match_target) {
                (Some(first), CompactMatchTarget::Peer(peer_index)) => if !self.index_valid(
                    peer_index,
                ) {
                    None
                } else {
                    match self.inside_within(peer_index, link.peer_touch, depth) {
                        Some(second) => Some(
                            (first + second).push(
                                (
                                    Self::touching_node(node_index, link.touch, N as int),
                                    CompactMatchTarget::Peer(
                                        Self::touching_node(peer_index, link.peer_touch, N as int),
                                    ),
                                    link,
                                ),
                            ),
                        ),
                        None => None,
                    }
                },
                (Some(first), CompactMatchTarget::VirtualVertex(_)) => Some(
                    first.push(
                        (Self::touching_node(node_index, link.touch, N as int), match_target, link),
                    ),
                ),
                (None, _) => None,
            }
        }
    }

    /// the pairs that the entries stand for, entry after entry
    pub open spec fn perfect_matching_of(
        &self,
        entries: Seq<(CompactNodeIndex, CompactMatchTarget, TouchingLink)>,
        depth: nat,
    ) -> Option<Seq<(CompactNodeIndex, CompactMatchTarget, TouchingLink)>>
        decreases entries.len(),
    {
        if entries.len() == 0 {
            Some(Seq::empty())
        } else {
            match (
                self.perfect_entry_within(entries[0], depth),
                self.perfect_matching_of(entries.skip(1), depth),
            ) {
                (Some(pairs), Some(rest)) => Some(pairs + rest),
                _ => None,
            }
        }
    }

    /// The perfect matching: the matching of the outer nodes with every
    /// blossom expanded, down to pairs of defects and of defects with virtual
    /// vertices. It is `None` where a blossom cannot be expanded: where a
    /// link lacks the touching node, a node on the way is missing, a cycle
    /// does not come back to its touching node after an even number of other
    /// nodes, or the nesting has no end.
    pub open spec fn spec_perfect_matching(&self) -> Option<
        Seq<(CompactNodeIndex, CompactMatchTarget, TouchingLink)>,
    > {
        if exists|depth: nat|
            self.perfect_matching_of(self.spec_intermediate_matching(), depth).is_some() {
            self.perfect_matching_of(
                self.spec_intermediate_matching(),
                choose|depth: nat|
                    self.perfect_matching_of(self.spec_intermediate_matching(), depth).is_some(),
            )
        } else {
            None
        }
    }

    /// An expansion that is defined within some nesting depth is the same
    /// within any larger depth.
    pub proof fn lemma_blossom_matchings_deeper(
        &self,
        touch: CompactNodeIndex,
        stop_at: CompactNodeIndex,
        depth: nat,
        more: nat,
    )
        requires
            self.blossom_matchings_within(touch, stop_at, depth).is_some(),
            depth <= more,
        ensures
            self.blossom_matchings_within(touch, stop_at, more) == self.blossom_matchings_within(
                touch,
                stop_at,
                depth,
            ),
        decreases depth, 2nat,
    {
        if self.spec_get_node(touch).grow_state.is_none() {
            let parent = self.spec_get_node(touch).parent.unwrap();
            self.lemma_cycle_matchings_deeper(
                touch,
                self.spec_get_node(touch).sibling.unwrap(),
                (depth - 1) as nat,
                (more - 1) as nat,
            );
            if parent != stop_at {
                self.lemma_blossom_matchings_deeper(
                    parent,
                    stop_at,
                    (depth - 1) as nat,
                    (more - 1) as nat,
                );
            }
        }
    }

    /// The pairs of a cycle that are defined within some nesting depth are
    /// the same within any larger depth.
    pub proof fn lemma_cycle_matchings_deeper(
        &self,
        touch: CompactNodeIndex,
        inner: CompactNodeIndex,
        depth: nat,
        more: nat,
    )
        requires
            self.cycle_matchings_within(touch, inner, depth).is_some(),
            depth <= more,
        ensures
            self.cycle_matchings_within(touch, inner, more) == self.cycle_matchings_within(
                touch,
                inner,
                depth,
            ),
        decreases depth, 1nat,
    {
        if inner != touch {
            let peer = self.spec_get_node(inner).sibling.unwrap();
            self.lemma_expand_matching_deeper(
                inner,
                peer,
                self.spec_get_node(inner).link,
                (depth - 1) as nat,
                (more - 1) as nat,
            );
            self.lemma_cycle_matchings_deeper(
                touch,
                self.spec_get_node(peer).sibling.unwrap(),
                (depth - 1) as nat,
                (more - 1) as nat,
            );
        }
    }

    /// The pairs that a match stands for, once defined within some nesting
    /// depth, are the same within any larger depth.
    pub proof fn lemma_expand_matching_deeper(
        &self,
        node: CompactNodeIndex,
        peer: CompactNodeIndex,
        link: TouchingLink,
        depth: nat,
        more: nat,
    )
        requires
            self.expand_matching_within(node, peer, link, depth).is_some(),
            depth <= more,
        ensures
            self.expand_matching_within(node, peer, link, more) == self.expand_matching_within(
                node,
                peer,
                link,
                depth,
            ),
        decreases depth, 0nat,
    {
        self.lemma_inside_deeper(node, link.touch, (depth - 1) as nat, (more - 1) as nat);
        self.lemma_inside_deeper(peer, link.peer_touch, (depth - 1) as nat, (more - 1) as nat);
    }

    /// The pairs inside a node, once defined within some nesting depth, are
    /// the same within any larger depth.
    pub proof fn lemma_inside_deeper(
        &self,
        node: CompactNodeIndex,
        touch: Option<CompactNodeIndex>,
        depth: nat,
        more: nat,
    )
        requires
            self.inside_within(node, touch, depth).is_some(),
            depth <= more,
        ensures
            self.inside_within(node, touch, more) == self.inside_within(node, touch, depth),
        decreases depth, 3nat,
    {
        if node@ >= N {
            self.lemma_blossom_matchings_deeper(touch.unwrap(), node, depth, more);
        }
    }

    /// The pairs that entries stand for, once defined within some nesting
    /// depth, are the same within any larger depth.
    pub proof fn lemma_perfect_matching_deeper(
        &self,
        entries: Seq<(CompactNodeIndex, CompactMatchTarget, TouchingLink)>,
        depth: nat,
        more: nat,
    )
        requires
            self.perfect_matching_of(entries, depth).is_some(),
            depth <= more,
        ensures
            self.perfect_matching_of(entries, more) == self.perfect_matching_of(entries, depth),
        decreases entries.len(),
    {
        if entries.len() > 0 {
            let (node_index, match_target, link) = entries[0];
            self.lemma_inside_deeper(node_index, link.touch, depth, more);
            match match_target {
                CompactMatchTarget::Peer(peer_index) => {
                    self.lemma_inside_deeper(peer_index, link.peer_touch, depth, more);
                },
                CompactMatchTarget::VirtualVertex(_) => {},
            }
            self.lemma_perfect_matching_deeper(entries.skip(1), depth, more);
        }
    }

    /// Whatever nesting depth the perfect matching is defined within, what
    /// is found within it is the perfect matching.
    pub proof fn lemma_perfect_matching_is(&self, depth: nat)
        requires
            self.perfect_matching_of(self.spec_intermediate_matching(), depth).is_some(),
        ensures
            self.spec_perfect_matching() == self.perfect_matching_of(
                self.spec_intermediate_matching(),
                depth,
            ),
    {
        let entries = self.spec_intermediate_matching();
        let chosen = choose|depth: nat| self.perfect_matching_of(entries, depth).is_some();
        if chosen <= depth {
            self.lemma_perfect_matching_deeper(entries, chosen, depth);
        } else {
            self.lemma_perfect_matching_deeper(entries, depth, chosen);
        }
    }

    /// The perfect matching, in the order of the matching of the outer nodes.
    /// For each of its entries come first the pairs inside the node, then
    /// those inside its peer, then the entry itself, between the nodes that
    /// touch. Inside a blossom the pairs are those of the cycle that the
    /// touching node belongs to, taken along the cycle from the node after
    /// it, then those of the cycle around that, up to the blossom.
    pub fn iterate_perfect_matching(&self) -> (matching: Vec<
        (CompactNodeIndex, CompactMatchTarget, TouchingLink),
    >)
        requires
            self.wf(),
            self.all_outer_matched(),
            self.spec_perfect_matching().is_some(),
        ensures
            Some(matching@) == self.spec_perfect_matching(),
    {
        let ghost depth = choose|depth: nat|
            self.perfect_matching_of(self.spec_intermediate_matching(), depth).is_some();
        let entries = self.iterate_intermediate_matching();
        let ghost whole = self.spec_perfect_matching().unwrap();
        let mut matching: Vec<(CompactNodeIndex, CompactMatchTarget, TouchingLink)> = Vec::new();
        let mut position: usize = 0;
        assert(entries@.skip(0) == entries@);
        assert(Seq::empty() + whole == whole);
        while position < entries.len()
            invariant
                self.wf(),
                position <= entries.len(),
                self.perfect_matching_of(entries@.skip(position as int), depth).is_some(),
                matching@ + self.perfect_matching_of(
                    entries@.skip(position as int),
                    depth,
                ).unwrap() == whole,
            decreases entries.len() - position,
        {
            let (entry_node, entry_target, link) = entries[position];
            let mut node_index = entry_node;
            let mut match_target = entry_target;
            let ghost before = matching@;
            let ghost remaining = entries@.skip(position as int);
            let ghost pairs = self.perfect_entry_within(remaining[0], depth).unwrap();
            let ghost rest = self.perfect_matching_of(remaining.skip(1), depth).unwrap();
            assert(remaining[0] == entries@[position as int]);
            assert(remaining.skip(1) == entries@.skip(position as int + 1));
            if self.is_blossom(node_index) {
                let touch = link.touch.unwrap();
                self.iterate_blossom_matchings(touch, node_index, &mut matching, Ghost(depth));
                node_index = touch;
            }
            if let CompactMatchTarget::Peer(peer_index) = match_target {
                if self.is_blossom(peer_index) {
                    let peer_touch = link.peer_touch.unwrap();
                    self.iterate_blossom_matchings(
                        peer_touch,
                        peer_index,
                        &mut matching,
                        Ghost(depth),
                    );
                    match_target = CompactMatchTarget::Peer(peer_touch);
                }
            }
            matching.push((node_index, match_target, link));
            proof {
                assert(matching@ == before + pairs);
                assert(before + (pairs + rest) == before + pairs + rest);
            }
            position += 1;
        }
        assert(matching@ + Seq::empty() == matching@);
        matching
    }

    /// the grow state of an outer node
    pub open spec fn spec_get_grow_state(&self, node_index: CompactNodeIndex) -> CompactGrowState {
        self.spec_get_node(node_index).grow_state.unwrap()
    }

    /// The grow state of an outer node.
    #[verifier::when_used_as_spec(spec_get_grow_state)]
    pub fn get_grow_state(&self, node_index: CompactNodeIndex) -> (grow_state: CompactGrowState)
        requires
            self.has_node(node_index),
            self.spec_get_node(node_index).is_outer_blossom(),
        ensures
            grow_state == self.spec_get_grow_state(node_index),
    {
        self.get_node(node_index).grow_state.unwrap()
    }

    /// Gives a node a grow state, in the store and in the dual module, which
    /// passes it on to the vertices that the node owns.
    pub fn set_grow_state<D: DualInterface>(
        &mut self,
        node_index: CompactNodeIndex,
        grow_state: CompactGrowState,
        dual_module: &mut D,
    )
        requires
            old(self).has_node(node_index),
            old(dual_module).accepts_instructions(),
        ensures
            final(self).is_update_of(
                old(self),
                node_index,
                Some(
                    PrimalNode {
                        grow_state: Some(grow_state),
                        ..old(self).spec_get_node(node_index)
                    },
                ),
            ),
            final(dual_module).accepts_instructions(),
            old(dual_module).grow_state_set(final(dual_module), node_index, grow_state),
    {
        self.get_node_mut(node_index).grow_state = Some(grow_state);
        dual_module.set_grow_state(node_index, grow_state);
    }

    /// The node that a temporary match leaves behind: staying, outside any
    /// tree, with `peer` as its sibling and the touch recorded from its side.
    pub open spec fn matched_to_peer(
        peer: CompactNodeIndex,
        touch: CompactNodeIndex,
        vertex: CompactVertexIndex,
        peer_touch: CompactNodeIndex,
        peer_vertex: CompactVertexIndex,
    ) -> PrimalNode {
        PrimalNode {
            grow_state: Some(CompactGrowState::Stay),
            parent: None,
            first_child: None,
            sibling: Some(peer),
            link: TouchingLink {
                touch: Some(touch),
                through: Some(vertex),
                peer_touch: Some(peer_touch),
                peer_through: Some(peer_vertex),
            },
        }
    }

    /// The node that a temporary match with a virtual vertex leaves behind:
    /// staying, outside any tree, without a sibling and without a touching
    /// node on the peer's side.
    pub open spec fn matched_to_virtual(
        touch: CompactNodeIndex,
        vertex: CompactVertexIndex,
        virtual_vertex: CompactVertexIndex,
    ) -> PrimalNode {
        PrimalNode {
            grow_state: Some(CompactGrowState::Stay),
            parent: None,
            first_child: None,
            sibling: None,
            link: TouchingLink {
                touch: Some(touch),
                through: Some(vertex),
                peer_touch: None,
                peer_through: Some(virtual_vertex),
            },
        }
    }

    /// Matches two outer nodes to each other for the time being. Both leave
    /// their alternating trees and stay; each gets the other as its sibling,
    /// and the touch is recorded on both sides, each from its own side: node
    /// `node_1` touches through its inner node `touch_1` at `vertex_1`, node
    /// `node_2` through `touch_2` at `vertex_2`.
    pub fn temporary_match<D: DualInterface>(
        &mut self,
        dual_module: &mut D,
        node_1: CompactNodeIndex,
        node_2: CompactNodeIndex,
        touch_1: CompactNodeIndex,
        touch_2: CompactNodeIndex,
        vertex_1: CompactVertexIndex,
        vertex_2: CompactVertexIndex,
    )
        requires
            old(self).has_node(node_1),
            old(self).has_node(node_2),
            old(self).spec_get_node(node_1).is_outer_blossom(),
            old(self).spec_get_node(node_2).is_outer_blossom(),
            old(dual_module).accepts_instructions(),
        ensures
            final(self).buffer@ == old(self).buffer@.update(
                node_1@,
                Some(Self::matched_to_peer(node_2, touch_1, vertex_1, touch_2, vertex_2)),
            ).update(
                node_2@,
                Some(Self::matched_to_peer(node_1, touch_2, vertex_2, touch_1, vertex_1)),
            ),
            final(self).first_blossom_child == old(self).first_blossom_child,
            final(self).count_defects == old(self).count_defects,
            final(self).count_blossoms == old(self).count_blossoms,
            final(dual_module).accepts_instructions(),
            exists|between: D|
                {
                    &&& #[trigger] old(dual_module).grow_state_set(
                        &between,
                        node_1,
                        CompactGrowState::Stay,
                    )
                    &&& between.accepts_instructions()
                    &&& between.grow_state_set(final(dual_module), node_2, CompactGrowState::Stay)
                },
    {
        self.set_grow_state(node_1, CompactGrowState::Stay, dual_module);
        let ghost between = *dual_module;
        self.set_grow_state(node_2, CompactGrowState::Stay, dual_module);
        assert(old(dual_module).grow_state_set(&between, node_1, CompactGrowState::Stay));
        let primal_node_1 = self.get_node_mut(node_1);
        primal_node_1.remove_from_alternating_tree();
        primal_node_1.sibling = Some(node_2);
        primal_node_1.link.touch = Some(touch_1);
        primal_node_1.link.through = Some(vertex_1);
        primal_node_1.link.peer_touch = Some(touch_2);
        primal_node_1.link.peer_through = Some(vertex_2);
        let primal_node_2 = self.get_node_mut(node_2);
        primal_node_2.remove_from_alternating_tree();
        primal_node_2.sibling = Some(node_1);
        primal_node_2.link.touch = Some(touch_2);
        primal_node_2.link.through = Some(vertex_2);
        primal_node_2.link.peer_touch = Some(touch_1);
        primal_node_2.link.peer_through = Some(vertex_1);
        assert(self.buffer@ =~= old(self).buffer@.update(
            node_1@,
            Some(Self::matched_to_peer(node_2, touch_1, vertex_1, touch_2, vertex_2)),
        ).update(
            node_2@,
            Some(Self::matched_to_peer(node_1, touch_2, vertex_2, touch_1, vertex_1)),
        ));
    }

    /// Matches two outer nodes as `temporary_match` does, with the touch read
    /// from a link as node `node_1` records it.
    pub fn temporary_match_with_link<D: DualInterface>(
        &mut self,
        dual_module: &mut D,
        node_1: CompactNodeIndex,
        link_1: &TouchingLink,
        node_2: CompactNodeIndex,
    )
        requires
            old(self).has_node(node_1),
            old(self).has_node(node_2),
            old(self).spec_get_node(node_1).is_outer_blossom(),
            old(self).spec_get_node(node_2).is_outer_blossom(),
            old(dual_module).accepts_instructions(),
            link_1.touch.is_some(),
            link_1.through.is_some(),
            link_1.peer_touch.is_some(),
            link_1.peer_through.is_some(),
        ensures
            final(self).buffer@ == old(self).buffer@.update(
                node_1@,
                Some(
                    Self::matched_to_peer(
                        node_2,
                        link_1.touch.unwrap(),
                        link_1.through.unwrap(),
                        link_1.peer_touch.unwrap(),
                        link_1.peer_through.unwrap(),
                    ),
                ),
            ).update(
                node_2@,
                Some(
                    Self::matched_to_peer(
                        node_1,
                        link_1.peer_touch.unwrap(),
                        link_1.peer_through.unwrap(),
                        link_1.touch.unwrap(),
                        link_1.through.unwrap(),
                    ),
                ),
            ),
            final(self).first_blossom_child == old(self).first_blossom_child,
            final(self).count_defects == old(self).count_defects,
            final(self).count_blossoms == old(self).count_blossoms,
            final(dual_module).accepts_instructions(),
            exists|between: D|
                {
                    &&& #[trigger] old(dual_module).grow_state_set(
                        &between,
                        node_1,
                        CompactGrowState::Stay,
                    )
                    &&& between.accepts_instructions()
                    &&& between.grow_state_set(final(dual_module), node_2, CompactGrowState::Stay)
                },
    {
        self.temporary_match(
            dual_module,
            node_1,
            node_2,
            link_1.touch.unwrap(),
            link_1.peer_touch.unwrap(),
            link_1.through.unwrap(),
            link_1.peer_through.unwrap(),
        );
    }

    /// Matches an outer node to a virtual vertex for the time being. The node
    /// leaves its alternating tree and stays; it has no sibling, and its link
    /// names the virtual vertex with no touching node on that side.
    pub fn temporary_match_virtual_vertex<D: DualInterface>(
        &mut self,
        dual_module: &mut D,
        node: CompactNodeIndex,
        touch: CompactNodeIndex,
        vertex: CompactVertexIndex,
        virtual_vertex: CompactVertexIndex,
    )
        requires
            old(self).has_node(node),
            old(self).spec_get_node(node).is_outer_blossom(),
            old(dual_module).accepts_instructions(),
        ensures
            final(self).is_update_of(
                old(self),
                node,
                Some(Self::matched_to_virtual(touch, vertex, virtual_vertex)),
            ),
            final(dual_module).accepts_instructions(),
            old(dual_module).grow_state_set(final(dual_module), node, CompactGrowState::Stay),
    {
        self.set_grow_state(node, CompactGrowState::Stay, dual_module);
        let primal_node = self.get_node_mut(node);
        primal_node.remove_from_alternating_tree();
        primal_node.sibling = None;
        primal_node.link.touch = Some(touch);
        primal_node.link.through = Some(vertex);
        primal_node.link.peer_touch = None;
        primal_node.link.peer_through = Some(virtual_vertex);
        assert(self.buffer@ =~= old(self).buffer@.update(
            node@,
            Some(Self::matched_to_virtual(touch, vertex, virtual_vertex)),
        ));
    }

    /// Allocates a blossom whose cycle is entered at `first_blossom_child`: a
    /// fresh node in the next blossom slot. Blossom indices are given out in
    /// ascending order and never again within one decoding.
    pub fn allocate_blossom(&mut self, first_blossom_child: CompactNodeIndex) -> (blossom_index:
        CompactNodeIndex)
        requires
            old(self).wf(),
            old(self).count_blossoms < N,
        ensures
            final(self).wf(),
            blossom_index@ == N + old(self).count_blossoms,
            final(self).count_blossoms == old(self).count_blossoms + 1,
            final(self).count_defects == old(self).count_defects,
            final(self).buffer@ == old(self).buffer@.update(
                blossom_index@,
                Some(PrimalNode::fresh()),
            ),
            final(self).first_blossom_child@ == old(self).first_blossom_child@.update(
                old(self).count_blossoms as int,
                Some(first_blossom_child),
            ),
            final(self)@ == old(self)@.insert(blossom_index@, PrimalNode::fresh()),
    {
        let slot: usize = N + self.count_blossoms;
        self.buffer[slot] = Some(PrimalNode::new());
        self.first_blossom_child[self.count_blossoms] = Some(first_blossom_child);
        let blossom_index = CompactNodeIndex::new(slot as CompactNodeNum);
        self.count_blossoms += 1;
        assert(self@ =~= old(self)@.insert(blossom_index@, PrimalNode::fresh()));
        blossom_index
    }

    /// Disposes of a blossom after it has been expanded. Its slot becomes
    /// absent; its index is not given out again within this decoding.
    pub fn dispose_blossom(&mut self, blossom_index: CompactNodeIndex)
        requires
            old(self).wf(),
            old(self).index_valid(blossom_index),
            old(self).is_blossom(blossom_index),
            old(self).has_node(blossom_index),
        ensures
            final(self).wf(),
            final(self).count_blossoms == old(self).count_blossoms,
            final(self).count_defects == old(self).count_defects,
            final(self).buffer@ == old(self).buffer@.update(blossom_index@, None),
            final(self).first_blossom_child@ == old(self).first_blossom_child@.update(
                blossom_index@ - N,
                None,
            ),
            final(self)@ == old(self)@.remove(blossom_index@),
    {
        self.buffer[blossom_index.get() as usize] = None;
        self.first_blossom_child[blossom_index.get() as usize - N] = None;
        assert(self@ =~= old(self)@.remove(blossom_index@));
    }
}

impl TouchingLink {
    /// A link that records no touch.
    pub fn new() -> (link: Self)
        ensures
            link == (TouchingLink { touch: None, through: None, peer_touch: None, peer_through: None }),
    {
        Self { touch: None, through: None, peer_touch: None, peer_through: None }
    }

    /// the link records no touch
    pub open spec fn spec_is_none(&self) -> bool {
        self.touch.is_none() && self.through.is_none() && self.peer_touch.is_none()
            && self.peer_through.is_none()
    }

    /// Whether the link records no touch at all.
    #[verifier::when_used_as_spec(spec_is_none)]
    pub fn is_none(&self) -> (b: bool)
        ensures
            b == self.spec_is_none(),
    {
        self.touch.is_none() && self.through.is_none() && self.peer_touch.is_none()
            && self.peer_through.is_none()
    }
}

impl PrimalNode {
    /// A fresh outer node: growing, outside any tree, unmatched.
    pub fn new() -> (node: Self)
        ensures
            node == Self::fresh(),
    {
        Self {
            grow_state: Some(CompactGrowState::Grow),
            parent: None,
            first_child: None,
            sibling: None,
            link: TouchingLink::new(),
        }
    }

    /// the node that `new` returns
    pub open spec fn fresh() -> Self {
        PrimalNode {
            grow_state: Some(CompactGrowState::Grow),
            parent: None,
            first_child: None,
            sibling: None,
            link: TouchingLink { touch: None, through: None, peer_touch: None, peer_through: None },
        }
    }

    /// the node has a grow state, as every outer node and no inner node has
    pub open spec fn spec_is_outer_blossom(&self) -> bool {
        self.grow_state.is_some()
    }

    /// Whether the node is outer, that is, not inside any blossom.
    #[verifier::when_used_as_spec(spec_is_outer_blossom)]
    pub fn is_outer_blossom(&self) -> (b: bool)
        ensures
            b == self.spec_is_outer_blossom(),
    {
        self.grow_state.is_some()
    }

    /// the node has a parent or a child in an alternating tree
    pub open spec fn spec_in_alternating_tree(&self) -> bool {
        self.parent.is_some() || self.first_child.is_some()
    }

    /// the node is in no tree and records no touch
    pub open spec fn spec_is_free(&self) -> bool {
        !self.spec_in_alternating_tree() && self.link.touch.is_none()
    }

    /// the node is in no tree and records a touch
    pub open spec fn spec_is_matched(&self) -> bool {
        !self.spec_in_alternating_tree() && self.link.touch.is_some()
    }

    /// A matched node whose match can be read: it has a peer, or else the
    /// vertex through which it touches a virtual vertex.
    pub open spec fn match_recorded(&self) -> bool {
        self.spec_is_matched() && (self.sibling.is_none() ==> self.link.peer_through.is_some())
    }

    /// the match of a node for which `match_recorded` holds
    pub open spec fn spec_get_matched(&self) -> CompactMatchTarget {
        match self.sibling {
            Some(node_index) => CompactMatchTarget::Peer(node_index),
            None => CompactMatchTarget::VirtualVertex(self.link.peer_through.unwrap()),
        }
    }

    /// Whether the node is free: neither in an alternating tree nor matched.
    #[verifier::when_used_as_spec(spec_is_free)]
    pub fn is_free(&self) -> (b: bool)
        requires
            self.is_outer_blossom(),
        ensures
            b == self.spec_is_free(),
    {
        !self.in_alternating_tree() && self.link.touch.is_none()
    }

    /// Whether the node is matched, to another node or to a virtual vertex. The
    /// touch tells: a node matched to a virtual vertex has no sibling.
    #[verifier::when_used_as_spec(spec_is_matched)]
    pub fn is_matched(&self) -> (b: bool)
        requires
            self.is_outer_blossom(),
        ensures
            b == self.spec_is_matched(),
    {
        !self.in_alternating_tree() && self.link.touch.is_some()
    }

    /// Whether the node is part of an alternating tree.
    #[verifier::when_used_as_spec(spec_in_alternating_tree)]
    pub fn in_alternating_tree(&self) -> (b: bool)
        requires
            self.is_outer_blossom(),
        ensures
            b == self.spec_in_alternating_tree(),
    {
        self.parent.is_some() || self.first_child.is_some()
    }

    /// Takes the node out of its alternating tree: it has no parent and no
    /// child any more.
    pub fn remove_from_alternating_tree(&mut self)
        requires
            old(self).is_outer_blossom(),
        ensures
            *final(self) == (PrimalNode { parent: None, first_child: None, ..*old(self) }),
    {
        self.parent = None;
        self.first_child = None;
    }

    /// Undoes the match of the node: it has no sibling, and its link records
    /// no touch.
    pub fn remove_from_matching(&mut self)
        requires
            old(self).is_outer_blossom(),
            old(self).is_matched(),
        ensures
            *final(self) == (PrimalNode {
                sibling: None,
                link: TouchingLink { touch: None, through: None, peer_touch: None, peer_through: None },
                ..*old(self)
            }),
            final(self).is_free(),
    {
        self.sibling = None;
        self.link.touch = None;
        self.link.through = None;
        self.link.peer_touch = None;
        self.link.peer_through = None;
    }

    /// What the node is matched to: its sibling, or else the virtual vertex
    /// that its link names.
    pub fn get_matched(&self) -> (target: CompactMatchTarget)
        requires
            self.is_outer_blossom(),
            self.match_recorded(),
        ensures
            target == self.spec_get_matched(),
    {
        if let Some(node_index) = self.sibling {
            CompactMatchTarget::Peer(node_index)
        } else {
            CompactMatchTarget::VirtualVertex(self.link.peer_through.unwrap())
        }
    }
}

} // verus!
