//! The narrow contract through which the primal side drives a dual module.

use crate::util::CompactGrowState;
use crate::util::CompactNodeIndex;
use crate::util::CompactObstacle;
use crate::util::CompactVertexIndex;
use crate::util::CompactWeight;
use vstd::prelude::*;

verus! {

/// A dual module as the primal side sees it.
///
/// An implementation says in `accepts_instructions` when it may be driven at
/// all, for each operation in a predicate of its own on which arguments it
/// takes, and in a relation between the dual module before and after what the
/// operation has done.
pub trait DualInterface: Sized {
    /// the dual module is in a state in which it may be driven
    spec fn accepts_instructions(&self) -> bool;

    /// `after` is this dual module once `node` has been given `grow_state`
    spec fn grow_state_set(
        &self,
        after: &Self,
        node: CompactNodeIndex,
        grow_state: CompactGrowState,
    ) -> bool;

    /// the vertex can become the defect of the new node `node`
    spec fn can_add_defect(&self, vertex: CompactVertexIndex, node: CompactNodeIndex) -> bool;

    /// `after` is this dual module with the defect `node` at `vertex`
    spec fn defect_added(
        &self,
        after: &Self,
        vertex: CompactVertexIndex,
        node: CompactNodeIndex,
    ) -> bool;

    /// the nodes `members` can be made the new blossom `blossom`
    spec fn can_create_blossom(
        &self,
        members: &Vec<CompactNodeIndex>,
        blossom: CompactNodeIndex,
    ) -> bool;

    /// `after` is this dual module with the vertices of `members` given to
    /// `blossom`
    spec fn blossom_created(
        &self,
        after: &Self,
        members: &Vec<CompactNodeIndex>,
        blossom: CompactNodeIndex,
    ) -> bool;

    /// `blossom` is a blossom that can be expanded
    spec fn can_expand_blossom(&self, blossom: CompactNodeIndex) -> bool;

    /// `after` is this dual module with the vertices of `blossom` given back
    /// to the nodes that it was made of
    spec fn blossom_expanded(&self, after: &Self, blossom: CompactNodeIndex) -> bool;

    /// the dual module can tell its obstacle
    spec fn can_find_obstacle(&self) -> bool;

    /// `after` is this dual module once it has told `obstacle`
    spec fn obstacle_found(&self, after: &Self, obstacle: CompactObstacle) -> bool;

    /// the dual module can grow by `length`
    spec fn can_grow(&self, length: CompactWeight) -> bool;

    /// `after` is this dual module grown by `length`
    spec fn has_grown(&self, after: &Self, length: CompactWeight) -> bool;

    /// Gives the outer node `node` the grow state `grow_state`, so that every
    /// vertex it owns takes the matching speed.
    fn set_grow_state(&mut self, node: CompactNodeIndex, grow_state: CompactGrowState)
        requires
            old(self).accepts_instructions(),
        ensures
            final(self).accepts_instructions(),
            old(self).grow_state_set(final(self), node, grow_state),
    ;

    /// Makes `vertex` the defect of the new node `node`.
    fn add_defect(&mut self, vertex: CompactVertexIndex, node: CompactNodeIndex)
        requires
            old(self).accepts_instructions(),
            old(self).can_add_defect(vertex, node),
        ensures
            final(self).accepts_instructions(),
            old(self).defect_added(final(self), vertex, node),
    ;

    /// Gives every vertex that one of `members` owns to the new blossom.
    fn create_blossom(&mut self, members: &Vec<CompactNodeIndex>, blossom: CompactNodeIndex)
        requires
            old(self).accepts_instructions(),
            old(self).can_create_blossom(members, blossom),
        ensures
            final(self).accepts_instructions(),
            old(self).blossom_created(final(self), members, blossom),
    ;

    /// Gives the vertices of a blossom back to the nodes that it was made of.
    fn expand_blossom(&mut self, blossom: CompactNodeIndex)
        requires
            old(self).accepts_instructions(),
            old(self).can_expand_blossom(blossom),
        ensures
            final(self).accepts_instructions(),
            old(self).blossom_expanded(final(self), blossom),
    ;

    /// Tells the obstacle that the primal side has to handle next.
    fn find_obstacle(&mut self) -> (obstacle: CompactObstacle)
        requires
            old(self).accepts_instructions(),
            old(self).can_find_obstacle(),
        ensures
            final(self).accepts_instructions(),
            old(self).obstacle_found(final(self), obstacle),
    ;

    /// Lets time pass by `length`, which must not exceed the length that was
    /// last told as an obstacle.
    fn grow(&mut self, length: CompactWeight)
        requires
            old(self).accepts_instructions(),
            old(self).can_grow(length),
        ensures
            final(self).accepts_instructions(),
            old(self).has_grown(final(self), length),
    ;
}

} // verus!
