use micro_blossom::interface::DualInterface;
use micro_blossom::primal_nodes::PrimalNode;
use micro_blossom::primal_nodes::PrimalNodes;
use micro_blossom::primal_nodes::TouchingLink;
use micro_blossom::util::CompactGrowState;
use micro_blossom::util::CompactMatchTarget;
use micro_blossom::util::CompactNodeIndex;
use micro_blossom::util::CompactObstacle;
use micro_blossom::util::CompactVertexIndex;
use micro_blossom::util::CompactWeight;

/// A dual module that only writes down the grow states it is told.
struct Recorder {
    grow_states: Vec<(CompactNodeIndex, CompactGrowState)>,
}

impl DualInterface for Recorder {
    fn accepts_instructions(&self) -> bool {
        true
    }

    fn grow_state_set(&self, after: &Self, node: CompactNodeIndex, grow_state: CompactGrowState) -> bool {
        after.grow_states.last() == Some(&(node, grow_state))
            && after.grow_states.len() == self.grow_states.len() + 1
    }

    fn can_add_defect(&self, _vertex: CompactVertexIndex, _node: CompactNodeIndex) -> bool {
        true
    }

    fn defect_added(&self, after: &Self, _vertex: CompactVertexIndex, _node: CompactNodeIndex) -> bool {
        after.grow_states == self.grow_states
    }

    fn can_create_blossom(&self, _members: &Vec<CompactNodeIndex>, _blossom: CompactNodeIndex) -> bool {
        true
    }

    fn blossom_created(&self, after: &Self, _members: &Vec<CompactNodeIndex>, _blossom: CompactNodeIndex) -> bool {
        after.grow_states == self.grow_states
    }

    fn can_expand_blossom(&self, _blossom: CompactNodeIndex) -> bool {
        true
    }

    fn blossom_expanded(&self, after: &Self, _blossom: CompactNodeIndex) -> bool {
        after.grow_states == self.grow_states
    }

    fn can_find_obstacle(&self) -> bool {
        true
    }

    fn obstacle_found(&self, after: &Self, obstacle: CompactObstacle) -> bool {
        after.grow_states == self.grow_states && obstacle == CompactObstacle::NoObstacle
    }

    fn can_grow(&self, _length: CompactWeight) -> bool {
        true
    }

    fn has_grown(&self, after: &Self, _length: CompactWeight) -> bool {
        after.grow_states == self.grow_states
    }

    fn set_grow_state(&mut self, node: CompactNodeIndex, grow_state: CompactGrowState) {
        self.grow_states.push((node, grow_state));
    }

    fn add_defect(&mut self, _vertex: CompactVertexIndex, _node: CompactNodeIndex) {}

    fn create_blossom(&mut self, _members: &Vec<CompactNodeIndex>, _blossom: CompactNodeIndex) {}

    fn expand_blossom(&mut self, _blossom: CompactNodeIndex) {}

    fn find_obstacle(&mut self) -> CompactObstacle {
        CompactObstacle::NoObstacle
    }

    fn grow(&mut self, _length: CompactWeight) {}
}

fn ni(index: u16) -> CompactNodeIndex {
    CompactNodeIndex::new(index)
}

fn vi(index: u16) -> CompactVertexIndex {
    CompactVertexIndex::new(index)
}

fn recorder() -> Recorder {
    Recorder { grow_states: vec![] }
}

#[test]
fn new_store_is_empty() {
    let nodes = PrimalNodes::<4, 8>::new();
    assert_eq!(nodes.count_defects, 0);
    assert_eq!(nodes.count_blossoms, 0);
    for index in 0..8 {
        assert!(!nodes.has_node(ni(index)));
    }
    assert!(nodes.iterate_intermediate_matching().is_empty());
    assert!(nodes.iterate_perfect_matching().is_empty());
}

#[test]
fn check_node_index_skips_unreported_defects() {
    let mut nodes = PrimalNodes::<4, 8>::new();
    nodes.check_node_index(ni(2));
    assert_eq!(nodes.count_defects, 3);
    assert!(!nodes.has_node(ni(0)));
    assert!(!nodes.has_node(ni(1)));
    assert!(nodes.has_node(ni(2)));
    let node = nodes.get_node(ni(2));
    assert_eq!(node.grow_state, Some(CompactGrowState::Grow));
    assert!(node.is_free());
    assert!(node.link.is_none());
    // a defect that is reported again keeps its node
    nodes.get_node_mut(ni(2)).parent = Some(ni(0));
    nodes.check_node_index(ni(2));
    assert_eq!(nodes.get_node(ni(2)).parent, Some(ni(0)));
    // a smaller index does not lower the count, and gets a fresh node
    nodes.check_node_index(ni(1));
    assert_eq!(nodes.count_defects, 3);
    assert!(nodes.has_node(ni(1)));
    assert!(!nodes.has_node(ni(0)));
}

#[test]
fn clear_makes_stale_slots_absent_when_reused() {
    let mut nodes = PrimalNodes::<4, 8>::new();
    nodes.check_node_index(ni(0));
    nodes.check_node_index(ni(1));
    nodes.clear();
    assert_eq!(nodes.count_defects, 0);
    assert_eq!(nodes.count_blossoms, 0);
    // the slots are not wiped by the clear, but by the next use
    nodes.check_node_index(ni(1));
    assert_eq!(nodes.count_defects, 2);
    assert!(!nodes.has_node(ni(0)));
    assert!(nodes.has_node(ni(1)));
}

#[test]
fn idempotent_clear() {
    let mut nodes = PrimalNodes::<4, 8>::new();
    nodes.clear();
    assert!(nodes.iterate_perfect_matching().is_empty());
    assert_eq!(nodes.count_defects, 0);
    assert_eq!(nodes.count_blossoms, 0);
    let mut dual_module = recorder();
    nodes.check_node_index(ni(0));
    nodes.check_node_index(ni(1));
    nodes.temporary_match(&mut dual_module, ni(0), ni(1), ni(0), ni(1), vi(5), vi(6));
    assert_eq!(nodes.iterate_perfect_matching().len(), 1);
    nodes.clear();
    nodes.clear();
    assert!(nodes.iterate_intermediate_matching().is_empty());
    assert!(nodes.iterate_perfect_matching().is_empty());
    assert_eq!(nodes.count_defects, 0);
    assert_eq!(nodes.count_blossoms, 0);
}

#[test]
fn is_blossom_splits_the_index_space() {
    let mut nodes = PrimalNodes::<4, 8>::new();
    let blossom = nodes.allocate_blossom(ni(0));
    assert_eq!(blossom.get(), 4);
    assert!(nodes.is_blossom(blossom));
    for index in 0..4 {
        assert!(!nodes.is_blossom(ni(index)));
    }
}

#[test]
fn blossoms_are_allocated_in_ascending_order_up_to_capacity() {
    let mut nodes = PrimalNodes::<3, 6>::new();
    for expected in 3..6 {
        assert!(nodes.count_blossoms < 3);
        let blossom = nodes.allocate_blossom(ni(1));
        assert_eq!(blossom.get(), expected);
        assert!(nodes.has_node(blossom));
        assert_eq!(nodes.get_first_blossom_child(blossom), ni(1));
        assert_eq!(nodes.get_node(blossom).grow_state, Some(CompactGrowState::Grow));
    }
    // the arena is full: no further blossom may be asked for
    assert_eq!(nodes.count_blossoms, 3);
}

#[test]
fn disposed_blossom_is_absent_and_its_index_is_not_reused() {
    let mut nodes = PrimalNodes::<4, 8>::new();
    let first = nodes.allocate_blossom(ni(0));
    nodes.dispose_blossom(first);
    assert!(!nodes.has_node(first));
    assert_eq!(nodes.first_blossom_child[0], None);
    assert_eq!(nodes.count_blossoms, 1);
    let second = nodes.allocate_blossom(ni(2));
    assert_eq!(second.get(), 5);
    assert!(!nodes.has_node(first));
}

#[test]
fn allocate_then_dispose_leaves_the_other_nodes_alone() {
    let mut nodes = PrimalNodes::<4, 8>::new();
    let mut dual_module = recorder();
    nodes.check_node_index(ni(0));
    nodes.check_node_index(ni(1));
    nodes.temporary_match(&mut dual_module, ni(0), ni(1), ni(0), ni(1), vi(5), vi(6));
    let before = nodes.iterate_perfect_matching();
    let blossom = nodes.allocate_blossom(ni(0));
    nodes.dispose_blossom(blossom);
    assert_eq!(nodes.iterate_perfect_matching(), before);
    assert_eq!(nodes.count_defects, 2);
}

#[test]
fn grow_state_is_set_in_store_and_dual_module() {
    let mut nodes = PrimalNodes::<4, 8>::new();
    let mut dual_module = recorder();
    nodes.check_node_index(ni(1));
    assert_eq!(nodes.get_grow_state(ni(1)), CompactGrowState::Grow);
    nodes.set_grow_state(ni(1), CompactGrowState::Shrink, &mut dual_module);
    assert_eq!(nodes.get_grow_state(ni(1)), CompactGrowState::Shrink);
    assert_eq!(dual_module.grow_states, vec![(ni(1), CompactGrowState::Shrink)]);
}

#[test]
fn temporary_match_links_both_nodes() {
    let mut nodes = PrimalNodes::<4, 8>::new();
    let mut dual_module = recorder();
    nodes.check_node_index(ni(0));
    nodes.check_node_index(ni(3));
    nodes.get_node_mut(ni(0)).parent = Some(ni(3));
    nodes.get_node_mut(ni(3)).first_child = Some(ni(0));
    assert!(nodes.get_node(ni(0)).in_alternating_tree());
    nodes.temporary_match(&mut dual_module, ni(0), ni(3), ni(0), ni(3), vi(10), vi(11));
    let node_0 = nodes.get_node(ni(0)).clone();
    let node_3 = nodes.get_node(ni(3)).clone();
    assert_eq!(node_0.grow_state, Some(CompactGrowState::Stay));
    assert_eq!(node_3.grow_state, Some(CompactGrowState::Stay));
    assert!(!node_0.in_alternating_tree());
    assert!(!node_3.in_alternating_tree());
    assert!(node_0.is_matched());
    assert!(node_3.is_matched());
    assert!(!node_0.is_free());
    assert_eq!(node_0.sibling, Some(ni(3)));
    assert_eq!(node_3.sibling, Some(ni(0)));
    assert_eq!(
        node_0.link,
        TouchingLink {
            touch: Some(ni(0)),
            through: Some(vi(10)),
            peer_touch: Some(ni(3)),
            peer_through: Some(vi(11)),
        }
    );
    assert_eq!(
        node_3.link,
        TouchingLink {
            touch: Some(ni(3)),
            through: Some(vi(11)),
            peer_touch: Some(ni(0)),
            peer_through: Some(vi(10)),
        }
    );
    assert_eq!(node_0.get_matched(), CompactMatchTarget::Peer(ni(3)));
    assert_eq!(node_3.get_matched(), CompactMatchTarget::Peer(ni(0)));
    assert_eq!(
        dual_module.grow_states,
        vec![(ni(0), CompactGrowState::Stay), (ni(3), CompactGrowState::Stay)]
    );
}

#[test]
fn temporary_match_with_link_reads_the_link_from_the_first_node() {
    let mut nodes = PrimalNodes::<4, 8>::new();
    let mut dual_module = recorder();
    nodes.check_node_index(ni(1));
    nodes.check_node_index(ni(2));
    let link = TouchingLink {
        touch: Some(ni(1)),
        through: Some(vi(7)),
        peer_touch: Some(ni(2)),
        peer_through: Some(vi(8)),
    };
    nodes.temporary_match_with_link(&mut dual_module, ni(1), &link, ni(2));
    assert_eq!(nodes.get_node(ni(1)).link, link);
    assert_eq!(
        nodes.get_node(ni(2)).link,
        TouchingLink {
            touch: Some(ni(2)),
            through: Some(vi(8)),
            peer_touch: Some(ni(1)),
            peer_through: Some(vi(7)),
        }
    );
    assert_eq!(nodes.get_node(ni(2)).sibling, Some(ni(1)));
}

#[test]
fn virtual_boundary_match() {
    let mut nodes = PrimalNodes::<4, 8>::new();
    let mut dual_module = recorder();
    nodes.check_node_index(ni(0));
    nodes.temporary_match_virtual_vertex(&mut dual_module, ni(0), ni(0), vi(16), vi(23));
    let node = nodes.get_node(ni(0)).clone();
    assert_eq!(node.grow_state, Some(CompactGrowState::Stay));
    assert_eq!(node.sibling, None);
    assert_eq!(node.link.peer_touch, None);
    assert!(node.is_matched());
    assert_eq!(node.get_matched(), CompactMatchTarget::VirtualVertex(vi(23)));
    let matching = nodes.iterate_perfect_matching();
    assert_eq!(matching.len(), 1);
    assert_eq!(matching[0].0, ni(0));
    assert_eq!(matching[0].1, CompactMatchTarget::VirtualVertex(vi(23)));
    assert_eq!(dual_module.grow_states, vec![(ni(0), CompactGrowState::Stay)]);
}

#[test]
fn remove_from_matching_frees_the_node() {
    let mut nodes = PrimalNodes::<4, 8>::new();
    let mut dual_module = recorder();
    nodes.check_node_index(ni(0));
    nodes.temporary_match_virtual_vertex(&mut dual_module, ni(0), ni(0), vi(16), vi(23));
    let node = nodes.get_node_mut(ni(0));
    node.remove_from_matching();
    assert!(node.is_free());
    assert!(!node.is_matched());
    assert!(node.link.is_none());
    assert_eq!(node.sibling, None);
}

#[test]
fn remove_from_alternating_tree_keeps_the_rest() {
    let mut node = PrimalNode::new();
    node.parent = Some(ni(1));
    node.first_child = Some(ni(2));
    node.sibling = Some(ni(3));
    node.remove_from_alternating_tree();
    assert_eq!(node.parent, None);
    assert_eq!(node.first_child, None);
    assert_eq!(node.sibling, Some(ni(3)));
    assert!(node.is_outer_blossom());
}

#[test]
fn touching_link_new_is_none() {
    let link = TouchingLink::new();
    assert!(link.is_none());
    let mut touched = TouchingLink::new();
    touched.peer_through = Some(vi(1));
    assert!(!touched.is_none());
}

/// defects 0, 1, 2 in the blossom 4, whose cycle is 0 -> 1 -> 2 -> 0;
/// the link of each child records its touch with the next child
fn store_with_blossom() -> (PrimalNodes<4, 8>, CompactNodeIndex) {
    let mut nodes = PrimalNodes::<4, 8>::new();
    for index in 0..3 {
        nodes.check_node_index(ni(index));
    }
    let blossom = nodes.allocate_blossom(ni(0));
    for index in 0..3u16 {
        let next = (index + 1) % 3;
        let node = nodes.get_node_mut(ni(index));
        node.grow_state = None;
        node.parent = Some(blossom);
        node.sibling = Some(ni(next));
        node.link = TouchingLink {
            touch: Some(ni(index)),
            through: Some(vi(10 + index)),
            peer_touch: Some(ni(next)),
            peer_through: Some(vi(20 + next)),
        };
    }
    (nodes, blossom)
}

#[test]
fn blossom_children_follow_the_cycle() {
    let (nodes, blossom) = store_with_blossom();
    let children = nodes.iterate_blossom_children(blossom);
    let indices: Vec<u16> = children.iter().map(|child| child.0.get()).collect();
    assert_eq!(indices, vec![0, 1, 2]);
    assert_eq!(children.len() % 2, 1);
    assert_eq!(children[1].1, nodes.get_node(ni(1)).link);
}

#[test]
fn outer_blossom_of_inner_and_outer_nodes() {
    let (mut nodes, blossom) = store_with_blossom();
    assert_eq!(nodes.get_outer_blossom(ni(1)), blossom);
    assert_eq!(nodes.get_outer_blossom(blossom), blossom);
    assert_eq!(nodes.get_second_outer_blossom(ni(1)), ni(1));
    // nest the blossom in a second one
    nodes.check_node_index(ni(3));
    let outer = nodes.allocate_blossom(blossom);
    nodes.get_node_mut(blossom).grow_state = None;
    nodes.get_node_mut(blossom).parent = Some(outer);
    assert_eq!(nodes.get_outer_blossom(ni(2)), outer);
    assert_eq!(nodes.get_second_outer_blossom(ni(2)), blossom);
    assert_eq!(nodes.get_second_outer_blossom(blossom), blossom);
    assert_eq!(nodes.get_outer_blossom(ni(3)), ni(3));
}

#[test]
fn intermediate_matching_tells_each_pair_at_its_smaller_end() {
    let mut nodes = PrimalNodes::<4, 8>::new();
    let mut dual_module = recorder();
    for index in 0..4 {
        nodes.check_node_index(ni(index));
    }
    nodes.temporary_match(&mut dual_module, ni(2), ni(0), ni(2), ni(0), vi(12), vi(10));
    nodes.temporary_match_virtual_vertex(&mut dual_module, ni(1), ni(1), vi(11), vi(31));
    nodes.temporary_match_virtual_vertex(&mut dual_module, ni(3), ni(3), vi(13), vi(33));
    let matching = nodes.iterate_intermediate_matching();
    let told: Vec<(u16, CompactMatchTarget)> =
        matching.iter().map(|entry| (entry.0.get(), entry.1)).collect();
    assert_eq!(
        told,
        vec![
            (0, CompactMatchTarget::Peer(ni(2))),
            (1, CompactMatchTarget::VirtualVertex(vi(31))),
            (3, CompactMatchTarget::VirtualVertex(vi(33))),
        ]
    );
    assert_eq!(matching[0].2, nodes.get_node(ni(0)).link);
}

#[test]
fn three_defect_blossom_expands_to_a_pair_and_a_virtual_match() {
    let (mut nodes, blossom) = store_with_blossom();
    let mut dual_module = recorder();
    // the blossom touches a virtual vertex through its child 1
    nodes.temporary_match_virtual_vertex(&mut dual_module, blossom, ni(1), vi(11), vi(40));
    let intermediate = nodes.iterate_intermediate_matching();
    assert_eq!(intermediate.len(), 1);
    assert_eq!(intermediate[0].0, blossom);
    let matching = nodes.iterate_perfect_matching();
    let told: Vec<(u16, CompactMatchTarget)> =
        matching.iter().map(|entry| (entry.0.get(), entry.1)).collect();
    // the children after the touching one pair up along the cycle
    assert_eq!(
        told,
        vec![
            (2, CompactMatchTarget::Peer(ni(0))),
            (1, CompactMatchTarget::VirtualVertex(vi(40))),
        ]
    );
    assert_eq!(matching[0].2, nodes.get_node(ni(2)).link);
}

#[test]
fn every_defect_appears_once_in_the_perfect_matching() {
    let (mut nodes, blossom) = store_with_blossom();
    let mut dual_module = recorder();
    nodes.check_node_index(ni(3));
    // the blossom is matched to the defect 3, which it touches through child 0
    nodes.temporary_match(&mut dual_module, ni(3), blossom, ni(3), ni(0), vi(13), vi(10));
    let matching = nodes.iterate_perfect_matching();
    let mut seen = vec![0usize; 4];
    for (node, target, _link) in matching.iter() {
        seen[node.get() as usize] += 1;
        match target {
            CompactMatchTarget::Peer(peer) => seen[peer.get() as usize] += 1,
            CompactMatchTarget::VirtualVertex(_) => panic!("no virtual vertex is matched here"),
        }
    }
    assert_eq!(seen, vec![1, 1, 1, 1]);
    let told: Vec<(u16, CompactMatchTarget)> =
        matching.iter().map(|entry| (entry.0.get(), entry.1)).collect();
    assert_eq!(
        told,
        vec![(1, CompactMatchTarget::Peer(ni(2))), (3, CompactMatchTarget::Peer(ni(0)))]
    );
}

#[test]
fn nested_blossom_expands_level_by_level() {
    // the defects 0, 1, 2 form the inner blossom
    let mut nodes = PrimalNodes::<8, 16>::new();
    for index in 0..6 {
        nodes.check_node_index(ni(index));
    }
    let inner = nodes.allocate_blossom(ni(0));
    assert_eq!(inner.get(), 8);
    for index in 0..3u16 {
        let next = (index + 1) % 3;
        let node = nodes.get_node_mut(ni(index));
        node.grow_state = None;
        node.parent = Some(inner);
        node.sibling = Some(ni(next));
        node.link = TouchingLink {
            touch: Some(ni(index)),
            through: Some(vi(10 + index)),
            peer_touch: Some(ni(next)),
            peer_through: Some(vi(10 + next)),
        };
    }
    // the outer blossom has the cycle inner -> 3 -> 4 -> inner
    let outer = nodes.allocate_blossom(inner);
    assert_eq!(outer.get(), 9);
    let cycle = [inner, ni(3), ni(4)];
    // which defect of each member touches the next member
    let touches = [ni(2), ni(3), ni(4)];
    // which defect of each member is touched by the member before it
    let touched = [ni(1), ni(3), ni(4)];
    for position in 0..3 {
        let next = (position + 1) % 3;
        let node = nodes.get_node_mut(cycle[position]);
        node.grow_state = None;
        node.parent = Some(outer);
        node.sibling = Some(cycle[next]);
        node.link = TouchingLink {
            touch: Some(touches[position]),
            through: Some(vi(50)),
            peer_touch: Some(touched[next]),
            peer_through: Some(vi(51)),
        };
    }
    let mut dual_module = recorder();
    // the outer blossom is matched to the defect 5 and touches it through the defect 3
    nodes.temporary_match(&mut dual_module, ni(5), outer, ni(5), ni(3), vi(15), vi(13));
    let matching = nodes.iterate_perfect_matching();
    let told: Vec<(u16, CompactMatchTarget)> =
        matching.iter().map(|entry| (entry.0.get(), entry.1)).collect();
    // around the touching defect 3 the cycle leaves the pair (4, inner): the defect 4
    // with the defect 1 of the inner blossom, inside which 2 and 0 pair up
    assert_eq!(
        told,
        vec![
            (2, CompactMatchTarget::Peer(ni(0))),
            (4, CompactMatchTarget::Peer(ni(1))),
            (5, CompactMatchTarget::Peer(ni(3))),
        ]
    );
}
