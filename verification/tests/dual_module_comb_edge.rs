use micro_blossom::dual_module_comb::DualModuleCombDriver;
use micro_blossom::dual_module_comb::ShadowNode;
use micro_blossom::dual_module_comb::Vertex;
use micro_blossom::dual_module_comb::VertexCombSignals;
use micro_blossom::dual_module_comb::VertexRegisters;
use micro_blossom::dual_module_comb::VIRTUAL_NODE_INDEX;
use micro_blossom::dual_module_comb_edge::Edge;
use micro_blossom::dual_module_comb_edge::EdgeCombSignals;
use micro_blossom::dual_module_comb_edge::EdgeRegisters;
use micro_blossom::dual_module_rtl::Instruction;
use micro_blossom::util::CompactGrowState;
use micro_blossom::util::CompactNodeIndex;
use micro_blossom::util::CompactObstacle;
use micro_blossom::util::CompactVertexIndex;
use micro_blossom::util::CompactWeight;

/// a vertex that belongs to `node` and has grown by `grown`, with signals
/// that agree with its registers
fn vertex(node: Option<usize>, grown: isize, speed: CompactGrowState) -> Vertex {
    let registers = VertexRegisters {
        speed,
        grown,
        is_virtual: false,
        is_defect: node.is_some(),
        node_index: node,
        root_index: node,
    };
    Vertex {
        registers,
        signals: VertexCombSignals {
            permit_pre_matching: false,
            post_execute_state: registers,
            post_update_state: registers,
            shadow_node: ShadowNode { node_index: node, root_index: node, speed },
        },
    }
}

fn driver(vertices: Vec<Vertex>) -> DualModuleCombDriver {
    DualModuleCombDriver {
        vertices,
        instruction: Instruction::FindObstacle { region_preference: 0 },
        use_pre_matching: false,
    }
}

#[test]
fn new_edge_and_clear() {
    let mut edge = Edge::new(3, 0, 1, 10);
    assert_eq!(edge.edge_index, 3);
    assert_eq!(edge.default_weight, 10);
    assert_eq!(edge.registers.weight, 10);
    assert_eq!(edge.signals.response, None);
    assert_eq!(EdgeRegisters::new(7).weight, 7);
    let signals = EdgeCombSignals::new();
    assert_eq!(signals.post_fetch_is_tight, None);
    assert_eq!(signals.do_pre_matching, None);
    assert_eq!(signals.post_execute_is_tight, None);
    edge.registers.weight = 4;
    edge.signals.post_fetch_is_tight = Some(true);
    edge.clear();
    assert_eq!(edge.registers.weight, 10);
    assert_eq!(edge.signals.post_fetch_is_tight, None);
    edge.signals.do_pre_matching = Some(false);
    edge.register_updated();
    assert_eq!(edge.signals.do_pre_matching, None);
    assert_eq!(edge.get_peer(0), 1);
    assert_eq!(edge.get_peer(1), 0);
    let dual_module = driver(vec![vertex(None, 0, CompactGrowState::Stay); 2]);
    assert_eq!(edge.get_write_signals(&dual_module).weight, 10);
}

#[test]
fn tightness_signals_are_computed_once() {
    let mut dual_module = driver(vec![
        vertex(Some(0), 6, CompactGrowState::Grow),
        vertex(Some(1), 4, CompactGrowState::Grow),
    ]);
    dual_module.vertices[0].signals.post_execute_state.grown = 5;
    let mut edge = Edge::new(0, 0, 1, 10);
    assert!(edge.is_readable(&dual_module));
    assert!(edge.get_post_fetch_is_tight(&dual_module));
    assert_eq!(edge.signals.post_fetch_is_tight, Some(true));
    assert!(!edge.get_post_execute_is_tight(&dual_module));
    assert_eq!(edge.signals.post_execute_is_tight, Some(false));
    assert_eq!(edge.get_remaining(&dual_module), 0);
    // a heavier edge is not tight
    let mut heavy = Edge::new(1, 0, 1, 11);
    assert!(!heavy.get_post_fetch_is_tight(&dual_module));
    assert_eq!(heavy.get_remaining(&dual_module), 1);
    // an edge to a vertex that the driver does not have cannot be read
    assert!(!Edge::new(2, 0, 2, 10).is_readable(&dual_module));
}

#[test]
fn pre_matching_needs_the_switch_both_permits_tightness_and_two_nodes() {
    let mut dual_module = driver(vec![
        vertex(Some(0), 6, CompactGrowState::Grow),
        vertex(Some(1), 4, CompactGrowState::Grow),
    ]);
    dual_module.vertices[0].signals.permit_pre_matching = true;
    dual_module.vertices[1].signals.permit_pre_matching = true;
    // switched off
    assert!(!Edge::new(0, 0, 1, 10).get_do_pre_matching(&dual_module));
    dual_module.use_pre_matching = true;
    let mut edge = Edge::new(0, 0, 1, 10);
    assert!(edge.get_do_pre_matching(&dual_module));
    assert_eq!(edge.signals.do_pre_matching, Some(true));
    // not tight
    assert!(!Edge::new(0, 0, 1, 11).get_do_pre_matching(&dual_module));
    // one vertex does not permit it
    dual_module.vertices[1].signals.permit_pre_matching = false;
    assert!(!Edge::new(0, 0, 1, 10).get_do_pre_matching(&dual_module));
    dual_module.vertices[1].signals.permit_pre_matching = true;
    // both vertices belong to the same node
    dual_module.vertices[1].registers.node_index = Some(0);
    assert!(!Edge::new(0, 0, 1, 10).get_do_pre_matching(&dual_module));
}

#[test]
fn response_is_a_length_a_conflict_or_no_limit() {
    let mut dual_module = driver(vec![
        vertex(Some(0), 3, CompactGrowState::Grow),
        vertex(Some(1), 1, CompactGrowState::Grow),
        vertex(None, 0, CompactGrowState::Stay),
    ]);
    // two growing nodes share what remains
    let mut edge = Edge::new(0, 0, 1, 10);
    assert!(edge.is_answerable(&dual_module));
    assert_eq!(edge.get_response(&dual_module), CompactObstacle::GrowLength { length: 3 });
    assert_eq!(edge.signals.response, Some(CompactObstacle::GrowLength { length: 3 }));
    // one growing node has it for itself
    assert_eq!(
        Edge::new(1, 0, 2, 10).get_response(&dual_module),
        CompactObstacle::GrowLength { length: 7 }
    );
    // an odd remainder between two growing nodes cannot be told exactly
    assert!(!Edge::new(0, 0, 1, 9).is_answerable(&dual_module));
    // nothing remains: a conflict
    assert_eq!(
        Edge::new(0, 0, 1, 4).get_response(&dual_module),
        CompactObstacle::Conflict {
            node_1: Some(CompactNodeIndex::new(0)),
            touch_1: Some(CompactNodeIndex::new(0)),
            vertex_1: CompactVertexIndex::new(0),
            node_2: Some(CompactNodeIndex::new(1)),
            touch_2: Some(CompactNodeIndex::new(1)),
            vertex_2: CompactVertexIndex::new(1),
        }
    );
    // the same node on both sides, or no joint growth: no finite length
    dual_module.vertices[1].signals.shadow_node.node_index = Some(0);
    assert_eq!(
        Edge::new(0, 0, 1, 10).get_response(&dual_module),
        CompactObstacle::GrowLength { length: CompactWeight::MAX }
    );
    dual_module.vertices[1].signals.shadow_node.node_index = Some(1);
    dual_module.vertices[1].signals.shadow_node.speed = CompactGrowState::Shrink;
    assert_eq!(
        Edge::new(0, 0, 1, 10).get_response(&dual_module),
        CompactObstacle::GrowLength { length: CompactWeight::MAX }
    );
    // only an instruction that asks for an obstacle is answered
    dual_module.instruction = Instruction::Grow { length: 1 };
    assert_eq!(Edge::new(0, 0, 1, 10).get_response(&dual_module), CompactObstacle::NoObstacle);
}

#[test]
fn conflict_with_a_virtual_vertex_names_no_node_on_that_side() {
    let mut dual_module = driver(vec![
        vertex(Some(2), 10, CompactGrowState::Grow),
        vertex(None, 0, CompactGrowState::Stay),
    ]);
    dual_module.vertices[1].registers.is_virtual = true;
    dual_module.vertices[1].signals.shadow_node.node_index = Some(VIRTUAL_NODE_INDEX);
    dual_module.vertices[1].signals.shadow_node.root_index = Some(VIRTUAL_NODE_INDEX);
    let mut edge = Edge::new(0, 0, 1, 10);
    assert!(edge.is_answerable(&dual_module));
    assert_eq!(
        edge.get_response(&dual_module),
        CompactObstacle::Conflict {
            node_1: Some(CompactNodeIndex::new(2)),
            touch_1: Some(CompactNodeIndex::new(2)),
            vertex_1: CompactVertexIndex::new(0),
            node_2: None,
            touch_2: None,
            vertex_2: CompactVertexIndex::new(1),
        }
    );
    // a node that does not fit a compact index cannot be told
    dual_module.vertices[0].signals.shadow_node.node_index = Some(70000);
    assert!(!Edge::new(0, 0, 1, 10).is_answerable(&dual_module));
}

#[test]
fn vertex_getters_hand_out_the_signals() {
    let dual_module = driver(vec![vertex(Some(0), 6, CompactGrowState::Grow)]);
    let vertex = dual_module.vertices[0];
    assert!(!vertex.get_permit_pre_matching(&dual_module));
    assert_eq!(vertex.get_post_execute_signals(&dual_module).grown, 6);
    assert_eq!(vertex.get_post_update_signals(&dual_module).node_index, Some(0));
    assert_eq!(vertex.get_shadow_node(&dual_module).speed, CompactGrowState::Grow);
    assert_eq!(CompactGrowState::Grow.speed(), 1);
    assert_eq!(CompactGrowState::Stay.speed(), 0);
    assert_eq!(CompactGrowState::Shrink.speed(), -1);
}
