use fusion_blossom::dual_module::DualModuleImpl;
use fusion_blossom::dual_module::DualModuleInterfacePtr;
use fusion_blossom::dual_module::DualNodeClass as InterfaceNodeClass;
use fusion_blossom::dual_module::DualNodeGrowState as InterfaceGrowState;
use fusion_blossom::dual_module::DualNodePtr;
use fusion_blossom::dual_module::GroupMaxUpdateLength;
use fusion_blossom::dual_module::MaxUpdateLength as InterfaceMaxUpdateLength;
use fusion_blossom::dual_module::SyncRequest;
use fusion_blossom::example_codes::CodeCapacityPlanarCode;
use fusion_blossom::example_codes::ExampleCode;
use fusion_blossom::pointers::RwLockPtr;
use fusion_blossom::util::SolverInitializer as InterfaceInitializer;
use fusion_blossom::util::Weight as InterfaceWeight;
use fusion_blossom::visualize::print_visualize_link;
use fusion_blossom::visualize::FusionVisualizer;
use fusion_blossom::visualize::Visualizer;
use micro_blossom::dual_module_rtl::DualModuleRTL;
use micro_blossom::dual_module_rtl::DualNode;
use micro_blossom::dual_module_rtl::DualNodeClass;
use micro_blossom::dual_module_rtl::DualNodeGrowState;
use micro_blossom::dual_module_rtl::Instruction;
use micro_blossom::dual_module_rtl::MaxUpdateLength;
use micro_blossom::dual_module_rtl::Response;
use micro_blossom::dual_module_rtl::SolverInitializer;

/// The dual module behind the dual module interface of fusion-blossom.
struct Driven {
    dual_module: DualModuleRTL,
    nodes: Vec<DualNodePtr>,
    sync_requests: Vec<SyncRequest>,
}

fn plain_initializer(initializer: &InterfaceInitializer) -> SolverInitializer {
    SolverInitializer {
        vertex_num: initializer.vertex_num,
        weighted_edges: initializer.weighted_edges.clone(),
        virtual_vertices: initializer.virtual_vertices.clone(),
    }
}

fn plain_grow_state(grow_state: InterfaceGrowState) -> DualNodeGrowState {
    match grow_state {
        InterfaceGrowState::Grow => DualNodeGrowState::Grow,
        InterfaceGrowState::Stay => DualNodeGrowState::Stay,
        InterfaceGrowState::Shrink => DualNodeGrowState::Shrink,
    }
}

fn plain_node(dual_node_ptr: &DualNodePtr) -> DualNode {
    let node = dual_node_ptr.read_recursive();
    let class = match &node.class {
        InterfaceNodeClass::Blossom { nodes_circle, .. } => DualNodeClass::Blossom {
            nodes_circle: nodes_circle
                .iter()
                .map(|weak_ptr| weak_ptr.upgrade_force().read_recursive().index)
                .collect(),
        },
        InterfaceNodeClass::DefectVertex { defect_index } => DualNodeClass::DefectVertex {
            defect_index: *defect_index,
        },
    };
    DualNode { index: node.index, class }
}

impl Driven {
    fn run(&mut self, instruction: Instruction) -> Option<Response> {
        self.dual_module
            .try_execute_instruction(instruction)
            .expect("the pipeline turned the instruction down")
    }
}

impl DualModuleImpl for Driven {
    fn new_empty(initializer: &InterfaceInitializer) -> Self {
        Driven {
            dual_module: DualModuleRTL::new_empty(&plain_initializer(initializer)),
            nodes: vec![],
            sync_requests: vec![],
        }
    }

    fn clear(&mut self) {
        self.dual_module.clear();
        self.nodes.clear();
    }

    fn add_dual_node(&mut self, dual_node_ptr: &DualNodePtr) {
        let node = plain_node(dual_node_ptr);
        assert_eq!(node.index, self.nodes.len());
        if let DualNodeClass::DefectVertex { defect_index } = &node.class {
            assert!(!self.dual_module.vertices[*defect_index].is_defect, "cannot set defect twice");
        }
        self.nodes.push(dual_node_ptr.clone());
        self.dual_module.add_dual_node(&node);
    }

    fn remove_blossom(&mut self, dual_node_ptr: DualNodePtr) {
        let node = plain_node(&dual_node_ptr);
        assert!(matches!(node.class, DualNodeClass::Blossom { .. }));
        self.dual_module.remove_blossom(&node);
    }

    fn set_grow_state(&mut self, dual_node_ptr: &DualNodePtr, grow_state: InterfaceGrowState) {
        let node_index = dual_node_ptr.read_recursive().index;
        self.dual_module.set_grow_state(node_index, plain_grow_state(grow_state));
    }

    fn compute_maximum_update_length(&mut self) -> GroupMaxUpdateLength {
        let response = self.run(Instruction::FindObstacle { region_preference: 0 });
        let mut group_max_update_length = GroupMaxUpdateLength::new();
        if let Some(response) = response {
            let max_update_length = match MaxUpdateLength::from_response(response) {
                MaxUpdateLength::NonZeroGrow(length) => InterfaceMaxUpdateLength::NonZeroGrow(length),
                MaxUpdateLength::Conflicting((node_1, touch_1), (node_2, touch_2)) => {
                    InterfaceMaxUpdateLength::Conflicting(
                        (self.nodes[node_1].clone(), self.nodes[touch_1].clone()),
                        (self.nodes[node_2].clone(), self.nodes[touch_2].clone()),
                    )
                }
                MaxUpdateLength::TouchingVirtual((node, touch), virtual_vertex) => {
                    InterfaceMaxUpdateLength::TouchingVirtual(
                        (self.nodes[node].clone(), self.nodes[touch].clone()),
                        virtual_vertex,
                    )
                }
                MaxUpdateLength::BlossomNeedExpand(blossom) => {
                    InterfaceMaxUpdateLength::BlossomNeedExpand(self.nodes[blossom].clone())
                }
            };
            group_max_update_length.add(max_update_length);
        }
        group_max_update_length
    }

    fn grow(&mut self, length: InterfaceWeight) {
        assert!(length > 0, "RTL design doesn't allow negative growth");
        self.run(Instruction::Grow { length });
    }

    fn prepare_nodes_shrink(&mut self, _nodes_circle: &[DualNodePtr]) -> &mut Vec<SyncRequest> {
        self.sync_requests.clear();
        &mut self.sync_requests
    }
}

fn insert_number(value: &mut serde_json::Value, key: &str, number: i64) {
    value
        .as_object_mut()
        .unwrap()
        .insert(key.to_string(), serde_json::Value::from(number));
}

impl FusionVisualizer for Driven {
    fn snapshot(&self, abbrev: bool) -> serde_json::Value {
        let mut vertices: Vec<serde_json::Value> = vec![];
        for vertex in self.dual_module.vertices.iter() {
            let mut value = serde_json::Value::Object(serde_json::Map::new());
            insert_number(&mut value, if abbrev { "v" } else { "is_virtual" }, i64::from(vertex.is_virtual));
            insert_number(&mut value, if abbrev { "s" } else { "is_defect" }, i64::from(vertex.is_defect));
            if let Some(node_index) = vertex.node_index {
                insert_number(
                    &mut value,
                    if abbrev { "p" } else { "propagated_dual_node" },
                    node_index as i64,
                );
            }
            if let Some(root_index) = vertex.root_index {
                insert_number(
                    &mut value,
                    if abbrev { "pg" } else { "propagated_grandson_dual_node" },
                    root_index as i64,
                );
            }
            vertices.push(value);
        }
        let mut edges: Vec<serde_json::Value> = vec![];
        for edge in self.dual_module.edges.iter() {
            let mut value = serde_json::Value::Object(serde_json::Map::new());
            insert_number(&mut value, if abbrev { "w" } else { "weight" }, edge.weight as i64);
            insert_number(&mut value, if abbrev { "l" } else { "left" }, edge.left_index as i64);
            insert_number(&mut value, if abbrev { "r" } else { "right" }, edge.right_index as i64);
            insert_number(&mut value, if abbrev { "lg" } else { "left_growth" }, edge.left_growth as i64);
            insert_number(&mut value, if abbrev { "rg" } else { "right_growth" }, edge.right_growth as i64);
            let left_vertex = &self.dual_module.vertices[edge.left_index];
            let right_vertex = &self.dual_module.vertices[edge.right_index];
            if let Some(node_index) = left_vertex.node_index {
                insert_number(&mut value, if abbrev { "ld" } else { "left_dual_node" }, node_index as i64);
            }
            if let Some(root_index) = left_vertex.root_index {
                insert_number(
                    &mut value,
                    if abbrev { "lgd" } else { "left_grandson_dual_node" },
                    root_index as i64,
                );
            }
            if let Some(node_index) = right_vertex.node_index {
                insert_number(&mut value, if abbrev { "rd" } else { "right_dual_node" }, node_index as i64);
            }
            if let Some(root_index) = right_vertex.root_index {
                insert_number(
                    &mut value,
                    if abbrev { "rgd" } else { "right_grandson_dual_node" },
                    root_index as i64,
                );
            }
            edges.push(value);
        }
        let mut snapshot = serde_json::Map::new();
        snapshot.insert("vertices".to_string(), serde_json::Value::Array(vertices));
        snapshot.insert("edges".to_string(), serde_json::Value::Array(edges));
        serde_json::Value::Object(snapshot)
    }
}

fn grown_of(dual_module: &Driven, vertex: usize) -> isize {
    dual_module.dual_module.vertices[vertex].grown
}

fn feasible(dual_module: &DualModuleRTL) -> bool {
    dual_module.vertices.iter().all(|vertex| vertex.grown >= 0)
        && dual_module.edges.iter().all(|edge| {
            edge.left_growth >= 0
                && edge.right_growth >= 0
                && edge.left_growth + edge.right_growth <= edge.weight
        })
}

#[test]
fn dual_module_rtl_basic_1() {
    let visualize_filename = "dual_module_rtl_basic_1.json".to_string();
    let half_weight = 500;
    let mut code = CodeCapacityPlanarCode::new(7, 0.1, half_weight);
    let mut visualizer = Visualizer::new(None, code.get_positions(), true).unwrap();
    print_visualize_link(visualize_filename.clone());
    // create dual module
    let initializer = code.get_initializer();
    let mut dual_module = Driven::new_empty(&initializer);
    // a simple syndrome
    code.vertices[19].is_defect = true;
    code.vertices[25].is_defect = true;
    let interface_ptr = DualModuleInterfacePtr::new_load(&code.get_syndrome(), &mut dual_module);
    visualizer
        .snapshot_combined("syndrome".to_string(), vec![&interface_ptr, &dual_module])
        .unwrap();
    // create dual nodes and grow them by half length
    let dual_node_19_ptr = interface_ptr.read_recursive().nodes[0].clone().unwrap();
    let dual_node_25_ptr = interface_ptr.read_recursive().nodes[1].clone().unwrap();
    dual_module.grow(half_weight);
    visualizer
        .snapshot_combined("grow to 0.5".to_string(), vec![&interface_ptr, &dual_module])
        .unwrap();
    assert_eq!(grown_of(&dual_module, 19), 500);
    dual_module.grow(half_weight);
    visualizer
        .snapshot_combined("grow to 1".to_string(), vec![&interface_ptr, &dual_module])
        .unwrap();
    assert_eq!(grown_of(&dual_module, 19), 1000);
    // the neighbours of both defects have been taken over
    assert_eq!(dual_module.dual_module.vertices[18].node_index, Some(0));
    assert_eq!(dual_module.dual_module.vertices[26].node_index, Some(1));
    dual_module.grow(half_weight);
    visualizer
        .snapshot_combined("grow to 1.5".to_string(), vec![&interface_ptr, &dual_module])
        .unwrap();
    assert_eq!(grown_of(&dual_module, 19), 1500);
    assert_eq!(grown_of(&dual_module, 25), 1500);
    assert_eq!(grown_of(&dual_module, 18), 500);
    assert!(feasible(&dual_module.dual_module));
    // set to shrink
    dual_module.set_grow_state(&dual_node_19_ptr, InterfaceGrowState::Shrink);
    dual_module.set_grow_state(&dual_node_25_ptr, InterfaceGrowState::Shrink);
    dual_module.grow(half_weight);
    visualizer
        .snapshot_combined("shrink to 1".to_string(), vec![&interface_ptr, &dual_module])
        .unwrap();
    assert_eq!(grown_of(&dual_module, 19), 1000);
    assert_eq!(dual_module.dual_module.vertices[18].node_index, None);
    dual_module.grow(half_weight);
    visualizer
        .snapshot_combined("shrink to 0.5".to_string(), vec![&interface_ptr, &dual_module])
        .unwrap();
    dual_module.grow(half_weight);
    visualizer
        .snapshot_combined("shrink to 0".to_string(), vec![&interface_ptr, &dual_module])
        .unwrap();
    assert_eq!(grown_of(&dual_module, 19), 0);
    assert_eq!(grown_of(&dual_module, 25), 0);
    assert!(feasible(&dual_module.dual_module));
    assert!(dual_module
        .dual_module
        .edges
        .iter()
        .all(|edge| edge.left_growth == 0 && edge.right_growth == 0));
}

#[test]
fn dual_module_rtl_blossom_basics() {
    let visualize_filename = "dual_module_rtl_blossom_basics.json".to_string();
    let half_weight = 500;
    let mut code = CodeCapacityPlanarCode::new(7, 0.1, half_weight);
    let mut visualizer = Visualizer::new(None, code.get_positions(), true).unwrap();
    print_visualize_link(visualize_filename.clone());
    // create dual module
    let initializer = code.get_initializer();
    let mut dual_module = Driven::new_empty(&initializer);
    // try to work on a simple syndrome
    code.vertices[19].is_defect = true;
    code.vertices[26].is_defect = true;
    code.vertices[35].is_defect = true;
    let interface_ptr = DualModuleInterfacePtr::new_load(&code.get_syndrome(), &mut dual_module);
    visualizer
        .snapshot_combined("syndrome".to_string(), vec![&interface_ptr, &dual_module])
        .unwrap();
    // create dual nodes and grow them by half length
    let dual_node_19_ptr = interface_ptr.read_recursive().nodes[0].clone().unwrap();
    let dual_node_26_ptr = interface_ptr.read_recursive().nodes[1].clone().unwrap();
    let dual_node_35_ptr = interface_ptr.read_recursive().nodes[2].clone().unwrap();
    interface_ptr.grow(2 * half_weight, &mut dual_module);
    assert_eq!(interface_ptr.sum_dual_variables(), 6 * half_weight);
    visualizer
        .snapshot_combined("before create blossom".to_string(), vec![&interface_ptr, &dual_module])
        .unwrap();
    let nodes_circle = vec![dual_node_19_ptr.clone(), dual_node_26_ptr.clone(), dual_node_35_ptr.clone()];
    interface_ptr.set_grow_state(&dual_node_26_ptr, InterfaceGrowState::Shrink, &mut dual_module);
    let dual_node_blossom = interface_ptr.create_blossom(nodes_circle, vec![], &mut dual_module);
    // every vertex of the three nodes now belongs to the blossom and grows
    assert_eq!(dual_module.dual_module.vertices[19].node_index, Some(3));
    assert_eq!(dual_module.dual_module.vertices[19].root_index, Some(0));
    assert_eq!(dual_module.dual_module.vertices[26].node_index, Some(3));
    assert_eq!(dual_module.dual_module.vertices[26].speed, DualNodeGrowState::Grow);
    interface_ptr.grow(half_weight, &mut dual_module);
    assert_eq!(interface_ptr.sum_dual_variables(), 7 * half_weight);
    visualizer
        .snapshot_combined("blossom grow half weight".to_string(), vec![&interface_ptr, &dual_module])
        .unwrap();
    interface_ptr.grow(half_weight, &mut dual_module);
    assert_eq!(interface_ptr.sum_dual_variables(), 8 * half_weight);
    visualizer
        .snapshot_combined("blossom grow half weight".to_string(), vec![&interface_ptr, &dual_module])
        .unwrap();
    interface_ptr.grow(half_weight, &mut dual_module);
    assert_eq!(interface_ptr.sum_dual_variables(), 9 * half_weight);
    visualizer
        .snapshot_combined("blossom grow half weight".to_string(), vec![&interface_ptr, &dual_module])
        .unwrap();
    assert_eq!(grown_of(&dual_module, 19), 5 * half_weight);
    assert!(feasible(&dual_module.dual_module));
    interface_ptr.set_grow_state(&dual_node_blossom, InterfaceGrowState::Shrink, &mut dual_module);
    interface_ptr.grow(half_weight, &mut dual_module);
    assert_eq!(interface_ptr.sum_dual_variables(), 8 * half_weight);
    visualizer
        .snapshot_combined("blossom shrink half weight".to_string(), vec![&interface_ptr, &dual_module])
        .unwrap();
    interface_ptr.grow(2 * half_weight, &mut dual_module);
    assert_eq!(interface_ptr.sum_dual_variables(), 6 * half_weight);
    visualizer
        .snapshot_combined("blossom shrink weight".to_string(), vec![&interface_ptr, &dual_module])
        .unwrap();
    interface_ptr.expand_blossom(dual_node_blossom, &mut dual_module);
    // each defect has its vertex back
    assert_eq!(dual_module.dual_module.vertices[19].node_index, Some(0));
    assert_eq!(dual_module.dual_module.vertices[26].node_index, Some(1));
    assert_eq!(dual_module.dual_module.vertices[35].node_index, Some(2));
    interface_ptr.set_grow_state(&dual_node_19_ptr, InterfaceGrowState::Shrink, &mut dual_module);
    interface_ptr.set_grow_state(&dual_node_26_ptr, InterfaceGrowState::Shrink, &mut dual_module);
    interface_ptr.set_grow_state(&dual_node_35_ptr, InterfaceGrowState::Shrink, &mut dual_module);
    interface_ptr.grow(half_weight, &mut dual_module);
    assert_eq!(interface_ptr.sum_dual_variables(), 3 * half_weight);
    visualizer
        .snapshot_combined(
            "individual shrink half weight".to_string(),
            vec![&interface_ptr, &dual_module],
        )
        .unwrap();
    assert_eq!(grown_of(&dual_module, 19), half_weight);
    assert!(feasible(&dual_module.dual_module));
}
