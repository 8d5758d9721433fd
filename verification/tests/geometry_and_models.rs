//! Corner operations, line adjacency, block parameters and model helpers on
//! concrete values.

use indexmap::IndexMap;
use rustylink::block_code::{get_block_code, set_block_code};
use rustylink::connection_targets::graph::{boundary_port_index, qualify_external_path};
use rustylink::connection_targets::metadata::{normalize_resolve_signal, signal_keys_match};
use rustylink::connection_targets::resolver::{count_subsystems, max_subsystem_depth, try_count_subsystems};
use rustylink::corner_ops::{
    auto_adjust_branches_on_block_move, auto_adjust_on_block_move, enforce_orthogonal,
    insert_corner, merge_adjacent_corners, remove_corner,
};
use rustylink::labels::{port_label_display_name, BlockTypeConfig};
use rustylink::line_coloring::compute_line_adjacency;
use rustylink::math_inputs::{parse_input_operators, parse_sum_slots};
use rustylink::model::{Block, Branch, EndpointRef, Line, Point, System};
use rustylink::signal_routing::{get_blocks, goto_tag_label, is_simulink_signal_routing_name, BlockShape};
use rustylink::signature::model_topology_signature;
use rustylink::variants::{
    active_variant_child_sid, active_variant_port_index, is_variant_system, SimCodegenMode,
};

fn p(x: i32, y: i32) -> Point {
    Point { x, y }
}

fn block(block_type: &str, name: &str, sid: &str, props: &[(&str, &str)]) -> Block {
    let mut properties = IndexMap::new();
    for (k, v) in props {
        properties.insert(k.to_string(), v.to_string());
    }
    Block {
        block_type: block_type.to_string(),
        name: name.to_string(),
        sid: Some(sid.to_string()),
        commented: false,
        value: None,
        properties,
        port_counts: None,
        ports: Vec::new(),
        subsystem: None,
        mask: None,
        mask_display_text: None,
        current_setting: None,
        block_mirror: None,
        dashboard_binding: None,
    }
}

fn endpoint(sid: &str, port_type: &str, port_index: u32) -> Option<EndpointRef> {
    Some(EndpointRef { sid: sid.to_string(), port_type: port_type.to_string(), port_index })
}

fn line(src: &str, dst: &str, points: Vec<Point>) -> Line {
    Line {
        name: None,
        src: endpoint(src, "out", 1),
        dst: endpoint(dst, "in", 1),
        points,
        branches: Vec::new(),
        properties: IndexMap::new(),
    }
}

fn system(blocks: Vec<Block>, lines: Vec<Line>) -> System {
    System { properties: IndexMap::new(), blocks, lines }
}

#[test]
fn insert_corner_keeps_downstream_positions() {
    let mut pts = vec![p(10, 0), p(0, 20)];
    insert_corner(&mut pts, 1, p(3, 4));
    assert_eq!(pts, vec![p(10, 0), p(3, 4), p(-3, 16)]);
    insert_corner(&mut pts, 3, p(1, 1));
    assert_eq!(pts, vec![p(10, 0), p(3, 4), p(-3, 16), p(1, 1)]);
    insert_corner(&mut pts, 9, p(5, 5));
    assert_eq!(pts.len(), 4);
}

#[test]
fn remove_corner_undoes_insert() {
    let before = vec![p(10, 0), p(0, 20), p(5, 5)];
    let mut pts = before.clone();
    insert_corner(&mut pts, 1, p(3, 4));
    assert_eq!(remove_corner(&mut pts, 1), Some(p(3, 4)));
    assert_eq!(pts, before);
    assert_eq!(remove_corner(&mut pts, 3), None);
    assert_eq!(remove_corner(&mut pts, 2), Some(p(5, 5)));
    assert_eq!(pts, vec![p(10, 0), p(0, 20)]);
}

#[test]
fn merge_adjacent_corners_absorbs_short_offsets() {
    let mut pts = vec![p(1, 0), p(0, 1), p(10, 0), p(2, 0)];
    merge_adjacent_corners(&mut pts, 2);
    assert_eq!(pts, vec![p(11, 1), p(2, 0)]);
    let again = pts.clone();
    merge_adjacent_corners(&mut pts, 2);
    assert_eq!(pts, again);
}

#[test]
fn enforce_orthogonal_zeroes_smaller_axis() {
    let mut pts = vec![p(5, 3), p(-2, 7), p(4, 0), p(3, -3)];
    enforce_orthogonal(&mut pts);
    assert_eq!(pts, vec![p(5, 0), p(0, 7), p(4, 0), p(3, 0)]);
}

#[test]
fn block_move_adjusts_first_or_last_corner() {
    let mut l = line("1", "2", vec![p(10, 0), p(0, 10)]);
    auto_adjust_on_block_move(&mut l, true, 3, 4);
    assert_eq!(l.points, vec![p(7, -4), p(0, 10)]);
    auto_adjust_on_block_move(&mut l, false, 1, 1);
    assert_eq!(l.points, vec![p(7, -4), p(1, 11)]);
    let mut empty = line("1", "2", Vec::new());
    auto_adjust_on_block_move(&mut empty, true, 2, 0);
    assert_eq!(empty.points, vec![p(-2, 0)]);
    let mut still = line("1", "2", Vec::new());
    auto_adjust_on_block_move(&mut still, false, 0, 0);
    assert!(still.points.is_empty());
}

#[test]
fn branch_ends_follow_moved_block() {
    let inner = Branch { name: None, dst: endpoint("7", "in", 1), points: Vec::new(), branches: Vec::new() };
    let outer = Branch { name: None, dst: endpoint("7", "in", 2), points: vec![p(5, 5)], branches: vec![inner] };
    let other = Branch { name: None, dst: endpoint("8", "in", 1), points: vec![p(1, 1)], branches: Vec::new() };
    let mut branches = vec![outer, other];
    auto_adjust_branches_on_block_move(&mut branches, "7", 2, 3);
    assert_eq!(branches[0].points, vec![p(7, 8)]);
    assert_eq!(branches[0].branches[0].points, vec![p(2, 3)]);
    assert_eq!(branches[1].points, vec![p(1, 1)]);
}

#[test]
fn adjacency_links_lines_sharing_blocks() {
    let lines = vec![line("1", "2", Vec::new()), line("2", "3", Vec::new()), line("4", "5", Vec::new()), line("6", "6", Vec::new())];
    let adj = compute_line_adjacency(&lines);
    assert_eq!(adj.len(), 4);
    assert_eq!(adj[0], vec![1]);
    assert_eq!(adj[1], vec![0]);
    assert!(adj[2].is_empty());
    assert!(adj[3].is_empty());
}

#[test]
fn input_operators_follow_inputs_parameter() {
    assert_eq!(parse_input_operators("  ", '+'), vec!['+', '+']);
    assert_eq!(parse_input_operators("3", '*'), vec!['*', '*', '*']);
    assert_eq!(parse_input_operators("0", '+'), vec!['+']);
    assert_eq!(parse_input_operators("|+-", '+'), vec!['+', '-']);
    assert_eq!(parse_input_operators("*/", '+'), vec!['*', '/']);
    assert_eq!(parse_input_operators("abc", '+'), vec!['+', '+']);
    assert_eq!(parse_sum_slots("|+-"), vec![None, Some('+'), Some('-')]);
    assert_eq!(parse_sum_slots("2"), vec![Some('+'), Some('+')]);
    assert_eq!(parse_sum_slots(""), vec![Some('+'), Some('+')]);
    assert_eq!(parse_sum_slots("+ -"), vec![Some('+'), Some('-')]);
    assert_eq!(parse_sum_slots("|* |/"), vec![None, Some('*'), None, Some('/')]);
    assert_eq!(parse_sum_slots("abc"), vec![Some('+'), Some('+')]);
}

#[test]
fn block_code_goes_to_first_code_property() {
    let mut b = block("CFunction", "C", "1", &[("Code", "x = 1;")]);
    assert_eq!(get_block_code(&b), "x = 1;");
    set_block_code(&mut b, "y = 2;");
    assert_eq!(get_block_code(&b), "y = 2;");
    assert_eq!(b.properties.get("Code").map(String::as_str), Some("y = 2;"));
    let mut plain = block("Gain", "G", "2", &[]);
    assert_eq!(get_block_code(&plain), "");
    set_block_code(&mut plain, "z");
    assert_eq!(plain.properties.get("Script").map(String::as_str), Some("z"));
}

#[test]
fn signal_routing_library_names() {
    assert!(is_simulink_signal_routing_name(" Simulink\\Signal Routing "));
    assert!(is_simulink_signal_routing_name("simulink/signal routing/Goto"));
    assert!(!is_simulink_signal_routing_name("simulink/signal routingx"));
    let blocks = get_blocks();
    assert_eq!(blocks.len(), 4);
    assert_eq!(blocks[2].name, "Goto");
    assert_eq!(blocks[3].shape, BlockShape::From);
    assert_eq!(goto_tag_label(&block("Goto", "G", "1", &[("GotoTag", " X ")])), Some("X".to_string()));
    assert_eq!(goto_tag_label(&block("Goto", "G", "1", &[])), Some("A".to_string()));
}

#[test]
fn variant_port_and_child_selection() {
    let b = block("VariantSource", "V", "1", &[("VariantControls", "false; true ;false")]);
    assert_eq!(active_variant_port_index(&b), Some(2));
    let two = block("VariantSource", "V", "1", &[("VariantControls", "true;true")]);
    assert_eq!(active_variant_port_index(&two), None);
    assert_eq!(active_variant_port_index(&block("VariantSource", "V", "1", &[])), None);

    let children = system(
        vec![
            block("SubSystem", "A", "10", &[("VariantControl", "(sim)")]),
            block("SubSystem", "B", "11", &[("VariantControl", "(codegen)")]),
        ],
        Vec::new(),
    );
    assert!(is_variant_system(&children));
    let parent = block("SubSystem", "P", "9", &[("VariantControlMode", "sim codegen switching")]);
    assert_eq!(active_variant_child_sid(&children, Some(&parent), SimCodegenMode::Sim), Some("10".to_string()));
    assert_eq!(active_variant_child_sid(&children, Some(&parent), SimCodegenMode::Codegen), Some("11".to_string()));
    let label_parent = block("SubSystem", "P", "9", &[("VariantControlMode", "label"), ("LabelModeActiveChoice", "(codegen)")]);
    assert_eq!(active_variant_child_sid(&children, Some(&label_parent), SimCodegenMode::Sim), Some("11".to_string()));
    assert_eq!(active_variant_child_sid(&children, None, SimCodegenMode::Sim), None);
}

#[test]
fn port_labels_prefer_boundary_block_names() {
    let mut sub = block("SubSystem", "S", "1", &[]);
    sub.subsystem = Some(Box::new(system(
        vec![block("Inport", "  speed ", "2", &[("Port", "1")]), block("Outport", "", "3", &[("Port", "1"), ("Name", "out name")])],
        Vec::new(),
    )));
    let cfg = BlockTypeConfig { input_port_names: vec!["u".to_string()], output_port_names: Vec::new() };
    assert_eq!(port_label_display_name(&sub, 1, true, &cfg), "speed");
    assert_eq!(port_label_display_name(&sub, 1, false, &cfg), "out name");
    assert_eq!(port_label_display_name(&sub, 2, false, &cfg), "Out2");
    let gain = block("Gain", "G", "4", &[]);
    assert_eq!(port_label_display_name(&gain, 1, true, &cfg), "u");
    assert_eq!(port_label_display_name(&gain, 12, true, &cfg), "In12");
}

#[test]
fn subsystem_counts_and_depth() {
    let mut inner = block("SubSystem", "I", "2", &[]);
    inner.subsystem = Some(Box::new(system(Vec::new(), Vec::new())));
    let mut outer = block("SubSystem", "O", "1", &[]);
    outer.subsystem = Some(Box::new(system(vec![inner], Vec::new())));
    let root = system(vec![outer, block("Gain", "G", "3", &[])], Vec::new());
    assert_eq!(count_subsystems(&root), 3);
    assert_eq!(max_subsystem_depth(&root), 3);
    assert_eq!(max_subsystem_depth(&system(Vec::new(), Vec::new())), 1);
    assert_eq!(try_count_subsystems(&root), Some(3));
    assert_eq!(try_count_subsystems(&system(Vec::new(), Vec::new())), Some(1));
}

#[test]
fn topology_signature_ignores_geometry() {
    let a = system(vec![block("Gain", "G", "1", &[("Position", "[0, 0, 10, 10]")])], vec![line("1", "1", vec![p(1, 2)])]);
    let b = system(vec![block("Gain", "G", "1", &[("Position", "[5, 5, 20, 20]")])], vec![line("1", "1", vec![p(9, 9), p(3, 3)])]);
    let c = system(vec![block("Gain", "H", "1", &[])], vec![line("1", "1", Vec::new())]);
    assert_eq!(model_topology_signature(&a), model_topology_signature(&b));
    assert_ne!(model_topology_signature(&a), model_topology_signature(&c));
}

#[test]
fn names_and_paths_are_normalised() {
    assert_eq!(normalize_resolve_signal(" <a  b> "), Some("a b".to_string()));
    assert_eq!(normalize_resolve_signal("<>"), None);
    assert!(signal_keys_match("<Alpha>", "alpha"));
    assert!(!signal_keys_match("alpha", "beta"));
    assert_eq!(qualify_external_path("model", "/Sub//Block/"), "model/Sub/Block");
    assert_eq!(qualify_external_path("model", "model/X"), "model/X");
    assert_eq!(qualify_external_path("", "X"), "X");
    assert_eq!(boundary_port_index(&block("Inport", "I", "1", &[("PortNumber", " 3 ")])), 3);
    assert_eq!(boundary_port_index(&block("Inport", "I", "1", &[("Port", "x")])), 1);
}

#[test]
fn topology_signature_sees_other_properties() {
    let a = system(vec![block("Gain", "G", "1", &[("Gain", "2")])], Vec::new());
    let b = system(vec![block("Gain", "G", "1", &[("Gain", "3")])], Vec::new());
    assert_ne!(model_topology_signature(&a), model_topology_signature(&b));
}

#[test]
fn cloned_models_keep_their_data() {
    let mut sub = block("SubSystem", "S", "1", &[("Tag", "x")]);
    sub.subsystem = Some(Box::new(system(vec![block("Inport", "In1", "2", &[("Port", "1")])], vec![line("2", "2", vec![p(1, 1)])])));
    let copy = sub.clone();
    assert_eq!(copy.properties.get("Tag").map(String::as_str), Some("x"));
    let inner = copy.subsystem.as_ref().unwrap();
    assert_eq!(inner.blocks[0].properties.get("Port").map(String::as_str), Some("1"));
    assert_eq!(inner.lines[0].points, vec![p(1, 1)]);
    assert_eq!(model_topology_signature(inner), model_topology_signature(sub.subsystem.as_ref().unwrap()));
}

#[test]
fn topology_signature_ignores_layout_in_nested_systems() {
    let nested = |pos: &str, pts: Vec<Point>, branch_pts: Vec<Point>| {
        let mut wire = line("2", "3", pts);
        wire.branches.push(Branch { name: None, dst: endpoint("4", "in", 1), points: branch_pts, branches: Vec::new() });
        let inner = system(
            vec![block("Inport", "In1", "2", &[("Position", pos), ("Port", "1")]), block("Gain", "G", "3", &[])],
            vec![wire],
        );
        let mut sub = block("SubSystem", "S", "1", &[("ZOrder", pos)]);
        sub.subsystem = Some(Box::new(inner));
        system(vec![sub], Vec::new())
    };
    let a = nested("[0, 0, 5, 5]", vec![p(1, 0)], vec![p(0, 3)]);
    let b = nested("[40, 40, 45, 45]", vec![p(2, 2), p(7, 0)], Vec::new());
    assert_eq!(model_topology_signature(&a), model_topology_signature(&b));
}
