//! The topology signature computed the way the viewer's own hashing walk
//! computes it, with std's `Hash` impls feeding a `DefaultHasher`.

use indexmap::IndexMap;
use rustylink::model::{Block, Branch, EndpointRef, Line, Point, Port, PortCounts, System};
use rustylink::signature::model_topology_signature;
use std::collections::hash_map::DefaultHasher;
use std::hash::{Hash, Hasher};

const GEOMETRY_PROPERTY_KEYS: &[&str] = &["Position", "ZOrder", "Points", "SortIndex"];

fn walk_system(sys: &System, h: &mut DefaultHasher) {
    if let Some(name) = sys.properties.get("Name") {
        name.hash(h);
    }
    sys.blocks.len().hash(h);
    for block in &sys.blocks {
        walk_block(block, h);
    }
    sys.lines.len().hash(h);
    for line in &sys.lines {
        walk_line(line, h);
    }
}

fn walk_properties(properties: &IndexMap<String, String>, h: &mut DefaultHasher) {
    for (key, value) in properties {
        if GEOMETRY_PROPERTY_KEYS.contains(&key.as_str()) {
            continue;
        }
        key.hash(h);
        value.hash(h);
    }
}

fn walk_block(block: &Block, h: &mut DefaultHasher) {
    block.block_type.hash(h);
    block.name.hash(h);
    block.sid.hash(h);
    block.commented.hash(h);
    block.value.hash(h);
    if let Some(pc) = &block.port_counts {
        pc.ins.hash(h);
        pc.outs.hash(h);
    }
    block.ports.len().hash(h);
    for port in &block.ports {
        port.port_type.hash(h);
        port.index.hash(h);
    }
    walk_properties(&block.properties, h);
    block.dashboard_binding.is_some().hash(h);
    if let Some(subsystem) = &block.subsystem {
        walk_system(subsystem, h);
    }
}

fn walk_endpoint(endpoint: &Option<EndpointRef>, h: &mut DefaultHasher) {
    match endpoint {
        Some(e) => {
            1u8.hash(h);
            e.sid.hash(h);
            e.port_type.hash(h);
            e.port_index.hash(h);
        }
        None => 0u8.hash(h),
    }
}

fn walk_branch(branch: &Branch, h: &mut DefaultHasher) {
    branch.name.hash(h);
    walk_endpoint(&branch.dst, h);
    branch.branches.len().hash(h);
    for child in &branch.branches {
        walk_branch(child, h);
    }
}

fn walk_line(line: &Line, h: &mut DefaultHasher) {
    line.name.hash(h);
    walk_endpoint(&line.src, h);
    walk_endpoint(&line.dst, h);
    line.branches.len().hash(h);
    for branch in &line.branches {
        walk_branch(branch, h);
    }
    walk_properties(&line.properties, h);
}

fn walked_signature(root: &System) -> u64 {
    let mut h = DefaultHasher::new();
    walk_system(root, &mut h);
    h.finish()
}

fn props(entries: &[(&str, &str)]) -> IndexMap<String, String> {
    entries.iter().map(|(k, v)| (k.to_string(), v.to_string())).collect()
}

fn block(block_type: &str, name: &str, sid: Option<&str>, properties: &[(&str, &str)]) -> Block {
    Block {
        block_type: block_type.to_string(),
        name: name.to_string(),
        sid: sid.map(str::to_string),
        commented: false,
        value: None,
        properties: props(properties),
        port_counts: None,
        ports: vec![
            Port { port_type: "in".to_string(), index: Some(1), properties: IndexMap::new() },
            Port { port_type: "out".to_string(), index: None, properties: IndexMap::new() },
        ],
        subsystem: None,
        mask: None,
        mask_display_text: None,
        current_setting: None,
        block_mirror: None,
        dashboard_binding: None,
    }
}

fn endpoint(sid: &str, port_type: &str, port_index: u32) -> Option<EndpointRef> {
    Some(EndpointRef { sid: sid.to_string(), port_type: port_type.to_string(), port_index })
}

#[test]
fn signature_equals_the_std_hash_walk() {
    let mut gain = block("Gain", "Gäin ✓ 增益", Some("2"), &[("Gain", "3"), ("Position", "[1, 2, 3, 4]")]);
    gain.commented = true;
    gain.value = Some("3.5".to_string());
    gain.port_counts = Some(PortCounts { ins: Some(1), outs: None });
    let inner = System {
        properties: props(&[("Name", "inner")]),
        blocks: vec![block("Inport", "In1", Some("4"), &[("Port", "1")])],
        lines: Vec::new(),
    };
    let mut sub = block("SubSystem", "Sub", None, &[("ZOrder", "7")]);
    sub.subsystem = Some(Box::new(inner));
    let wire = Line {
        name: Some("sig 😀".to_string()),
        src: endpoint("2", "out", 1),
        dst: None,
        points: vec![Point { x: 3, y: 4 }],
        branches: vec![Branch {
            name: None,
            dst: endpoint("4", "in", 2),
            points: Vec::new(),
            branches: vec![Branch { name: Some("b".to_string()), dst: None, points: Vec::new(), branches: Vec::new() }],
        }],
        properties: props(&[("TestPoint", "on"), ("Points", "[0, 0]")]),
    };
    let root = System {
        properties: props(&[("Name", "model")]),
        blocks: vec![gain, sub],
        lines: vec![wire],
    };
    assert_eq!(model_topology_signature(&root), walked_signature(&root));

    let empty = System { properties: IndexMap::new(), blocks: Vec::new(), lines: Vec::new() };
    assert_eq!(model_topology_signature(&empty), walked_signature(&empty));
}
