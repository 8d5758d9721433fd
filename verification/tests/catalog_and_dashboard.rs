//! Library paths, dashboard helpers and borrowed resolver answers.

use indexmap::IndexMap;
use rustylink::connection_targets::resolver::ConnectionTargetResolver;
use rustylink::connection_targets::ConnectionTargetOrigin;
use rustylink::dashboard::{
    checkbox_label, combo_box_label, dashboard_control_storage_key, is_dashboard_debug_property,
    option_labels,
};
use rustylink::library_paths::normalize_library_block_path;
use rustylink::model::{Block, EndpointRef, Line, System};

fn block(name: &str, sid: Option<&str>, props: &[(&str, &str)]) -> Block {
    let mut properties = IndexMap::new();
    for (k, v) in props {
        properties.insert(k.to_string(), v.to_string());
    }
    Block {
        block_type: "Constant".to_string(),
        name: name.to_string(),
        sid: sid.map(str::to_string),
        commented: false,
        value: None,
        properties,
        port_counts: None,
        ports: Vec::new(),
        subsystem: None,
        mask: None,
        mask_display_text: None,
        current_setting: None,
        block_mirror: None,
        dashboard_binding: None,
    }
}

#[test]
fn library_paths_are_keyed_like_the_catalog() {
    assert_eq!(
        normalize_library_block_path(" matrix_library.slx/Compare\nTo Constant "),
        Some("matrix_library/Compare To Constant".to_string())
    );
    assert_eq!(normalize_library_block_path("lib.SLX\\Block"), Some("lib/Block".to_string()));
    assert_eq!(normalize_library_block_path("simulink/Sources/Constant"), Some("simulink/Sources/Constant".to_string()));
    assert_eq!(normalize_library_block_path("Gain"), Some("Gain".to_string()));
    assert_eq!(normalize_library_block_path("   "), None);
}

#[test]
fn dashboard_debug_properties_and_labels() {
    assert!(is_dashboard_debug_property("BindingUUID"));
    assert!(is_dashboard_debug_property("SID"));
    assert!(is_dashboard_debug_property("PrefValue"));
    assert!(!is_dashboard_debug_property("Position"));
    assert!(!is_dashboard_debug_property("sids"));
    assert_eq!(checkbox_label(&block("C", Some("1"), &[("Text", "On?")])), "On?");
    assert_eq!(checkbox_label(&block("C", Some("1"), &[("Label", "L"), ("Text", "T")])), "L");
    assert_eq!(checkbox_label(&block("C", Some("1"), &[])), "Label");
    assert_eq!(dashboard_control_storage_key(&block("C", Some("7"), &[])), "7");
    assert_eq!(dashboard_control_storage_key(&block("C", None, &[])), "C");
}

#[test]
fn borrowed_answers_match_copied_ones() {
    let line = Line {
        name: Some("sig".to_string()),
        src: Some(EndpointRef { sid: "1".to_string(), port_type: "out".to_string(), port_index: 1 }),
        dst: Some(EndpointRef { sid: "2".to_string(), port_type: "in".to_string(), port_index: 1 }),
        points: Vec::new(),
        branches: Vec::new(),
        properties: IndexMap::new(),
    };
    let system = System {
        properties: IndexMap::from_iter([("Name".to_string(), "m".to_string())]),
        blocks: vec![block("A", Some("1"), &[]), block("B", Some("2"), &[])],
        lines: vec![line.clone()],
    };
    let resolver = ConnectionTargetResolver::new(&system);
    let copied = resolver.line_targets_for_line(&[], &line);
    let borrowed = resolver.line_targets_for_line_ref(&[], &line);
    assert_eq!(copied.as_slice(), borrowed);
    assert_eq!(copied.len(), 1);
    assert_eq!(copied[0].path, "m/A");
    let block_targets = resolver.block_targets_for_block_ref(&[], &system.blocks[1]);
    assert_eq!(block_targets[0].path, "m/B");
    assert_eq!(block_targets[0].origin, ConnectionTargetOrigin::SelfBlock);
    assert!(block_targets.iter().any(|t| t.path == "m/A" && t.signal_name.as_deref() == Some("sig")));
    let missing = block("Z", Some("99"), &[]);
    assert!(resolver.block_targets_for_block_ref(&[], &missing).is_empty());
}

#[test]
fn option_labels_come_from_values_entries() {
    let b = block("Combo", Some("1"), &[("Values", "Low:0, Mid : 1;\n High ;;  ")]);
    assert_eq!(option_labels(&b), vec!["Low".to_string(), "Mid".to_string(), "High".to_string()]);
    assert_eq!(combo_box_label(&b, 1), "Mid");
    assert_eq!(combo_box_label(&b, 4), "Label 5");
    let plain = block("Combo", Some("2"), &[]);
    assert_eq!(option_labels(&plain), vec!["Label 1".to_string(), "Label 2".to_string(), "Label 3".to_string()]);
    let colons = block("Combo", Some("3"), &[("Values", "a:b:2")]);
    assert_eq!(option_labels(&colons), vec!["a:b".to_string()]);
}
