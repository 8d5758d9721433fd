//! Which blocks draw live text or mask text, and how resolved lines are
//! labelled.

use indexmap::IndexMap;
use rustylink::connection_targets::resolver::ConnectionTargetResolver;
use rustylink::connection_targets::{
    ConnectionTarget, ConnectionTargetOrigin, ConnectionTargetResolve,
};
use rustylink::line_style::{
    is_bus_line, is_mux_line, line_has_testpoint, resolved_line_label,
};
use rustylink::live_text::{
    branch_hits_sid, first_input_signal_name, scope_title_for_block, should_render_live_text,
    should_use_mask_display,
};
use rustylink::model::{Block, Branch, DashboardBinding, DashboardTargetPath, EndpointRef, Line, Mask, Port, System};

fn minimal_block(name: &str, sid: &str) -> Block {
    Block {
        block_type: "Constant".to_string(),
        name: name.to_string(),
        sid: Some(sid.to_string()),
        commented: false,
        value: None,
        properties: IndexMap::new(),
        port_counts: None,
        ports: Vec::new(),
        subsystem: None,
        mask: None,
        mask_display_text: None,
        current_setting: None,
        block_mirror: None,
        dashboard_binding: None,
    }
}

fn target(path: &str, name: &str, resolve: ConnectionTargetResolve, element_index: Option<u32>, origin: ConnectionTargetOrigin) -> ConnectionTarget {
    ConnectionTarget {
        path: path.to_string(),
        signal_name: Some(name.to_string()),
        resolve: Some(resolve),
        element_index,
        origin,
        signals_only: true,
        testpoint: false,
    }
}

fn bare_line() -> Line {
    Line {
        name: None,
        src: None,
        dst: None,
        points: Vec::new(),
        branches: Vec::new(),
        properties: IndexMap::new(),
    }
}

fn wire(name: Option<&str>) -> Line {
    Line {
        name: name.map(str::to_string),
        src: Some(EndpointRef {
            sid: "1".to_string(),
            port_type: "out".to_string(),
            port_index: 1,
        }),
        dst: Some(EndpointRef {
            sid: "2".to_string(),
            port_type: "in".to_string(),
            port_index: 1,
        }),
        points: Vec::new(),
        branches: Vec::new(),
        properties: IndexMap::new(),
    }
}

#[test]
fn dashboard_blocks_do_not_fall_back_to_live_text() {
    assert!(!should_render_live_text(true, "PushButtonBlock"));
    assert!(!should_render_live_text(true, "ComboBox"));
    assert!(!should_render_live_text(true, "DisplayBlock"));
}

#[test]
fn non_dashboard_display_blocks_keep_live_text() {
    assert!(!should_render_live_text(true, "Gain"));
    assert!(should_render_live_text(true, "Constant"));
    assert!(should_render_live_text(true, "Display"));
    assert!(!should_render_live_text(false, "Display"));
    assert!(!should_render_live_text(true, "ManualSwitch"));
}

#[test]
fn line_testpoint_follows_source_output_port() {
    let mut source = minimal_block("Source", "1");
    source.ports.push(Port {
        port_type: "out".to_string(),
        index: Some(1),
        properties: IndexMap::from_iter([("TestPoint".to_string(), "on".to_string())]),
    });
    let sink = minimal_block("Sink", "2");
    let line = wire(None);
    let system = System {
        properties: IndexMap::from_iter([("Name".to_string(), "Model".to_string())]),
        blocks: vec![source, sink],
        lines: vec![line.clone()],
    };

    let resolver = ConnectionTargetResolver::new(&system);
    let targets = resolver.line_targets_for_line(&[], &line);
    assert!(line_has_testpoint(&targets));
}

#[test]
fn unnamed_line_label_stays_empty_without_explicit_line_name() {
    let mut source = minimal_block("Source Block", "1");
    source.ports.push(Port {
        port_type: "out".to_string(),
        index: Some(1),
        properties: IndexMap::from_iter([("Name".to_string(), "Shared Signal".to_string())]),
    });
    let sink = minimal_block("Sink", "2");
    let line = wire(None);
    let system = System {
        properties: IndexMap::from_iter([("Name".to_string(), "Model".to_string())]),
        blocks: vec![source, sink],
        lines: vec![line.clone()],
    };

    let resolver = ConnectionTargetResolver::new(&system);
    let targets = resolver.line_targets_for_line(&[], &line);
    assert_eq!(resolved_line_label(&line, &targets), None);
}

#[test]
fn bus_and_mux_lines_do_not_draw_propagated_fallback_names() {
    let line = bare_line();
    let bus_targets = vec![
        target("Model/A", "alpha", ConnectionTargetResolve::Signal("alpha".to_string()), None, ConnectionTargetOrigin::BusCreator),
        target("Model/B", "beta", ConnectionTargetResolve::Signal("beta".to_string()), None, ConnectionTargetOrigin::BusCreator),
    ];
    let mux_targets = vec![target(
        "Model/A",
        "alpha",
        ConnectionTargetResolve::Index(1),
        Some(1),
        ConnectionTargetOrigin::Mux,
    )];

    assert_eq!(resolved_line_label(&line, &bus_targets), None);
    assert_eq!(resolved_line_label(&line, &mux_targets), None);
}

#[test]
fn mask_without_display_text_falls_back_to_normal_rendering() {
    let mut block = minimal_block("Masked", "3");
    block.mask = Some(Mask::default());

    assert!(!should_use_mask_display(&block));

    block.mask_display_text = Some(" ".to_string());
    assert!(!should_use_mask_display(&block));

    block.mask_display_text = Some("mask label".to_string());
    assert!(should_use_mask_display(&block));
}

#[test]
fn explicit_line_name_is_trimmed_into_label() {
    let line = wire(Some("  speed "));
    assert_eq!(resolved_line_label(&line, &[]), Some("speed".to_string()));
}

#[test]
fn plain_line_label_comes_from_first_signal_target() {
    let line = bare_line();
    let targets = vec![
        target("Model/M", "muxed", ConnectionTargetResolve::Index(1), None, ConnectionTargetOrigin::BusCreator),
        target("Model/A", "alpha", ConnectionTargetResolve::Signal("alpha".to_string()), None, ConnectionTargetOrigin::SourceBlock),
    ];
    assert_eq!(resolved_line_label(&line, &targets), Some("alpha".to_string()));
}

#[test]
fn bus_detection_needs_two_signal_names() {
    let one = vec![
        target("Model/A", "alpha", ConnectionTargetResolve::Signal("alpha".to_string()), None, ConnectionTargetOrigin::BusCreator),
        target("Model/B", "alpha", ConnectionTargetResolve::Signal("alpha".to_string()), None, ConnectionTargetOrigin::BusCreator),
    ];
    assert!(!is_bus_line(&one));
    let two = vec![
        target("Model/A", "alpha", ConnectionTargetResolve::Signal("alpha".to_string()), None, ConnectionTargetOrigin::BusCreator),
        target("Model/B", "beta", ConnectionTargetResolve::Signal("beta".to_string()), None, ConnectionTargetOrigin::BusCreator),
    ];
    assert!(is_bus_line(&two));
    assert!(!is_mux_line(&two));
}

#[test]
fn scope_title_prefers_binding_then_named_input_then_block_name() {
    let mut scope = minimal_block("Scope1", "2");
    let lines = vec![wire(Some("  ")), wire(Some("measured"))];
    assert_eq!(first_input_signal_name(&scope, &lines), Some("measured".to_string()));
    assert_eq!(scope_title_for_block(&scope, &lines), "measured");
    assert_eq!(scope_title_for_block(&scope, &[]), "Scope1");
    scope.dashboard_binding = Some(DashboardBinding::SignalSpec {
        block_path: "Src".to_string(),
        signal_name: "bound".to_string(),
        target_path: DashboardTargetPath::default(),
        uuid: "u".to_string(),
    });
    assert_eq!(scope_title_for_block(&scope, &lines), "bound");
}

#[test]
fn branch_hits_nested_destination() {
    let leaf = Branch {
        name: None,
        dst: Some(EndpointRef { sid: "9".to_string(), port_type: "in".to_string(), port_index: 1 }),
        points: Vec::new(),
        branches: Vec::new(),
    };
    let root = Branch { name: None, dst: None, points: Vec::new(), branches: vec![leaf] };
    assert!(branch_hits_sid(&root, "9"));
    assert!(!branch_hits_sid(&root, "8"));
}
