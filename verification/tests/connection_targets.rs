//! Scenarios of connection-target resolution over small models.

use indexmap::IndexMap;
use rustylink::connection_targets::resolver::ConnectionTargetResolver;
use rustylink::connection_targets::{
    dedup_targets, ConnectionTarget, ConnectionTargetOrigin, ConnectionTargetResolve,
};
use rustylink::model::{Block, EndpointRef, Line, Point, Port, System};
use rustylink::signature::model_topology_signature;

#[test]
fn bus_selector_uses_named_bus_creator_input() {
    let system = System {
        properties: props(&[("Name", "model")]),
        blocks: vec![
            block("Constant", "A", "1", vec![port("out", 1, None)], None, &[]),
            block("Constant", "B", "2", vec![port("out", 1, None)], None, &[]),
            block(
                "BusCreator",
                "BusCreator",
                "3",
                vec![
                    port("in", 1, None),
                    port("in", 2, None),
                    port("out", 1, None),
                ],
                None,
                &[],
            ),
            block(
                "BusSelector",
                "BusSelector",
                "4",
                vec![port("in", 1, None), port("out", 1, Some("beta"))],
                None,
                &[],
            ),
            block("Display", "Sink", "5", vec![port("in", 1, None)], None, &[]),
        ],
        lines: vec![
            line("1", 1, "3", 1, Some("alpha")),
            line("2", 1, "3", 2, Some("beta")),
            line("3", 1, "4", 1, None),
            line("4", 1, "5", 1, None),
        ],
    };

    let resolver = ConnectionTargetResolver::new(&system);
    let targets = resolver.line_targets_for_line(&[], &system.lines[3]);

    assert_eq!(targets.len(), 1);
    assert_eq!(targets[0].path, "model/B");
    assert_eq!(targets[0].signal_name.as_deref(), Some("beta"));
    assert_eq!(targets[0].origin, ConnectionTargetOrigin::BusSelector);
}

#[test]
fn demux_uses_matching_mux_input_index() {
    let system = System {
        properties: props(&[("Name", "model")]),
        blocks: vec![
            block("Constant", "A", "1", vec![port("out", 1, None)], None, &[]),
            block("Constant", "B", "2", vec![port("out", 1, None)], None, &[]),
            block(
                "Mux",
                "Mux",
                "3",
                vec![
                    port("in", 1, None),
                    port("in", 2, None),
                    port("out", 1, None),
                ],
                None,
                &[],
            ),
            block(
                "Demux",
                "Demux",
                "4",
                vec![
                    port("in", 1, None),
                    port("out", 1, None),
                    port("out", 2, None),
                ],
                None,
                &[],
            ),
            block(
                "Display",
                "Sink1",
                "5",
                vec![port("in", 1, None)],
                None,
                &[],
            ),
            block(
                "Display",
                "Sink2",
                "6",
                vec![port("in", 1, None)],
                None,
                &[],
            ),
        ],
        lines: vec![
            line("1", 1, "3", 1, Some("alpha")),
            line("2", 1, "3", 2, Some("beta")),
            line("3", 1, "4", 1, None),
            line("4", 1, "5", 1, None),
            line("4", 2, "6", 1, None),
        ],
    };

    let resolver = ConnectionTargetResolver::new(&system);
    let targets = resolver.line_targets_for_line(&[], &system.lines[4]);

    assert_eq!(targets.len(), 1);
    assert_eq!(targets[0].path, "model/B");
    assert_eq!(targets[0].signal_name.as_deref(), Some("beta"));
    assert_eq!(targets[0].origin, ConnectionTargetOrigin::Demux);
}

#[test]
fn subsystem_outport_forwards_parent_input_target() {
    let child_system = System {
        properties: IndexMap::new(),
        blocks: vec![
            block(
                "Inport",
                "In1",
                "10",
                vec![port("out", 1, None)],
                None,
                &[("Port", "1")],
            ),
            block(
                "Outport",
                "Out1",
                "11",
                vec![port("in", 1, None)],
                None,
                &[("Port", "1")],
            ),
        ],
        lines: vec![line("10", 1, "11", 1, None)],
    };

    let system = System {
        properties: props(&[("Name", "model")]),
        blocks: vec![
            block(
                "Constant",
                "Src",
                "1",
                vec![port("out", 1, None)],
                None,
                &[],
            ),
            block(
                "SubSystem",
                "Sub",
                "2",
                vec![port("in", 1, None), port("out", 1, None)],
                Some(child_system),
                &[],
            ),
            block("Display", "Sink", "3", vec![port("in", 1, None)], None, &[]),
        ],
        lines: vec![
            line("1", 1, "2", 1, Some("input")),
            line("2", 1, "3", 1, None),
        ],
    };

    let resolver = ConnectionTargetResolver::new(&system);
    let targets = resolver.line_targets_for_line(&[], &system.lines[1]);

    assert!(targets.iter().any(|target| {
        target.path == "model/Src"
            && target.signal_name.as_deref() == Some("input")
            && target.signals_only
    }));
    assert!(targets.iter().any(|target| {
        target.path == "model/Sub/Out1" && target.signal_name.as_deref() == Some("input")
    }));
    assert!(!targets.iter().any(|target| target.path == "model/Sub/In1"));
}

#[test]
fn mux_does_not_append_explicit_names_to_forwarded_boundary_paths() {
    let child_system = System {
        properties: IndexMap::new(),
        blocks: vec![
            block(
                "Inport",
                "In1",
                "10",
                vec![port("out", 1, None)],
                None,
                &[("Port", "1")],
            ),
            block(
                "Outport",
                "Out1",
                "11",
                vec![port("in", 1, None)],
                None,
                &[("Port", "1")],
            ),
        ],
        lines: vec![line("10", 1, "11", 1, None)],
    };

    let system = System {
        properties: props(&[("Name", "model")]),
        blocks: vec![
            block(
                "Constant",
                "Src",
                "1",
                vec![port("out", 1, None)],
                None,
                &[],
            ),
            block(
                "SubSystem",
                "Sub",
                "2",
                vec![port("in", 1, None), port("out", 1, None)],
                Some(child_system),
                &[],
            ),
            block(
                "Constant",
                "Other",
                "3",
                vec![port("out", 1, None)],
                None,
                &[],
            ),
            block(
                "Mux",
                "Mux",
                "4",
                vec![
                    port("in", 1, None),
                    port("in", 2, None),
                    port("out", 1, None),
                ],
                None,
                &[],
            ),
            block("Display", "Sink", "5", vec![port("in", 1, None)], None, &[]),
        ],
        lines: vec![
            line("1", 1, "2", 1, Some("input")),
            line("2", 1, "4", 1, Some("alpha")),
            line("3", 1, "4", 2, Some("beta")),
            line("4", 1, "5", 1, None),
        ],
    };

    let resolver = ConnectionTargetResolver::new(&system);
    let targets = resolver.line_targets_for_line(&[], &system.lines[3]);

    assert!(
        targets.iter().any(|target| {
            target.path == "model/Sub/Out1"
                && target.signal_name.as_deref() == Some("alpha")
                && target.origin == ConnectionTargetOrigin::Mux
        }),
        "targets: {targets:?}"
    );
    assert!(
        !targets
            .iter()
            .any(|target| target.path == "model/Sub/Out1/alpha")
    );
}

#[test]
fn subsystem_block_includes_direct_internal_block_targets_only() {
    let nested_system = System {
        properties: IndexMap::new(),
        blocks: vec![block(
            "Constant",
            "Deep",
            "20",
            vec![port("out", 1, None)],
            None,
            &[],
        )],
        lines: Vec::new(),
    };

    let child_system = System {
        properties: IndexMap::new(),
        blocks: vec![
            block(
                "Constant",
                "InnerDirect",
                "10",
                vec![port("out", 1, None)],
                None,
                &[],
            ),
            block(
                "SubSystem",
                "Nested",
                "11",
                vec![port("in", 1, None), port("out", 1, None)],
                Some(nested_system),
                &[],
            ),
        ],
        lines: Vec::new(),
    };

    let system = System {
        properties: props(&[("Name", "model")]),
        blocks: vec![block(
            "SubSystem",
            "Sub",
            "1",
            vec![port("in", 1, None), port("out", 1, None)],
            Some(child_system),
            &[],
        )],
        lines: Vec::new(),
    };

    let resolver = ConnectionTargetResolver::new(&system);
    let targets = resolver.block_targets_for_block(&[], &system.blocks[0]);

    assert!(targets.iter().any(|target| {
        target.path == "model/Sub/InnerDirect"
            && target.origin == ConnectionTargetOrigin::Internal
    }));
    assert!(targets.iter().any(|target| {
        target.path == "model/Sub/Nested" && target.origin == ConnectionTargetOrigin::Internal
    }));
    assert!(
        !targets
            .iter()
            .any(|target| target.path == "model/Sub/Nested/Deep")
    );
}

#[test]
fn dashboard_signal_bindings_are_marked_signals_only() {
    let mut signal_block = block("DisplayBlock", "Gauge", "1", vec![], None, &[]);
    signal_block.dashboard_binding = Some(rustylink::model::DashboardBinding::SignalSpec {
        block_path: "Source".to_string(),
        signal_name: "sig".to_string(),
        target_path: rustylink::model::DashboardTargetPath::default(),
        uuid: "uuid-1".to_string(),
    });

    let mut param_block = block("KnobBlock", "Knob", "2", vec![], None, &[]);
    param_block.dashboard_binding = Some(rustylink::model::DashboardBinding::ParamSource {
        block_path: "ParamBlock".to_string(),
        param_name: "Value".to_string(),
        target_path: rustylink::model::DashboardTargetPath::default(),
        uuid: "uuid-2".to_string(),
    });

    let system = System {
        properties: props(&[("Name", "model")]),
        blocks: vec![signal_block, param_block],
        lines: Vec::new(),
    };

    let resolver = ConnectionTargetResolver::new(&system);
    let signal_targets = resolver.block_targets_for_block(&[], &system.blocks[0]);
    let param_targets = resolver.block_targets_for_block(&[], &system.blocks[1]);

    assert!(signal_targets.iter().any(|target| {
        target.origin == ConnectionTargetOrigin::DashboardBinding
            && target.path == "model/Source"
            && target.signals_only
    }));
    assert!(param_targets.iter().any(|target| {
        target.origin == ConnectionTargetOrigin::DashboardBinding
            && target.path == "model/ParamBlock"
            && !target.signals_only
    }));
}

#[test]
fn dashboard_binding_target_uses_binding_payload() {
    let source = block(
        "Gain",
        "Source",
        "1",
        vec![port("out", 1, Some("other")), port("out", 2, Some("src_signal"))],
        None,
        &[],
    );
    let sink = block(
        "Terminator",
        "Sink",
        "2",
        vec![port("in", 1, None)],
        None,
        &[],
    );
    let mut dashboard = block("DisplayBlock", "Gauge", "3", vec![], None, &[]);
    dashboard.dashboard_binding = Some(rustylink::model::DashboardBinding::SignalSpec {
        block_path: "Source".to_string(),
        signal_name: "src_signal".to_string(),
        target_path: rustylink::model::DashboardTargetPath {
            port_index: Some(2),
            ..Default::default()
        },
        uuid: "uuid-propagate".to_string(),
    });

    let mut line = line("1", 2, "2", 1, Some("src_signal"));
    line.properties.insert("TestPoint".to_string(), "on".to_string());

    let system = System {
        properties: props(&[("Name", "model")]),
        blocks: vec![source, sink, dashboard],
        lines: vec![line],
    };

    let resolver = ConnectionTargetResolver::new(&system);
    let dashboard_targets = resolver.block_targets_for_block(&[], &system.blocks[2]);
    let dashboard_target = dashboard_targets
        .iter()
        .find(|target| target.origin == ConnectionTargetOrigin::DashboardBinding)
        .expect("dashboard target");

    assert_eq!(dashboard_target.path, "model/Source");
    assert_eq!(dashboard_target.signal_name.as_deref(), Some("src_signal"));
    assert_eq!(
        dashboard_target.resolve,
        Some(ConnectionTargetResolve::TargetPath(
            rustylink::model::DashboardTargetPath {
                port_index: Some(2),
                ..Default::default()
            }
        ))
    );
    assert_eq!(dashboard_target.element_index, Some(2));
    assert!(!dashboard_target.testpoint);
    assert!(dashboard_target.signals_only);
}

#[test]
fn dashboard_binding_target_propagates_source_index_without_incoming_line() {
    let source = block(
        "ComplexToRealImag",
        "Complex to Real-Imag1",
        "1",
        vec![port("out", 1, Some("re")), port("out", 2, Some("im"))],
        None,
        &[],
    );
    let mut dashboard = block("DisplayBlock", "Gauge", "2", vec![], None, &[]);
    dashboard.dashboard_binding = Some(rustylink::model::DashboardBinding::SignalSpec {
        block_path: "Complex to Real-Imag1".to_string(),
        signal_name: "im".to_string(),
        target_path: rustylink::model::DashboardTargetPath {
            port_index: Some(2),
            ..Default::default()
        },
        uuid: "uuid-dashboard-only".to_string(),
    });

    let system = System {
        properties: props(&[("Name", "model")]),
        blocks: vec![source, dashboard],
        lines: Vec::new(),
    };

    let resolver = ConnectionTargetResolver::new(&system);
    let dashboard_targets = resolver.block_targets_for_block(&[], &system.blocks[1]);
    let dashboard_target = dashboard_targets
        .iter()
        .find(|target| target.origin == ConnectionTargetOrigin::DashboardBinding)
        .expect("dashboard target");

    assert_eq!(dashboard_target.path, "model/Complex to Real-Imag1");
    assert_eq!(dashboard_target.signal_name.as_deref(), Some("im"));
    assert_eq!(
        dashboard_target.resolve,
        Some(ConnectionTargetResolve::TargetPath(
            rustylink::model::DashboardTargetPath {
                port_index: Some(2),
                ..Default::default()
            }
        ))
    );
    assert_eq!(dashboard_target.element_index, Some(2));
    assert!(dashboard_target.signals_only);
}

#[test]
fn dashboard_binding_target_path_index_wins_over_same_path_signal_name_match() {
    let source = block(
        "Demux",
        "Source",
        "1",
        vec![port("out", 1, Some("requested_signal")), port("out", 2, None)],
        None,
        &[],
    );
    let mut dashboard = block("DisplayBlock", "Gauge", "2", vec![], None, &[]);
    dashboard.dashboard_binding = Some(rustylink::model::DashboardBinding::SignalSpec {
        block_path: "Source".to_string(),
        signal_name: "requested_signal".to_string(),
        target_path: rustylink::model::DashboardTargetPath {
            port_index: Some(2),
            ..Default::default()
        },
        uuid: "uuid-index-wins".to_string(),
    });

    let system = System {
        properties: props(&[("Name", "model")]),
        blocks: vec![source, dashboard],
        lines: Vec::new(),
    };

    let resolver = ConnectionTargetResolver::new(&system);
    let dashboard_targets = resolver.block_targets_for_block(&[], &system.blocks[1]);
    let dashboard_target = dashboard_targets
        .iter()
        .find(|target| target.origin == ConnectionTargetOrigin::DashboardBinding)
        .expect("dashboard target");

    assert_eq!(dashboard_target.path, "model/Source");
    assert_eq!(dashboard_target.element_index, Some(2));
    assert_eq!(dashboard_target.signal_name.as_deref(), Some("requested_signal"));
    assert_eq!(
        dashboard_target.resolve,
        Some(ConnectionTargetResolve::TargetPath(
            rustylink::model::DashboardTargetPath {
                port_index: Some(2),
                ..Default::default()
            }
        ))
    );
    assert!(dashboard_target.signals_only);
}

#[test]
fn base_line_targets_preserve_source_port_testpoint() {
    let mut source = block(
        "Constant",
        "Source",
        "1",
        vec![port("out", 1, Some("sig"))],
        None,
        &[],
    );
    source.ports[0]
        .properties
        .insert("TestPoint".to_string(), "on".to_string());

    let sink = block("Display", "Sink", "2", vec![port("in", 1, None)], None, &[]);
    let wire = line("1", 1, "2", 1, Some("sig"));
    let system = System {
        properties: props(&[("Name", "model")]),
        blocks: vec![source, sink],
        lines: vec![wire.clone()],
    };

    let resolver = ConnectionTargetResolver::new(&system);
    let targets = resolver.line_targets_for_line(&[], &wire);

    assert!(targets.iter().any(|target| target.testpoint));
    assert!(targets.iter().any(|target| {
        target.path == "model/Source" && target.signal_name.as_deref() == Some("sig")
    }));
}

#[test]
fn base_line_targets_use_line_testpoint_property() {
    let source = block(
        "Constant",
        "Source",
        "1",
        vec![port("out", 1, None)],
        None,
        &[],
    );
    let sink = block("Display", "Sink", "2", vec![port("in", 1, None)], None, &[]);
    let mut wire = line("1", 1, "2", 1, None);
    wire.properties
        .insert("TestPoint".to_string(), "on".to_string());
    let system = System {
        properties: props(&[("Name", "model")]),
        blocks: vec![source, sink],
        lines: vec![wire.clone()],
    };

    let resolver = ConnectionTargetResolver::new(&system);
    let targets = resolver.line_targets_for_line(&[], &wire);

    assert!(targets.iter().any(|target| target.testpoint));
}

#[test]
fn canonical_signal_paths_strip_newlines_and_merge_testpoints() {
    let source = block(
        "Constant",
        "Source\nBlock",
        "1",
        vec![port("out", 1, Some("sig\nname"))],
        None,
        &[],
    );
    let sink = block("Display", "Sink", "2", vec![port("in", 1, None)], None, &[]);
    let wire = line("1", 1, "2", 1, None);
    let system = System {
        properties: props(&[("Name", "model")]),
        blocks: vec![source, sink],
        lines: vec![wire.clone()],
    };

    let resolver = ConnectionTargetResolver::new(&system);
    let mut targets = resolver.line_targets_for_line(&[], &wire);
    assert_eq!(targets.len(), 1);
    assert_eq!(targets[0].path, "model/Source Block");
    assert_eq!(targets[0].signal_name, None);

    targets.push(ConnectionTarget {
        path: "model/Source Block".to_string(),
        signal_name: None,
        resolve: None,
        element_index: None,
        origin: ConnectionTargetOrigin::SourceBlock,
        signals_only: true,
        testpoint: true,
    });
    let deduped = dedup_targets(targets);
    assert_eq!(deduped.len(), 1);
    assert!(deduped[0].testpoint);
}

#[test]
fn base_line_targets_do_not_invent_signal_names_without_explicit_line_name() {
    let source = block(
        "Constant",
        "Source",
        "1",
        vec![port("out", 1, Some("sig name"))],
        None,
        &[],
    );
    let sink = block("Display", "Sink", "2", vec![port("in", 1, None)], None, &[]);
    let wire = line("1", 1, "2", 1, None);
    let system = System {
        properties: props(&[("Name", "model")]),
        blocks: vec![source, sink],
        lines: vec![wire.clone()],
    };

    let resolver = ConnectionTargetResolver::new(&system);
    let targets = resolver.line_targets_for_line(&[], &wire);

    assert_eq!(targets.len(), 1);
    assert_eq!(targets[0].path, "model/Source");
    assert_eq!(targets[0].signal_name, None);
}

#[test]
fn base_line_targets_set_output_index_for_multi_output_source() {
    let source = block(
        "ComplexToRealImag",
        "ComplexToRealImag",
        "1",
        vec![
            port("in", 1, None),
            port("out", 1, None),
            port("out", 2, None),
        ],
        None,
        &[],
    );
    let sink = block("Display", "Sink", "2", vec![port("in", 1, None)], None, &[]);
    let wire = line("1", 2, "2", 1, None);
    let system = System {
        properties: props(&[("Name", "model")]),
        blocks: vec![source, sink],
        lines: vec![wire.clone()],
    };

    let resolver = ConnectionTargetResolver::new(&system);
    let targets = resolver.line_targets_for_line(&[], &wire);

    assert_eq!(targets.len(), 1);
    assert_eq!(targets[0].path, "model/ComplexToRealImag");
    assert_eq!(targets[0].element_index, Some(2));
}

#[test]
fn bus_selector_ignores_propagated_signal_fallbacks() {
    let system = System {
        properties: props(&[("Name", "model")]),
        blocks: vec![
            block("Constant", "A", "1", vec![port("out", 1, None)], None, &[]),
            block("Constant", "B", "2", vec![port("out", 1, None)], None, &[]),
            block(
                "BusCreator",
                "BusCreator",
                "3",
                vec![
                    port("in", 1, None),
                    port("in", 2, None),
                    port("out", 1, None),
                ],
                None,
                &[],
            ),
            block(
                "BusSelector",
                "BusSelector",
                "4",
                vec![port("in", 1, None), propagated_port("out", 1, "beta")],
                None,
                &[],
            ),
            block("Display", "Sink", "5", vec![port("in", 1, None)], None, &[]),
        ],
        lines: vec![
            line("1", 1, "3", 1, Some("alpha")),
            line("2", 1, "3", 2, Some("beta")),
            line("3", 1, "4", 1, None),
            line("4", 1, "5", 1, None),
        ],
    };

    let resolver = ConnectionTargetResolver::new(&system);
    let targets = resolver.line_targets_for_line(&[], &system.lines[3]);

    assert!(targets.is_empty(), "targets: {targets:?}");
}

#[test]
fn bus_selector_uses_explicit_output_line_name_for_target_paths() {
    let system = System {
        properties: props(&[("Name", "model")]),
        blocks: vec![
            block("Constant", "A", "1", vec![port("out", 1, None)], None, &[]),
            block("Constant", "B", "2", vec![port("out", 1, None)], None, &[]),
            block(
                "BusCreator",
                "BusCreator",
                "3",
                vec![
                    port("in", 1, None),
                    port("in", 2, None),
                    port("out", 1, None),
                ],
                None,
                &[],
            ),
            block(
                "BusSelector",
                "BusSelector",
                "4",
                vec![port("in", 1, None), port("out", 1, None)],
                None,
                &[],
            ),
            block("Display", "Sink", "5", vec![port("in", 1, None)], None, &[]),
        ],
        lines: vec![
            line("1", 1, "3", 1, Some("alpha")),
            line("2", 1, "3", 2, Some("beta")),
            line("3", 1, "4", 1, None),
            line("4", 1, "5", 1, Some("beta")),
        ],
    };

    let resolver = ConnectionTargetResolver::new(&system);
    let targets = resolver.line_targets_for_line(&[], &system.lines[3]);

    assert_eq!(targets.len(), 1);
    assert_eq!(targets[0].path, "model/B");
    assert_eq!(targets[0].signal_name.as_deref(), Some("beta"));
    assert_eq!(targets[0].origin, ConnectionTargetOrigin::BusSelector);
    assert_eq!(
        targets[0].resolve,
        Some(ConnectionTargetResolve::Signal("beta".to_string()))
    );
}

#[test]
fn bus_selector_matches_angled_line_names_against_bus_creator_inputs() {
    let system = System {
        properties: props(&[("Name", "model")]),
        blocks: vec![
            block("Constant", "A", "1", vec![port("out", 1, None)], None, &[]),
            block("Constant", "B", "2", vec![port("out", 1, None)], None, &[]),
            block(
                "BusCreator",
                "BusCreator",
                "3",
                vec![
                    port("in", 1, None),
                    port("in", 2, None),
                    port("out", 1, None),
                ],
                None,
                &[],
            ),
            block(
                "BusSelector",
                "BusSelector",
                "4",
                vec![port("in", 1, None), port("out", 1, None)],
                None,
                &[],
            ),
            block("Display", "Sink", "5", vec![port("in", 1, None)], None, &[]),
        ],
        lines: vec![
            line("1", 1, "3", 1, Some("a")),
            line("2", 1, "3", 2, Some("signal1")),
            line("3", 1, "4", 1, None),
            line("4", 1, "5", 1, Some("<signal1>")),
        ],
    };

    let resolver = ConnectionTargetResolver::new(&system);
    let targets = resolver.line_targets_for_line(&[], &system.lines[3]);

    assert_eq!(targets.len(), 1);
    assert_eq!(targets[0].path, "model/B");
    assert_eq!(
        targets[0].resolve,
        Some(ConnectionTargetResolve::Signal("signal1".to_string()))
    );
}

#[test]
fn demux_propagates_names_and_testpoints_back_upstream_and_strips_indices_after_split() {
    let source = block(
        "Constant",
        "Source",
        "1",
        vec![port("out", 1, None)],
        None,
        &[],
    );
    let mux = block(
        "Mux",
        "Mux",
        "2",
        vec![port("in", 1, None), port("out", 1, None)],
        None,
        &[],
    );
    let demux = block(
        "Demux",
        "Demux",
        "3",
        vec![port("in", 1, None), port("out", 1, None)],
        None,
        &[],
    );
    let sink = block("Display", "Sink", "4", vec![port("in", 1, None)], None, &[]);

    let upstream = line("1", 1, "2", 1, None);
    let middle = line("2", 1, "3", 1, None);
    let mut downstream = line("3", 1, "4", 1, Some("selected"));
    downstream
        .properties
        .insert("TestPoint".to_string(), "on".to_string());

    let system = System {
        properties: props(&[("Name", "model")]),
        blocks: vec![source, mux, demux, sink],
        lines: vec![upstream.clone(), middle, downstream.clone()],
    };

    let resolver = ConnectionTargetResolver::new(&system);
    let upstream_targets = resolver.line_targets_for_line(&[], &upstream);
    let downstream_targets = resolver.line_targets_for_line(&[], &downstream);

    assert_eq!(upstream_targets.len(), 1);
    assert_eq!(upstream_targets[0].path, "model/Source");
    assert_eq!(upstream_targets[0].signal_name.as_deref(), Some("selected"));
    assert!(upstream_targets[0].testpoint);

    assert_eq!(downstream_targets.len(), 1);
    assert_eq!(downstream_targets[0].path, "model/Source");
    assert_eq!(
        downstream_targets[0].signal_name.as_deref(),
        Some("selected")
    );
    assert_eq!(downstream_targets[0].origin, ConnectionTargetOrigin::Demux);
    assert_eq!(downstream_targets[0].element_index, None);
    assert!(downstream_targets[0].testpoint);
}

#[test]
fn upstream_propagation_preserves_explicit_local_line_names() {
    let source = block(
        "Constant",
        "Source",
        "1",
        vec![port("out", 1, None)],
        None,
        &[],
    );
    let mux = block(
        "Mux",
        "Mux",
        "2",
        vec![port("in", 1, None), port("out", 1, None)],
        None,
        &[],
    );
    let demux = block(
        "Demux",
        "Demux",
        "3",
        vec![port("in", 1, None), port("out", 1, None)],
        None,
        &[],
    );
    let sink = block("Display", "Sink", "4", vec![port("in", 1, None)], None, &[]);

    let upstream = line("1", 1, "2", 1, Some("local"));
    let middle = line("2", 1, "3", 1, None);
    let downstream = line("3", 1, "4", 1, Some("remote"));

    let system = System {
        properties: props(&[("Name", "model")]),
        blocks: vec![source, mux, demux, sink],
        lines: vec![upstream.clone(), middle, downstream],
    };

    let resolver = ConnectionTargetResolver::new(&system);
    let upstream_targets = resolver.line_targets_for_line(&[], &upstream);

    assert_eq!(upstream_targets.len(), 1);
    assert_eq!(upstream_targets[0].signal_name.as_deref(), Some("local"));
}

#[test]
fn subsystem_input_line_receives_child_metadata_upstream() {
    let mut child_wire = line("10", 1, "11", 1, Some("child_name"));
    child_wire
        .properties
        .insert("TestPoint".to_string(), "on".to_string());
    let child_system = System {
        properties: IndexMap::new(),
        blocks: vec![
            block(
                "Inport",
                "In1",
                "10",
                vec![port("out", 1, None)],
                None,
                &[("Port", "1")],
            ),
            block(
                "Outport",
                "Out1",
                "11",
                vec![port("in", 1, None)],
                None,
                &[("Port", "1")],
            ),
        ],
        lines: vec![child_wire],
    };

    let system = System {
        properties: props(&[("Name", "model")]),
        blocks: vec![
            block(
                "Constant",
                "Src",
                "1",
                vec![port("out", 1, None)],
                None,
                &[],
            ),
            block(
                "SubSystem",
                "Sub",
                "2",
                vec![port("in", 1, None), port("out", 1, None)],
                Some(child_system),
                &[],
            ),
        ],
        lines: vec![line("1", 1, "2", 1, None)],
    };

    let resolver = ConnectionTargetResolver::new(&system);
    let targets = resolver.line_targets_for_line(&[], &system.lines[0]);

    assert_eq!(targets.len(), 1);
    assert_eq!(targets[0].signal_name.as_deref(), Some("child_name"));
    assert!(targets[0].testpoint);
}

#[test]
fn subsystem_output_metadata_flows_back_into_child_outport_line() {
    let child_system = System {
        properties: IndexMap::new(),
        blocks: vec![
            block(
                "Inport",
                "In1",
                "10",
                vec![port("out", 1, None)],
                None,
                &[("Port", "1")],
            ),
            block(
                "Outport",
                "Out1",
                "11",
                vec![port("in", 1, None)],
                None,
                &[("Port", "1")],
            ),
        ],
        lines: vec![line("10", 1, "11", 1, None)],
    };

    let mut parent_output = line("2", 1, "3", 1, Some("outer_name"));
    parent_output
        .properties
        .insert("TestPoint".to_string(), "on".to_string());
    let system = System {
        properties: props(&[("Name", "model")]),
        blocks: vec![
            block(
                "SubSystem",
                "Sub",
                "2",
                vec![port("in", 1, None), port("out", 1, None)],
                Some(child_system),
                &[],
            ),
            block("Display", "Sink", "3", vec![port("in", 1, None)], None, &[]),
        ],
        lines: vec![parent_output],
    };

    let child_line = system.blocks[0]
        .subsystem
        .as_ref()
        .and_then(|child| child.lines.first())
        .cloned()
        .expect("child line");
    let resolver = ConnectionTargetResolver::new(&system);
    let targets = resolver.line_targets_for_line(&["Sub".to_string()], &child_line);

    assert_eq!(targets.len(), 1);
    assert_eq!(targets[0].signal_name.as_deref(), Some("outer_name"));
    assert!(targets[0].testpoint);
}

#[test]
fn subsystem_named_child_line_keeps_name_and_inherits_outer_testpoint() {
    let child_system = System {
        properties: IndexMap::new(),
        blocks: vec![
            block(
                "Inport",
                "In1",
                "10",
                vec![port("out", 1, None)],
                None,
                &[("Port", "1")],
            ),
            block(
                "Outport",
                "Out1",
                "11",
                vec![port("in", 1, None)],
                None,
                &[("Port", "1")],
            ),
        ],
        lines: vec![line("10", 1, "11", 1, Some("inner_name"))],
    };

    let mut parent_output = line("2", 1, "3", 1, Some("outer_name"));
    parent_output
        .properties
        .insert("TestPoint".to_string(), "on".to_string());
    let system = System {
        properties: props(&[("Name", "model")]),
        blocks: vec![
            block(
                "SubSystem",
                "Sub",
                "2",
                vec![port("in", 1, None), port("out", 1, None)],
                Some(child_system),
                &[],
            ),
            block("Display", "Sink", "3", vec![port("in", 1, None)], None, &[]),
        ],
        lines: vec![parent_output],
    };

    let child_line = system.blocks[0]
        .subsystem
        .as_ref()
        .and_then(|child| child.lines.first())
        .cloned()
        .expect("child line");
    let resolver = ConnectionTargetResolver::new(&system);
    let targets = resolver.line_targets_for_line(&["Sub".to_string()], &child_line);

    assert_eq!(targets.len(), 1);
    assert_eq!(targets[0].signal_name.as_deref(), Some("inner_name"));
    assert!(targets[0].testpoint);
}

#[test]
fn subsystem_child_line_inherits_outer_testpoint_when_outer_line_is_unnamed() {
    let child_system = System {
        properties: IndexMap::new(),
        blocks: vec![
            block(
                "Inport",
                "In1",
                "10",
                vec![port("out", 1, None)],
                None,
                &[("Port", "1")],
            ),
            block(
                "Outport",
                "Out1",
                "11",
                vec![port("in", 1, None)],
                None,
                &[("Port", "1")],
            ),
        ],
        lines: vec![line("10", 1, "11", 1, Some("inner_name"))],
    };

    let mut parent_output = line("2", 1, "3", 1, None);
    parent_output
        .properties
        .insert("TestPoint".to_string(), "on".to_string());
    let system = System {
        properties: props(&[("Name", "model")]),
        blocks: vec![
            block(
                "SubSystem",
                "Sub",
                "2",
                vec![port("in", 1, None), port("out", 1, None)],
                Some(child_system),
                &[],
            ),
            block("Display", "Sink", "3", vec![port("in", 1, None)], None, &[]),
        ],
        lines: vec![parent_output],
    };

    let child_line = system.blocks[0]
        .subsystem
        .as_ref()
        .and_then(|child| child.lines.first())
        .cloned()
        .expect("child line");
    let resolver = ConnectionTargetResolver::new(&system);
    let targets = resolver.line_targets_for_line(&["Sub".to_string()], &child_line);

    assert_eq!(targets.len(), 1);
    assert_eq!(targets[0].signal_name.as_deref(), Some("inner_name"));
    assert!(targets[0].testpoint);
}

#[test]
fn bus_selector_uses_default_signal_name_for_unnamed_bus_input() {
    let system = System {
        properties: props(&[("Name", "model")]),
        blocks: vec![
            block("Constant", "A", "1", vec![port("out", 1, None)], None, &[]),
            block(
                "BusCreator",
                "BusCreator",
                "2",
                vec![port("in", 1, None), port("out", 1, None)],
                None,
                &[],
            ),
            block(
                "BusSelector",
                "BusSelector",
                "3",
                vec![port("in", 1, None), port("out", 1, None)],
                None,
                &[],
            ),
            block("Display", "Sink", "4", vec![port("in", 1, None)], None, &[]),
        ],
        lines: vec![
            line("1", 1, "2", 1, None),
            line("2", 1, "3", 1, None),
            line("3", 1, "4", 1, None),
        ],
    };

    let resolver = ConnectionTargetResolver::new(&system);
    let targets = resolver.line_targets_for_line(&[], &system.lines[2]);

    assert_eq!(targets.len(), 1);
    assert_eq!(targets[0].path, "model/A");
    assert_eq!(
        targets[0].resolve,
        Some(ConnectionTargetResolve::Signal("signal1".to_string()))
    );
}

#[test]
fn bus_selector_output_port_testpoint_is_visible_on_output_line() {
    let system = System {
        properties: props(&[("Name", "model")]),
        blocks: vec![
            block("Constant", "A", "1", vec![port("out", 1, None)], None, &[]),
            block(
                "BusCreator",
                "BusCreator",
                "2",
                vec![port("in", 1, None), port("out", 1, None)],
                None,
                &[],
            ),
            block(
                "BusSelector",
                "BusSelector",
                "3",
                vec![
                    port("in", 1, None),
                    testpoint_port("out", 1, Some("signal1")),
                ],
                None,
                &[],
            ),
            block("Display", "Sink", "4", vec![port("in", 1, None)], None, &[]),
        ],
        lines: vec![
            line("1", 1, "2", 1, Some("signal1")),
            line("2", 1, "3", 1, None),
            line("3", 1, "4", 1, None),
        ],
    };

    let resolver = ConnectionTargetResolver::new(&system);
    let targets = resolver.line_targets_for_line(&[], &system.lines[2]);

    assert_eq!(targets.len(), 1);
    assert!(targets[0].testpoint);
    assert_eq!(targets[0].origin, ConnectionTargetOrigin::BusSelector);
}

#[test]
fn bus_selector_output_testpoint_propagates_back_to_bus_creator_inputs() {
    let system = System {
        properties: props(&[("Name", "model")]),
        blocks: vec![
            block("Constant", "A", "1", vec![port("out", 1, None)], None, &[]),
            block(
                "BusCreator",
                "BusCreator",
                "2",
                vec![port("in", 1, None), port("out", 1, None)],
                None,
                &[],
            ),
            block(
                "BusSelector",
                "BusSelector",
                "3",
                vec![
                    port("in", 1, None),
                    testpoint_port("out", 1, Some("signal1")),
                ],
                None,
                &[],
            ),
            block("Display", "Sink", "4", vec![port("in", 1, None)], None, &[]),
        ],
        lines: vec![
            line("1", 1, "2", 1, None),
            line("2", 1, "3", 1, None),
            line("3", 1, "4", 1, None),
        ],
    };

    let resolver = ConnectionTargetResolver::new(&system);
    let upstream_targets = resolver.line_targets_for_line(&[], &system.lines[0]);
    let downstream_targets = resolver.line_targets_for_line(&[], &system.lines[2]);

    assert_eq!(upstream_targets.len(), 1);
    assert!(upstream_targets[0].testpoint);
    assert_eq!(downstream_targets.len(), 1);
    assert!(downstream_targets[0].testpoint);
}

#[test]
fn demux_output_port_testpoint_propagates_back_to_mux_input() {
    let source = block(
        "Constant",
        "Source",
        "1",
        vec![port("out", 1, None)],
        None,
        &[],
    );
    let mux = block(
        "Mux",
        "Mux",
        "2",
        vec![port("in", 1, None), port("out", 1, None)],
        None,
        &[],
    );
    let demux = block(
        "Demux",
        "Demux",
        "3",
        vec![port("in", 1, None), testpoint_port("out", 1, None)],
        None,
        &[],
    );
    let sink = block("Display", "Sink", "4", vec![port("in", 1, None)], None, &[]);

    let upstream = line("1", 1, "2", 1, None);
    let middle = line("2", 1, "3", 1, None);
    let downstream = line("3", 1, "4", 1, None);

    let system = System {
        properties: props(&[("Name", "model")]),
        blocks: vec![source, mux, demux, sink],
        lines: vec![upstream.clone(), middle, downstream.clone()],
    };

    let resolver = ConnectionTargetResolver::new(&system);
    let upstream_targets = resolver.line_targets_for_line(&[], &upstream);
    let downstream_targets = resolver.line_targets_for_line(&[], &downstream);

    assert!(upstream_targets[0].testpoint);
    assert!(downstream_targets[0].testpoint);
    assert_eq!(downstream_targets[0].origin, ConnectionTargetOrigin::Demux);
}

#[test]
fn mux_targets_use_resolve_without_element_index() {
    let system = System {
        properties: props(&[("Name", "model")]),
        blocks: vec![
            block("Constant", "A", "1", vec![port("out", 1, None)], None, &[]),
            block(
                "Mux",
                "Mux",
                "2",
                vec![port("in", 1, None), port("out", 1, None)],
                None,
                &[],
            ),
            block("Display", "Sink", "3", vec![port("in", 1, None)], None, &[]),
        ],
        lines: vec![line("1", 1, "2", 1, None), line("2", 1, "3", 1, None)],
    };

    let resolver = ConnectionTargetResolver::new(&system);
    let targets = resolver.line_targets_for_line(&[], &system.lines[1]);

    assert_eq!(targets.len(), 1);
    assert_eq!(targets[0].resolve, Some(ConnectionTargetResolve::Index(1)));
    assert_eq!(targets[0].element_index, None);
    assert_eq!(targets[0].origin, ConnectionTargetOrigin::Mux);
}

fn block(
    block_type: &str,
    name: &str,
    sid: &str,
    ports: Vec<Port>,
    subsystem: Option<System>,
    properties: &[(&str, &str)],
) -> Block {
    Block {
        block_type: block_type.to_string(),
        name: name.to_string(),
        sid: Some(sid.to_string()),
        commented: false,
        value: None,
        properties: props(properties),
        port_counts: None,
        ports,
        subsystem: subsystem.map(Box::new),
        mask: None,
        mask_display_text: None,
        current_setting: None,
        block_mirror: None,
        dashboard_binding: None,
    }
}

fn port(port_type: &str, index: u32, name: Option<&str>) -> Port {
    let mut properties = IndexMap::new();
    if let Some(name) = name {
        properties.insert("Name".to_string(), name.to_string());
    }
    Port {
        port_type: port_type.to_string(),
        index: Some(index),
        properties,
    }
}

fn propagated_port(port_type: &str, index: u32, propagated_signal: &str) -> Port {
    Port {
        port_type: port_type.to_string(),
        index: Some(index),
        properties: IndexMap::from_iter([(
            "PropagatedSignals".to_string(),
            propagated_signal.to_string(),
        )]),
    }
}

fn testpoint_port(port_type: &str, index: u32, name: Option<&str>) -> Port {
    let mut port = port(port_type, index, name);
    port.properties
        .insert("TestPoint".to_string(), "on".to_string());
    port
}

fn line(src_sid: &str, src_port: u32, dst_sid: &str, dst_port: u32, name: Option<&str>) -> Line {
    Line {
        name: name.map(str::to_string),
        src: Some(endpoint(src_sid, "out", src_port)),
        dst: Some(endpoint(dst_sid, "in", dst_port)),
        points: vec![Point { x: 0, y: 0 }, Point { x: 10, y: 0 }],
        branches: Vec::new(),
        properties: IndexMap::new(),
    }
}

fn endpoint(sid: &str, port_type: &str, port_index: u32) -> EndpointRef {
    EndpointRef {
        sid: sid.to_string(),
        port_type: port_type.to_string(),
        port_index,
    }
}

fn props(entries: &[(&str, &str)]) -> IndexMap<String, String> {
    let mut properties = IndexMap::new();
    for (key, value) in entries {
        properties.insert((*key).to_string(), (*value).to_string());
    }
    properties
}

#[test]
fn cached_resolver_answers_after_layout_only_edit() {
    let source = block("Constant", "Source", "1", vec![port("out", 1, Some("sig"))], None, &[]);
    let sink = block("Display", "Sink", "2", vec![port("in", 1, None)], None, &[]);
    let wire = line("1", 1, "2", 1, Some("sig"));
    let system = System {
        properties: props(&[("Name", "model")]),
        blocks: vec![source, sink],
        lines: vec![wire.clone()],
    };
    let resolver = ConnectionTargetResolver::new(&system);

    let mut moved = system.clone();
    moved.lines[0].points.push(Point { x: 10, y: 25 });
    assert_eq!(model_topology_signature(&moved), model_topology_signature(&system));

    let rerouted = moved.lines[0].clone();
    let reused = resolver.line_targets_for_line(&[], &rerouted);
    let fresh = ConnectionTargetResolver::new(&moved).line_targets_for_line(&[], &rerouted);
    assert!(!reused.is_empty());
    assert_eq!(reused, fresh);
}

#[test]
fn signature_sees_port_testpoints_and_names() {
    let source = block("Constant", "Source", "1", vec![port("out", 1, Some("sig"))], None, &[]);
    let sink = block("Display", "Sink", "2", vec![port("in", 1, None)], None, &[]);
    let system = System {
        properties: props(&[("Name", "model")]),
        blocks: vec![source, sink],
        lines: vec![line("1", 1, "2", 1, None)],
    };
    let mut tested = system.clone();
    tested.blocks[0].ports[0]
        .properties
        .insert("TestPoint".to_string(), "on".to_string());
    assert_ne!(model_topology_signature(&tested), model_topology_signature(&system));
    let mut renamed = system.clone();
    renamed.blocks[0].ports[0]
        .properties
        .insert("Name".to_string(), "other".to_string());
    assert_ne!(model_topology_signature(&renamed), model_topology_signature(&system));
}
