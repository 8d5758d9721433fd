//! The library's laws, each checked once on concrete values.

use indexmap::IndexMap;
use rustylink::block_code::{get_block_code, set_block_code};
use rustylink::connection_targets::{dedup_targets, ConnectionTarget, ConnectionTargetOrigin};
use rustylink::corner_ops::{insert_corner, merge_adjacent_corners, remove_corner};
use rustylink::line_coloring::{coloring_order, compute_line_adjacency};
use rustylink::model::{Block, EndpointRef, Line, Point};
use rustylink::text::{decimal_chars, parse_unsigned_chars};

fn target(path: &str, origin: ConnectionTargetOrigin, testpoint: bool) -> ConnectionTarget {
    ConnectionTarget {
        path: path.to_string(),
        signal_name: None,
        resolve: None,
        element_index: None,
        origin,
        signals_only: false,
        testpoint,
    }
}

fn p(x: i32, y: i32) -> Point {
    Point { x, y }
}

fn wire(src: &str, dst: &str) -> Line {
    Line {
        name: None,
        src: Some(EndpointRef { sid: src.to_string(), port_type: "out".to_string(), port_index: 1 }),
        dst: Some(EndpointRef { sid: dst.to_string(), port_type: "in".to_string(), port_index: 1 }),
        points: Vec::new(),
        branches: Vec::new(),
        properties: IndexMap::new(),
    }
}

#[test]
fn dedup_keeps_first_merges_testpoints_and_is_idempotent() {
    let targets = vec![
        target("m/B", ConnectionTargetOrigin::SourceBlock, false),
        target("m/A", ConnectionTargetOrigin::SourceBlock, false),
        target("m/B", ConnectionTargetOrigin::SourceBlock, true),
        target("m/B", ConnectionTargetOrigin::Mux, false),
    ];
    let once = dedup_targets(targets);
    assert_eq!(once.len(), 3);
    assert_eq!(once[0].path, "m/B");
    assert!(once[0].testpoint);
    assert_eq!(once[1].path, "m/A");
    assert_eq!(once[2].origin, ConnectionTargetOrigin::Mux);
    let copy: Vec<ConnectionTarget> = once.iter().map(|t| t.duplicate()).collect();
    let twice = dedup_targets(copy);
    assert_eq!(twice, once);
}

#[test]
fn decimal_numerals_parse_back() {
    for n in [0u64, 7, 10, 42, 1_234_567_890, u64::MAX] {
        let digits = decimal_chars(n);
        assert_eq!(digits.iter().collect::<String>(), n.to_string());
        assert_eq!(parse_unsigned_chars(&digits, u64::MAX), Some(n));
    }
    assert_eq!(parse_unsigned_chars(&['+', '1', '2'], 100), Some(12));
    assert_eq!(parse_unsigned_chars(&['1', '2', '3'], 100), None);
    assert_eq!(parse_unsigned_chars(&['1', 'x'], 100), None);
    assert_eq!(parse_unsigned_chars(&['+'], 100), None);
}

#[test]
fn insert_undoes_remove() {
    let before = vec![p(4, 0), p(0, 6), p(-2, 3)];
    let mut pts = before.clone();
    let removed = remove_corner(&mut pts, 1).expect("a corner at index 1");
    assert_eq!(removed, p(0, 6));
    assert_eq!(pts, vec![p(4, 0), p(-2, 9)]);
    insert_corner(&mut pts, 1, removed);
    assert_eq!(pts, before);
}

#[test]
fn merged_corners_keep_the_end_and_are_stable() {
    let start = vec![p(1, 1), p(20, 0), p(0, 1), p(0, 30), p(1, 0)];
    let end_x: i32 = start.iter().map(|q| q.x).sum();
    let end_y: i32 = start.iter().map(|q| q.y).sum();
    let mut pts = start.clone();
    merge_adjacent_corners(&mut pts, 3);
    assert_eq!(pts, vec![p(21, 1), p(0, 31), p(1, 0)]);
    assert_eq!(pts.iter().map(|q| q.x).sum::<i32>(), end_x);
    assert_eq!(pts.iter().map(|q| q.y).sum::<i32>(), end_y);
    let merged = pts.clone();
    merge_adjacent_corners(&mut pts, 3);
    assert_eq!(pts, merged);
}

#[test]
fn adjacency_is_symmetric() {
    let lines = vec![wire("1", "2"), wire("3", "2"), wire("2", "4"), wire("5", "6"), wire("6", "1")];
    let adj = compute_line_adjacency(&lines);
    for (i, row) in adj.iter().enumerate() {
        for &j in row {
            assert!(adj[j].contains(&i), "{j} should list {i}");
        }
    }
    assert_eq!(adj[0], vec![1, 2, 4]);
    assert_eq!(adj[3], vec![4]);
}

#[test]
fn block_code_reads_back_what_was_written() {
    let mut properties = IndexMap::new();
    properties.insert("Code".to_string(), "old".to_string());
    let mut block = Block {
        block_type: "MATLABFunction".to_string(),
        name: "F".to_string(),
        sid: Some("9".to_string()),
        commented: false,
        value: None,
        properties,
        port_counts: None,
        ports: Vec::new(),
        subsystem: None,
        mask: None,
        mask_display_text: None,
        current_setting: None,
        block_mirror: None,
        dashboard_binding: None,
    };
    set_block_code(&mut block, "y = 2 * u;");
    assert_eq!(get_block_code(&block), "y = 2 * u;");
    assert_eq!(block.properties.len(), 1);

    block.properties = IndexMap::new();
    block.properties.insert("A".to_string(), "1".to_string());
    block.commented = true;
    block.value = Some("v".to_string());
    set_block_code(&mut block, "z");
    let keys: Vec<&str> = block.properties.keys().map(String::as_str).collect();
    assert_eq!(keys, vec!["A", "Script"]);
    assert_eq!(get_block_code(&block), "z");
    assert!(block.commented);
    assert_eq!(block.value.as_deref(), Some("v"));
}

#[test]
fn lines_are_colored_most_connected_first() {
    let adjacency = vec![vec![2], vec![0, 2], vec![0, 1, 3], vec![2], Vec::new()];
    assert_eq!(coloring_order(&adjacency), vec![2, 1, 0, 3, 4]);
    assert!(coloring_order(&Vec::new()).is_empty());
}
