//! Signal-target resolution and model utilities for Simulink block diagrams.

pub mod block_code;
pub mod connection_targets;
pub mod corner_ops;
pub mod dashboard;
pub mod labels;
pub mod library_paths;
pub mod line_coloring;
pub mod line_style;
pub mod live_text;
pub mod math_inputs;
pub mod model;
pub mod properties;
pub mod signal_routing;
pub mod signature;
pub mod text;
pub mod variants;
