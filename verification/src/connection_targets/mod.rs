//! Resolution of the Simulink paths a block or line is connected to.
//!
//! `target` holds the resolved target and its de-duplication, `metadata` the
//! names, test points and resolve hints carried along a line, `graph` and
//! `topology` the lookups in the model, `routing` what the signal-routing
//! blocks forward, `propagation` the targets a line starts with and the
//! metadata laid onto them, `ports` and `boundary` what crosses subsystem
//! boundaries, `sweep` the fixpoint over one system's lines, and `resolver`
//! the traversal of the whole model with its caches.

pub mod boundary;
pub mod graph;
pub mod metadata;
pub mod ports;
pub mod propagation;
pub mod resolver;
pub mod routing;
pub mod sweep;
pub mod target;
pub mod topology;

pub use target::{
    dedup_targets, ConnectionTarget, ConnectionTargetOrigin, ConnectionTargetResolve,
};
