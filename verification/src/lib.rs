//! A multi-connection manager for an MQTT client: a keyed registry of broker
//! sessions, a per-session receive-loop state machine, an ordered event
//! intake queue, and a reconciler that diffs desired against current
//! subscription sets.

pub mod broker;
pub mod config;
pub mod events;
pub mod manager;
pub mod rxloop;
pub mod reconcile;
pub mod session;
pub mod store;
