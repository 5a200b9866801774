//! Core of a service-supervision stack: a live dependency graph of services,
//! per-service state machines, dependency-ordered start and stop planning,
//! and hot reload of the persisted graph.
//!
//! The surrounding daemon performs the outside work (spawning children,
//! waiting on pid file descriptors, socket I/O); this crate holds the data
//! model and every decision, so that the daemon only executes what the graph
//! has resolved.

pub mod live_service;
pub mod types;
pub mod graph;
pub mod live_graph;
pub mod launch;
pub mod ctl;
pub mod ipc;
