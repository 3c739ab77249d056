//! Verified core of a single-host virtual test-topology orchestrator.
//!
//! The library models the lifecycle of a small deployment of virtual
//! machine nodes: the declared topology and its on-disk record, the
//! per-node runtime handles (control port, instance identifier, process
//! id), the start/stop manager, the storage snapshot pipeline, and the
//! interactive console proxy.  Everything that touches the operating
//! system (files, sockets, processes, the terminal) lives outside this
//! crate and exchanges plain values with it.


pub mod digits;
pub mod handle;
pub mod topology;
pub mod codec;
pub mod store;
pub mod manager;
pub mod snapshot;
pub mod console;
pub mod cli;
pub mod info;
pub mod errors;
