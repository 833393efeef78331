//! Cage — the verified control plane of a multi-agent WebAssembly sandbox.
//!
//! The library holds the decisions of the runtime: how peer messages are
//! routed between agents, how the agent registry and its lifecycle evolve,
//! how a tick and a round are accounted, what a checkpoint records and how
//! the host functions answer an agent.  Running WebAssembly itself, files
//! and the network stay with the program that drives this library.

pub mod router;
pub mod ipc;
pub mod json;
pub mod orchestrator;
pub mod text;
pub mod snapshot;
pub mod sandbox;
pub mod cli;
