//! Orchestration engine for ephemeral Bitcoin/Lightning development networks.
//!
//! The crate models networks of container-backed nodes (one full Bitcoin node
//! plus any number of Lightning nodes), allocates non-conflicting host ports,
//! drives the lifecycle state machine, builds the command lines issued to the
//! node daemons, parses their responses, and persists the network records.
//! The container runtime itself is driven by a thin unverified shell around
//! this library.

use vstd::prelude::*;

pub mod codec;
pub mod commands;
pub mod config;
pub mod error;
pub mod ids;
pub mod jsonrpc;
pub mod manager;
pub mod network;
pub mod node_info;
pub mod numstr;
pub mod portmap;
pub mod responses;

verus! {

/// Fixed base of the host port range handed out to nodes.
pub const PORT_RANGE_START: u16 = 20000;

/// Number of host ports reserved per node.
pub const PORT_INCREMENT: u16 = 10;

} // verus!
