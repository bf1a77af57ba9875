//! Application configuration.
//!
//! The engine consumes a data directory for the network store and an
//! optional container-runtime socket override. Loading and saving the
//! configuration is file work and lives in the unverified shell; the shell
//! hands the engine the plain values below.

use vstd::prelude::*;

verus! {

/// Application configuration.
#[derive(Debug, Clone, PartialEq)]
pub struct Config {
    /// Data directory for the network store.
    pub data_dir: String,
    /// Container-runtime socket path override, if any.
    pub docker_socket: Option<String>,
}

impl Config {
    /// A configuration rooted at the given data directory, with no socket
    /// override.
    pub fn with_data_dir(data_dir: String) -> (r: Config)
        ensures
            r.data_dir == data_dir,
            r.docker_socket is None,
    {
        Config { data_dir, docker_socket: None }
    }
}

} // verus!
