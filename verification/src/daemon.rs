//! The daemon's own state and the choices it makes at start-up.

use vstd::prelude::*;

use crate::config::{ApiConfig, CortexConfig};

verus! {

/// The port the API listens on when none is configured.
pub const DEFAULT_API_PORT: u16 = 9723;

/// The Cortex daemon.
pub struct Daemon {
    config: CortexConfig,
}

impl Daemon {
    /// The configuration the daemon runs with.
    pub closed spec fn settings(&self) -> CortexConfig {
        self.config
    }

    pub fn new(config: CortexConfig) -> (d: Self)
        ensures
            d.settings() == config,
    {
        Self { config }
    }

    /// The configuration the daemon runs with.
    pub fn config(&self) -> (c: &CortexConfig)
        ensures
            *c == self.settings(),
    {
        &self.config
    }
}

/// The port the API listens on: the configured one, or 9723.
pub fn api_port(api: &ApiConfig) -> (p: u16)
    ensures
        p == (match api.tcp_port {
            Some(q) => q,
            None => DEFAULT_API_PORT,
        }),
{
    match api.tcp_port {
        Some(q) => q,
        None => DEFAULT_API_PORT,
    }
}

} // verus!
