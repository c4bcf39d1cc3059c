//! The composition root: holds the run's configuration and selects which
//! orchestrator a run uses. Running the selected scan is the embedding
//! program's, since it owns the sockets.

use vstd::prelude::*;

use crate::config::Config;
use crate::tcp::Protocol;

verus! {

/// Which transport a configuration selects: UDP when enabled (it takes
/// precedence), otherwise TCP when enabled, otherwise nothing to scan.
pub open spec fn scan_mode_spec(c: Config) -> Option<Protocol> {
    if c.udp {
        Some(Protocol::Udp)
    } else if c.tcp {
        Some(Protocol::Tcp)
    } else {
        None
    }
}

/// The scanner a run is driven through.
pub struct Scanner {
    pub config: Config,
}

impl Scanner {
    pub fn new(config: Config) -> (s: Scanner)
        ensures
            s.config == config,
    {
        Scanner { config }
    }

    /// Selects the transport this run scans.
    pub fn mode(&self) -> (m: Option<Protocol>)
        ensures
            m == scan_mode_spec(self.config),
    {
        if self.config.udp {
            Some(Protocol::Udp)
        } else if self.config.tcp {
            Some(Protocol::Tcp)
        } else {
            None
        }
    }
}

} // verus!
