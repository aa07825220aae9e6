//! The pool of HTTP connections: how it is set up.
use vstd::prelude::*;

use crate::duration::Duration;

verus! {

/// How the pool of connections is set up.
#[derive(Debug, Clone, Copy, PartialEq, Eq, Structural)]
pub struct PoolConfig {
    /// How long a connection that is not used is kept.
    pub idle_timeout: Duration,
    /// How many connections to one host are kept. `None`: no limit of this library.
    pub max_idle_per_host: Option<usize>,
    /// How often a connection is probed.
    pub tcp_keepalive: Duration,
}

impl Default for PoolConfig {
    fn default() -> (r: PoolConfig)
        ensures
            r.idle_timeout.nanos == 2_000_000_000,
            r.max_idle_per_host is None,
            r.tcp_keepalive.nanos == 60_000_000_000,
    {
        PoolConfig {
            idle_timeout: Duration::from_secs(2),
            max_idle_per_host: None,
            tcp_keepalive: Duration::from_secs(60),
        }
    }
}

} // verus!
