//! Configuration for the TCP listener front end.
//!
//! All durations in this crate are plain millisecond counts; the
//! unverified event loop converts them to real timer values.

use vstd::prelude::*;
use std::sync::Arc;

verus! {

/// Tunables shared by the listener service.
///
/// Build one with [`Config::new`], adjust it with the setters and freeze
/// it with [`Config::done`].
#[derive(Clone, Copy, Debug)]
pub struct Config {
    /// Cool-down after a severe accept error, in milliseconds.
    pub retry_interval: u64,
    /// Cap on concurrently running per-connection tasks.
    pub max_connections: usize,
}

impl Config {
    /// New configuration builder
    ///
    /// Be sure to set at least `max_connections`.
    pub fn new() -> (c: Config)
        ensures
            c == (Config { retry_interval: 200u64, max_connections: 1000usize }),
    {
        Config { retry_interval: 200, max_connections: 1000 }
    }

    /// Amount of time to delay accepting new connections if a fatal error
    /// occurs, in milliseconds.
    ///
    /// A fatal error is something that probably blocks the application's
    /// ability to accept new connections, such as the connection limit
    /// being exceeded.  Sleeping gives other network subsystems a chance
    /// to free some resources.  Default value is 200 ms.
    pub fn fatal_error_retry_interval(&mut self, value: u64) -> (r: &mut Config)
        ensures
            *r == (Config { retry_interval: value, max_connections: old(self).max_connections }),
            *final(self) == *final(r),
    {
        self.retry_interval = value;
        self
    }

    /// Maximum number of simultaneous connections open.
    ///
    /// Once the limit is reached the service simply stops accepting new
    /// connections until a running one finishes.
    pub fn max_connections(&mut self, conn: usize) -> (r: &mut Config)
        ensures
            *r == (Config { retry_interval: old(self).retry_interval, max_connections: conn }),
            *final(self) == *final(r),
    {
        self.max_connections = conn;
        self
    }

    /// Finish building the config and wrap it into an `Arc`.
    pub fn done(&mut self) -> (r: Arc<Config>)
        ensures
            r == *old(self),
            *final(self) == *old(self),
    {
        Arc::new(*self)
    }
}

} // verus!
