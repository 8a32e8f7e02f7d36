//! A verified core for an HTTP reverse proxy with runtime port switching.
//!
//! Incoming requests are routed to backend services by their `Host` header;
//! each service's active port can be re-pointed through a control API, with
//! an optional health-gated probe. A route may instead serve static files.
//! This crate holds the routing table, the port-switch protocol, the
//! configuration codec and the static-path resolution logic; the listeners,
//! sockets and filesystem access live outside it.

pub mod api;
pub mod cli;
pub mod codec;
pub mod config;
pub mod digits;
pub mod probe;
pub mod proxy;
pub mod state;
pub mod static_files;

use vstd::prelude::*;

verus! {

/// Default value for a health check path.
pub fn default_path() -> (r: String)
    ensures
        r@ == "/"@,
{
    "/".to_owned()
}

/// Default number of health probe attempts.
pub fn default_retry_count() -> (r: u32)
    ensures
        r == 10u32,
{
    10
}

/// Default delay in seconds between health probe attempts.
pub fn default_retry_delay() -> (r: u64)
    ensures
        r == 1u64,
{
    1
}

/// By default a port switch runs the health probe.
pub fn default_skip_health_check() -> (r: bool)
    ensures
        r == false,
{
    false
}

} // verus!
