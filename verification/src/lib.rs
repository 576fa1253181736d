//! Verified core of a UDP shred-forwarding proxy.
//!
//! The library holds the data-plane and control-plane logic: content-addressed
//! deduplication, destination-snapshot construction, per-datagram forwarding
//! decisions, ingress backpressure planning, the heartbeat session state
//! machine, metric counters, and startup configuration validation. The
//! surrounding process (sockets, threads, signals, RPC transport) drives these
//! functions from outside.

use vstd::prelude::*;

pub mod addr;
pub mod config;
pub mod dedup;
pub mod forward;
pub mod heartbeat;
pub mod ingress;
pub mod metrics;
pub mod snapshot;
pub mod trusted;

verus! {

/// Default UDP port on which the proxy listens for shreds.
pub fn default_src_bind_port() -> (r: u16)
    ensures
        r == 20000u16,
{
    20_000
}

/// Default interval, in milliseconds, between metric reports.
pub fn default_metrics_report_interval() -> (r: u64)
    ensures
        r == 15000u64,
{
    15_000
}

} // verus!
