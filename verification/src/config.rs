//! Startup configuration validation.
//!
//! The process refuses to start on a configuration that could never forward
//! anything: discovery must be configured with both its URL and its port or
//! not at all, at least one source of destinations must exist, and a session
//! that heartbeats to the block engine needs at least one region.

use vstd::prelude::*;

verus! {

/// A fatal configuration error, found before any thread starts.
#[derive(Clone, Copy, Debug, PartialEq, Eq, Structural)]
pub enum ConfigError {
    /// The discovery URL and the discovered-endpoints port were not supplied
    /// together.
    DiscoveryPairIncomplete,
    /// Neither static destinations nor discovery was supplied.
    NoDestinations,
    /// Heartbeat mode with an empty region list.
    NoRegions,
}

/// The first startup rule a configuration violates, if any: discovery URL
/// and port together or not at all; then at least one destination source;
/// then, when the heartbeat runs, a non-empty region list.
pub open spec fn spec_validate(
    has_discovery_url: bool,
    has_discovered_port: bool,
    static_dest_count: int,
    region_count: int,
    heartbeat_mode: bool,
) -> Result<(), ConfigError> {
    if has_discovery_url != has_discovered_port {
        Err(ConfigError::DiscoveryPairIncomplete)
    } else if !has_discovery_url && static_dest_count == 0 {
        Err(ConfigError::NoDestinations)
    } else if heartbeat_mode && region_count == 0 {
        Err(ConfigError::NoRegions)
    } else {
        Ok(())
    }
}

/// Checks the startup rules; `Ok` exactly when every rule holds.
pub fn validate_config(
    has_discovery_url: bool,
    has_discovered_port: bool,
    static_dest_count: usize,
    region_count: usize,
    heartbeat_mode: bool,
) -> (r: Result<(), ConfigError>)
    ensures
        r == spec_validate(
            has_discovery_url,
            has_discovered_port,
            static_dest_count as int,
            region_count as int,
            heartbeat_mode,
        ),
        r is Ok <==> (has_discovery_url == has_discovered_port && (has_discovery_url
            || static_dest_count > 0) && (!heartbeat_mode || region_count > 0)),
{
    if has_discovery_url != has_discovered_port {
        Err(ConfigError::DiscoveryPairIncomplete)
    } else if !has_discovery_url && static_dest_count == 0 {
        Err(ConfigError::NoDestinations)
    } else if heartbeat_mode && region_count == 0 {
        Err(ConfigError::NoRegions)
    } else {
        Ok(())
    }
}

} // verus!
