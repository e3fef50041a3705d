//! Program configuration, injected as plain values at construction time.
//!
//! One instance is built at startup and passed by reference to whoever
//! needs it; nothing here reads the environment. The cache bounds feed the
//! store cache and are required to be positive.

use vstd::prelude::*;

verus! {

/// An instance of the program configuration.
pub struct Config {
    /// Whether the server may federate with other servers.
    pub enable_federation: bool,
    /// The port the server listens on.
    pub port: u16,
    /// How long, in milliseconds, a table may sit in the cache measured
    /// from when it was inserted, before it is evicted and written back.
    pub cache_ttl: u64,
    /// How long, in milliseconds, a table may idle in the cache measured
    /// from its last access, before it is evicted and written back.
    pub cache_tti: u64,
    /// The root the stores live under, relative to which every resource
    /// key names a file. The process running the core fills this in.
    pub data_path: String,
    /// How long generated device identifiers are.
    pub device_id_length: u8,
    /// Whether account registration is open.
    pub allow_registration: bool,
}

impl Config {
    /// Whether the configuration can drive the core: both cache bounds are
    /// required and must be positive.
    pub open spec fn valid(self) -> bool {
        self.cache_ttl >= 1 && self.cache_tti >= 1
    }
}

impl Default for Config {
    /// The stock configuration: federation off, port 3000, ten seconds to
    /// live and one second to idle in the cache, sixteen-character device
    /// identifiers, registration closed.
    fn default() -> (c: Config)
        ensures
            c.enable_federation == false,
            c.port == 3000,
            c.cache_ttl == 10000,
            c.cache_tti == 1000,
            c.data_path@ == Seq::<char>::empty(),
            c.device_id_length == 16,
            c.allow_registration == false,
            c.valid(),
    {
        Config {
            enable_federation: false,
            port: 3000,
            cache_ttl: 10000,
            cache_tti: 1000,
            data_path: String::new(),
            device_id_length: 16,
            allow_registration: false,
        }
    }
}

} // verus!
