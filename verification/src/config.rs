//! Configuration: command-line options and the shapes read from the
//! configuration file. Loading and parsing happen at the boundary; the
//! library only holds the values and their defaults.

use std::collections::HashMap;
use vstd::prelude::*;

verus! {

/// Command-line options of the proxy binary.
pub struct CliConfig {
    /// What port the proxy should listen on.
    pub port: u16,
    /// Number of worker threads; zero means one per logical processor.
    pub workers: usize,
    /// Path to a TOML file of rpc servers.
    pub config: String,
}

impl Default for CliConfig {
    /// The options used when a flag is absent.
    fn default() -> (r: Self)
        ensures
            r.port == 8544,
            r.workers == 0,
            r.config@ == "./config/development.toml"@,
    {
        CliConfig { port: 8544, workers: 0, config: "./config/development.toml".to_owned() }
    }
}

/// Shared configuration between all backend connections.
pub struct RpcSharedConfig {
    pub chain_id: u64,
    /// Where the shared remote counter lives; hard limits are disabled
    /// when absent.
    pub rate_limit_redis: Option<String>,
    /// The per-IP rate limit for unauthenticated callers.
    pub public_rate_limit_per_minute: u32,
}

/// One backend connection as configured.
pub struct Web3ConnectionConfig {
    url: String,
    soft_limit: u32,
    hard_limit: Option<u32>,
}

impl Web3ConnectionConfig {
    pub closed spec fn spec_url(&self) -> Seq<char> {
        self.url@
    }

    pub closed spec fn spec_soft_limit(&self) -> u32 {
        self.soft_limit
    }

    pub closed spec fn spec_hard_limit(&self) -> Option<u32> {
        self.hard_limit
    }

    pub fn new(url: String, soft_limit: u32, hard_limit: Option<u32>) -> (r: Self)
        ensures
            r.spec_url() == url@,
            r.spec_soft_limit() == soft_limit,
            r.spec_hard_limit() == hard_limit,
    {
        Web3ConnectionConfig { url, soft_limit, hard_limit }
    }

    pub fn url(&self) -> (r: &String)
        ensures
            r@ == self.spec_url(),
    {
        &self.url
    }

    pub fn soft_limit(&self) -> (r: u32)
        ensures
            r == self.spec_soft_limit(),
    {
        self.soft_limit
    }

    pub fn hard_limit(&self) -> (r: Option<u32>)
        ensures
            r == self.spec_hard_limit(),
    {
        self.hard_limit
    }
}

/// The whole configuration file: shared options and the backend lists,
/// each keyed by a display name.
pub struct AppConfig {
    pub shared: RpcSharedConfig,
    pub balanced_rpcs: HashMap<String, Web3ConnectionConfig>,
    pub private_rpcs: Option<HashMap<String, Web3ConnectionConfig>>,
}

} // verus!
