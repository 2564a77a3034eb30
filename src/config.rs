//! Settings of the backend, as plain values.

use vstd::prelude::*;
use core::time::Duration;

verus! {

/// The `Duration` that `Duration::from_secs` makes of a number of seconds.
pub uninterp spec fn duration_of_secs(secs: u64) -> Duration;

/// Relies on Duration::from_secs: exactly `secs` whole seconds; it never panics.
#[verifier::external_body]
fn duration_from_secs(secs: u64) -> (r: Duration)
    ensures
        r == duration_of_secs(secs),
{
    Duration::from_secs(secs)
}

pub struct DatabaseConfig {
    pub url: String,
    pub database_name: String,
    pub max_pool_size: Option<u32>,
    pub min_pool_size: Option<u32>,
}

pub struct SolanaConfig {
    pub rpc_url: String,
    pub ws_url: String,
    pub commitment: String,
    pub timeout_seconds: u64,
}

pub struct StorageConfig {
    pub pinata_api_key: Option<String>,
    pub pinata_secret_key: Option<String>,
    pub bundlr_node_url: Option<String>,
    pub bundlr_currency: Option<String>,
}

pub struct CacheConfig {
    pub max_size_mb: usize,
    pub default_ttl_seconds: u64,
    pub cleanup_interval_seconds: u64,
}

pub struct RateLimitConfig {
    pub requests_per_minute: u32,
    pub burst_size: Option<u32>,
    pub enabled: bool,
}

pub struct ServerConfig {
    pub host: String,
    pub port: u16,
    pub workers: Option<usize>,
    pub keep_alive: Option<u64>,
    pub client_timeout: Option<u64>,
}

/// All settings of the backend.
pub struct ShadowConfig {
    pub database: DatabaseConfig,
    pub solana: SolanaConfig,
    pub storage: StorageConfig,
    pub cache: CacheConfig,
    pub rate_limit: RateLimitConfig,
    pub server: ServerConfig,
}

impl ShadowConfig {
    /// How long a cache entry lives.
    pub fn get_cache_ttl(&self) -> (r: Duration)
        ensures
            r == duration_of_secs(self.cache.default_ttl_seconds),
    {
        duration_from_secs(self.cache.default_ttl_seconds)
    }

    /// How long a call to the chain may take.
    pub fn get_solana_timeout(&self) -> (r: Duration)
        ensures
            r == duration_of_secs(self.solana.timeout_seconds),
    {
        duration_from_secs(self.solana.timeout_seconds)
    }
}

} // verus!
