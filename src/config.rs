//! Server settings with their defaults, and the eviction policies.
use vstd::prelude::*;

use crate::foreign::{lower_of, lowercase};

verus! {

/// What the cache does when a write would exceed its memory budget.
#[derive(Debug, Clone, Copy, PartialEq, Eq, Structural)]
pub enum EvictionPolicy {
    NoEviction,
    AllKeysLru,
    AllKeysRandom,
}

/// The policy that an already lower-cased policy name selects; names that are
/// not known select approximate LRU.
pub open spec fn policy_named(s: Seq<char>) -> EvictionPolicy {
    if s == "allkeys-random"@ {
        EvictionPolicy::AllKeysRandom
    } else if s == "noeviction"@ {
        EvictionPolicy::NoEviction
    } else {
        EvictionPolicy::AllKeysLru
    }
}

/// The configuration name of a policy.
pub open spec fn policy_name(p: EvictionPolicy) -> Seq<char> {
    match p {
        EvictionPolicy::NoEviction => "noeviction"@,
        EvictionPolicy::AllKeysLru => "allkeys-lru"@,
        EvictionPolicy::AllKeysRandom => "allkeys-random"@,
    }
}

impl EvictionPolicy {
    /// Reads a policy name, ignoring case; unknown names select `AllKeysLru`.
    pub fn from_str(s: &str) -> (r: Self)
        ensures
            r == policy_named(lower_of(s@)),
    {
        let lowered = lowercase(s);
        Self::from_lowercase(lowered.as_str())
    }

    /// Reads a policy name that is already in lower case.
    pub fn from_lowercase(s: &str) -> (r: Self)
        ensures
            r == policy_named(s@),
    {
        let owned = s.to_owned();
        if owned == "allkeys-random".to_owned() {
            EvictionPolicy::AllKeysRandom
        } else if owned == "noeviction".to_owned() {
            EvictionPolicy::NoEviction
        } else {
            EvictionPolicy::AllKeysLru
        }
    }

    /// The configuration name of the policy.
    pub fn as_str(&self) -> (r: &'static str)
        ensures
            r@ == policy_name(*self),
    {
        match self {
            EvictionPolicy::NoEviction => "noeviction",
            EvictionPolicy::AllKeysLru => "allkeys-lru",
            EvictionPolicy::AllKeysRandom => "allkeys-random",
        }
    }
}


fn default_bind() -> (r: String)
    ensures
        r@ == "127.0.0.1"@,
{
    "127.0.0.1".to_owned()
}

fn default_port() -> (r: u16)
    ensures
        r == 6379,
{
    6379
}

fn default_num_shards() -> (r: usize)
    ensures
        r == 256,
{
    256
}

fn default_batch_size() -> (r: usize)
    ensures
        r == 16,
{
    16
}

fn default_buffer_size() -> (r: usize)
    ensures
        r == 16384,
{
    16 * 1024
}

fn default_buffer_pool_size() -> (r: usize)
    ensures
        r == 1024,
{
    1024
}

fn default_max_connections() -> (r: usize)
    ensures
        r == 10000,
{
    10000
}

fn default_connection_timeout() -> (r: u64)
    ensures
        r == 300,
{
    300
}

fn default_log_level() -> (r: String)
    ensures
        r@ == "info"@,
{
    "info".to_owned()
}

fn default_log_format() -> (r: String)
    ensures
        r@ == "text"@,
{
    "text".to_owned()
}

fn default_true() -> (r: bool)
    ensures
        r,
{
    true
}

fn default_tcp_keepalive() -> (r: u64)
    ensures
        r == 60,
{
    60
}

fn default_eviction_policy() -> (r: String)
    ensures
        r@ == "allkeys-lru"@,
{
    "allkeys-lru".to_owned()
}

fn default_eviction_sample_size() -> (r: usize)
    ensures
        r == 5,
{
    5
}

/// Listener and connection settings.
#[derive(Debug, Clone)]
pub struct ServerConfig {
    pub bind: String,
    pub port: u16,
    pub num_shards: usize,
    pub batch_size: usize,
    pub buffer_size: usize,
    /// Accepted and not used.
    pub buffer_pool_size: usize,
    /// 0 means unlimited.
    pub max_connections: usize,
    /// Reserved, in seconds.
    pub connection_timeout: u64,
    /// New connections per second; 0 means unlimited.
    pub connection_rate_limit: u64,
    /// Port of the health-check endpoint; 0 disables it.
    pub health_check_port: u16,
}

impl Default for ServerConfig {
    fn default() -> (r: Self)
        ensures
            r.bind@ == "127.0.0.1"@,
            r.port == 6379,
            r.num_shards == 256,
            r.batch_size == 16,
            r.buffer_size == 16384,
            r.buffer_pool_size == 1024,
            r.max_connections == 10000,
            r.connection_timeout == 300,
            r.connection_rate_limit == 0,
            r.health_check_port == 0,
    {
        ServerConfig {
            bind: default_bind(),
            port: default_port(),
            num_shards: default_num_shards(),
            batch_size: default_batch_size(),
            buffer_size: default_buffer_size(),
            buffer_pool_size: default_buffer_pool_size(),
            max_connections: default_max_connections(),
            connection_timeout: default_connection_timeout(),
            connection_rate_limit: 0,
            health_check_port: 0,
        }
    }
}

/// Password and TLS settings.
#[derive(Debug, Clone)]
pub struct SecurityConfig {
    /// Empty when no password is required.
    pub password: String,
    pub tls_enabled: bool,
    pub tls_cert_path: String,
    pub tls_key_path: String,
}

impl Default for SecurityConfig {
    fn default() -> (r: Self)
        ensures
            r.password@ == Seq::<char>::empty(),
            !r.tls_enabled,
            r.tls_cert_path@ == Seq::<char>::empty(),
            r.tls_key_path@ == Seq::<char>::empty(),
    {
        SecurityConfig {
            password: String::new(),
            tls_enabled: false,
            tls_cert_path: String::new(),
            tls_key_path: String::new(),
        }
    }
}

/// Logging settings.
#[derive(Debug, Clone)]
pub struct LoggingConfig {
    pub level: String,
    pub format: String,
}

impl Default for LoggingConfig {
    fn default() -> (r: Self)
        ensures
            r.level@ == "info"@,
            r.format@ == "text"@,
    {
        LoggingConfig { level: default_log_level(), format: default_log_format() }
    }
}

/// Socket settings.
#[derive(Debug, Clone)]
pub struct PerformanceConfig {
    pub tcp_nodelay: bool,
    /// Reserved, in seconds.
    pub tcp_keepalive: u64,
}

impl Default for PerformanceConfig {
    fn default() -> (r: Self)
        ensures
            r.tcp_nodelay,
            r.tcp_keepalive == 60,
    {
        PerformanceConfig { tcp_nodelay: default_true(), tcp_keepalive: default_tcp_keepalive() }
    }
}

/// Memory budget settings.
#[derive(Debug, Clone)]
pub struct MemoryConfig {
    /// Bytes; 0 means unbounded.
    pub max_memory: u64,
    /// A policy name, read by `EvictionPolicy::from_str`.
    pub eviction_policy: String,
    pub eviction_sample_size: usize,
}

impl Default for MemoryConfig {
    fn default() -> (r: Self)
        ensures
            r.max_memory == 0,
            r.eviction_policy@ == "allkeys-lru"@,
            r.eviction_sample_size == 5,
    {
        MemoryConfig {
            max_memory: 0,
            eviction_policy: default_eviction_policy(),
            eviction_sample_size: default_eviction_sample_size(),
        }
    }
}

/// The whole configuration.
#[derive(Debug, Clone)]
pub struct Config {
    pub server: ServerConfig,
    pub security: SecurityConfig,
    pub logging: LoggingConfig,
    pub performance: PerformanceConfig,
    pub memory: MemoryConfig,
}

impl Default for Config {
    fn default() -> (r: Self)
        ensures
            r.server.bind@ == "127.0.0.1"@,
            r.server.port == 6379,
            r.server.num_shards == 256,
            r.server.batch_size == 16,
            r.server.buffer_size == 16384,
            r.server.max_connections == 10000,
            r.server.connection_rate_limit == 0,
            r.server.health_check_port == 0,
            r.security.password@ == Seq::<char>::empty(),
            !r.security.tls_enabled,
            r.logging.level@ == "info"@,
            r.performance.tcp_nodelay,
            r.memory.max_memory == 0,
            r.memory.eviction_policy@ == "allkeys-lru"@,
            r.memory.eviction_sample_size == 5,
    {
        Config {
            server: ServerConfig::default(),
            security: SecurityConfig::default(),
            logging: LoggingConfig::default(),
            performance: PerformanceConfig::default(),
            memory: MemoryConfig::default(),
        }
    }
}


/// Applies the environment's overrides to a loaded configuration: a
/// password, a port (when it was given as a number), and a bind address.
/// Everything else is kept.
pub fn apply_overrides(
    config: &mut Config,
    password: Option<String>,
    port: Option<u16>,
    bind: Option<String>,
)
    ensures
        final(config).security.password == (match password {
            Some(p) => p,
            None => old(config).security.password,
        }),
        final(config).server.port == (match port {
            Some(p) => p,
            None => old(config).server.port,
        }),
        final(config).server.bind == (match bind {
            Some(b) => b,
            None => old(config).server.bind,
        }),
        final(config).server.num_shards == old(config).server.num_shards,
        final(config).server.batch_size == old(config).server.batch_size,
        final(config).server.buffer_size == old(config).server.buffer_size,
        final(config).server.buffer_pool_size == old(config).server.buffer_pool_size,
        final(config).server.max_connections == old(config).server.max_connections,
        final(config).server.connection_timeout == old(config).server.connection_timeout,
        final(config).server.connection_rate_limit == old(config).server.connection_rate_limit,
        final(config).server.health_check_port == old(config).server.health_check_port,
        final(config).security.tls_enabled == old(config).security.tls_enabled,
        final(config).security.tls_cert_path == old(config).security.tls_cert_path,
        final(config).security.tls_key_path == old(config).security.tls_key_path,
        final(config).logging == old(config).logging,
        final(config).performance == old(config).performance,
        final(config).memory == old(config).memory,
{
    if let Some(p) = password {
        config.security.password = p;
    }
    if let Some(p) = port {
        config.server.port = p;
    }
    if let Some(b) = bind {
        config.server.bind = b;
    }
}

} // verus!
