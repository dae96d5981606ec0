//! An in-memory key-value cache: a sharded keyspace with expiry, the wire
//! codec of its request/response protocol, the command executor, and the
//! admission and eviction rules around them.
use vstd::prelude::*;

pub mod admission;
pub mod command;
pub mod config;
pub mod eviction;
pub mod foreign;
pub mod laws;
pub mod resp;
pub mod store;
pub mod text;

pub use admission::Admission;
pub use bytes::Bytes;
pub use command::{
    classify, eq_ignore_case_3, eq_ignore_case_6, execute_command, CommandKind, ConnectionState,
    ServerContext,
};
pub use config::{
    Config, EvictionPolicy, LoggingConfig, MemoryConfig, PerformanceConfig, SecurityConfig,
    ServerConfig,
};
pub use eviction::{entry_size, evict_if_needed, evict_lru, evict_random};
pub use foreign::get_timestamp;
pub use resp::{flush_due, RespParser, RespWriter};
pub use store::{get_uptime_seconds, Entry, MemoryLimits, ShardedStore};
pub use text::{format_bytes, health_text, info_text, HealthStats, InfoStats};

verus! {

} // verus!
