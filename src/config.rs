//! Service configuration: storage engine, erasure coding, transactions,
//! caching, security, performance, logging, monitoring and search.
use std::path::PathBuf;
use std::time::Duration;
use vstd::prelude::*;
use vstd::utf8::encode_utf8;

use crate::sigv4::Credential;
use crate::text::copy_range;

verus! {

/// `std::path::PathBuf`, carried through configuration values unread.
#[verifier::external_type_specification]
#[verifier::external_body]
pub struct ExPathBuf(std::path::PathBuf);

/// Storage engine kind.
#[derive(Debug, Clone, Copy, PartialEq, Eq, Structural)]
pub enum StorageEngine {
    /// Plain file-system storage, for development.
    SimpleFs,
    /// Log-structured merge storage.
    Lsm,
    /// Sharded storage.
    Sharded,
}

/// Erasure coding.
#[derive(Debug, Clone)]
pub struct ErasureCodingConfig {
    /// Number of data shards.
    pub data_shards: usize,
    /// Number of parity shards.
    pub parity_shards: usize,
    /// Objects smaller than this are not sharded.
    pub min_shard_size: u64,
    /// Largest shard size.
    pub max_shard_size: u64,
}

/// Transactions.
#[derive(Debug)]
pub struct TransactionConfig {
    pub timeout: Duration,
    /// Whether two-phase commit is used.
    pub enable_2pc: bool,
    /// Directory of the write-ahead log.
    pub wal_path: PathBuf,
    /// Largest size of one write-ahead log file.
    pub max_wal_size: u64,
    pub isolation_level: IsolationLevel,
}

/// Transaction isolation level.
#[derive(Debug, Clone, Copy, PartialEq, Eq, Structural)]
pub enum IsolationLevel {
    ReadUncommitted,
    ReadCommitted,
    RepeatableRead,
    Serializable,
}

/// Caches, sizes in bytes.
#[derive(Debug)]
pub struct CacheConfig {
    pub metadata_cache_size: usize,
    pub data_block_cache_size: usize,
    /// Buffer in which small files are merged.
    pub merge_buffer_size: usize,
    pub merge_timeout: Duration,
}

/// Security: TLS and the access credentials of the service.
#[derive(Debug)]
pub struct SecurityConfig {
    pub enable_tls: bool,
    pub cert_path: Option<PathBuf>,
    pub key_path: Option<PathBuf>,
    pub access_key: Option<String>,
    pub secret_key: Option<String>,
    pub allow_anonymous: bool,
}

/// Performance tuning.
#[derive(Debug, Clone)]
pub struct PerformanceConfig {
    pub io_threads: usize,
    pub worker_threads: usize,
    pub max_connections: usize,
    /// Largest request body, in bytes.
    pub max_body_size: usize,
    /// Whether io_uring is used (Linux only).
    pub enable_io_uring: bool,
    /// NUMA node to run on, if any.
    pub numa_node: Option<usize>,
}

/// Logging.
#[derive(Debug)]
pub struct LogConfig {
    pub level: String,
    /// Log file; `None` logs to the console.
    pub file_path: Option<PathBuf>,
    pub max_file_size: u64,
    /// Number of log files kept.
    pub max_files: usize,
}

/// Monitoring.
#[derive(Debug)]
pub struct MonitoringConfig {
    /// Port of the metrics endpoint.
    pub metrics_port: u16,
    pub health_check_endpoint: String,
    pub profiling_interval: Duration,
}

/// Content search.
#[derive(Debug)]
pub struct SearchConfig {
    pub enable_content_search: bool,
    pub index_path: PathBuf,
    pub index_refresh_interval: Duration,
    /// File extensions that are indexed.
    pub supported_extensions: Vec<String>,
}

fn string_bytes(s: &String) -> (r: Vec<u8>)
    ensures
        r@ == encode_utf8(s@),
{
    let b = s.as_str().as_bytes();
    copy_range(b, 0, b.len())
}

impl SecurityConfig {
    /// The credential configured for the service: one entry when both the
    /// access key and the secret key are set, none otherwise.
    pub fn credentials(&self) -> (r: Vec<Credential>)
        ensures
            match (self.access_key, self.secret_key) {
                (Some(a), Some(s)) => r@.len() == 1 && r@[0].access_key@ == encode_utf8(a@)
                    && r@[0].secret_key@ == encode_utf8(s@),
                _ => r@.len() == 0,
            },
    {
        let mut r: Vec<Credential> = Vec::new();
        match (&self.access_key, &self.secret_key) {
            (Some(a), Some(s)) => {
                r.push(Credential { access_key: string_bytes(a), secret_key: string_bytes(s) });
            },
            _ => {},
        }
        r
    }
}

} // verus!
