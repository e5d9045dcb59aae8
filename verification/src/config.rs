//! Node configuration: the recognized options of every subsystem, with
//! validation that names the offending field.

use vstd::prelude::*;

use crate::errors::ConfigError;

verus! {

/// The node's role in the fabric.
#[derive(Debug, Clone, Copy, PartialEq, Eq, Structural)]
pub enum NodeRole {
    Edge,
    Relay,
    Origin,
}

/// The congestion controller of the transport collaborator.
#[derive(Debug, Clone, Copy, PartialEq, Eq, Structural)]
pub enum CongestionAlgo {
    BBR,
    CUBIC,
}

/// Identity of this node.
#[derive(Debug, Clone)]
pub struct NodeConfig {
    pub id: String,
    pub role: NodeRole,
}

/// Listening and control addresses.
#[derive(Debug, Clone)]
pub struct NetworkConfig {
    pub listen_addr: String,
    pub control_plane_addr: String,
}

pub const DEFAULT_MAX_CHUNK_SIZE_BYTES: usize = 10 * 1024 * 1024;

/// Options of the transport collaborator.
#[derive(Debug, Clone)]
pub struct QuicConfig {
    pub max_concurrent_connections: usize,
    pub max_streams_per_connection: u64,
    pub congestion_algorithm: CongestionAlgo,
    pub enable_gso: bool,
    pub idle_timeout_ms: u64,
    /// Cap on one received chunk, ten megabytes unless said otherwise.
    pub max_chunk_size: usize,
}

/// The default per-chunk receive cap.
pub fn default_max_chunk_size() -> (r: usize)
    ensures
        r == DEFAULT_MAX_CHUNK_SIZE_BYTES,
{
    DEFAULT_MAX_CHUNK_SIZE_BYTES
}

/// Options of the chunk store.
#[derive(Debug, Clone)]
pub struct StorageConfig {
    /// Ring capacity figure in megabytes; slots are derived from it.
    pub ring_buffer_size_mb: usize,
    pub chunk_ttl_seconds: u64,
    pub max_memory_mb: usize,
}

impl StorageConfig {
    /// The ring capacity in slots for an average chunk size in kilobytes;
    /// a zero average reads the figure as a slot count.
    pub fn calculate_capacity(&self, avg_chunk_size_kb: usize) -> (r: usize)
        requires
            self.ring_buffer_size_mb * 1024 <= usize::MAX,
        ensures
            avg_chunk_size_kb == 0 ==> r == self.ring_buffer_size_mb,
            avg_chunk_size_kb > 0 ==> r as int == self.ring_buffer_size_mb * 1024
                / avg_chunk_size_kb as int,
    {
        if avg_chunk_size_kb == 0 {
            return self.ring_buffer_size_mb;
        }
        (self.ring_buffer_size_mb * 1024) / avg_chunk_size_kb
    }
}

/// Options of the FEC engine.
#[derive(Debug, Clone)]
pub struct FecConfig {
    pub default_block_size: usize,
    pub default_parity_count: usize,
    pub adaptive: bool,
}

/// The adaptive block size for a latency budget.
pub open spec fn spec_adaptive_block(latency_budget_ms: u32) -> int {
    if latency_budget_ms <= 100 {
        8
    } else if latency_budget_ms <= 200 {
        16
    } else if latency_budget_ms <= 500 {
        32
    } else {
        64
    }
}

/// The adaptive parity count: one and a half times the expected losses
/// per block, at least two, at most half the block.
pub open spec fn spec_adaptive_parity(k: int, loss_rate_ppm: u32) -> int {
    let lost = (k * loss_rate_ppm * 3 + 1_999_999) / 2_000_000;
    if lost < 2 {
        2
    } else if lost > k / 2 {
        k / 2
    } else {
        lost
    }
}

impl FecConfig {
    /// Pick `(k, m)` for the current conditions: the defaults unless
    /// adaptive, else the latency-banded block size and the loss-driven
    /// parity count.  The loss rate is carried in parts per million of
    /// one and capped there.
    pub fn select_params(&self, latency_budget_ms: u32, loss_rate_ppm: u32) -> (r: (usize, usize))
        ensures
            !self.adaptive ==> r == (self.default_block_size, self.default_parity_count),
            self.adaptive ==> r.0 as int == spec_adaptive_block(latency_budget_ms) && r.1 as int
                == spec_adaptive_parity(
                spec_adaptive_block(latency_budget_ms),
                if loss_rate_ppm <= 1_000_000 {
                    loss_rate_ppm
                } else {
                    1_000_000
                },
            ),
    {
        if !self.adaptive {
            return (self.default_block_size, self.default_parity_count);
        }
        let block_size: usize = if latency_budget_ms <= 100 {
            8
        } else if latency_budget_ms <= 200 {
            16
        } else if latency_budget_ms <= 500 {
            32
        } else {
            64
        };
        let loss: u64 = if loss_rate_ppm <= 1_000_000 {
            loss_rate_ppm as u64
        } else {
            1_000_000
        };
        let bl: u64 = block_size as u64;
        proof {
            assert(bl * loss <= 64_000_000) by (nonlinear_arith)
                requires
                    bl <= 64,
                    loss <= 1_000_000,
            ;
        }
        let lost: u64 = (bl * loss * 3 + 1_999_999) / 2_000_000;
        let parity: usize = if lost < 2 {
            2
        } else if lost > (block_size as u64) / 2 {
            block_size / 2
        } else {
            lost as usize
        };
        (block_size, parity)
    }
}

/// Options of the peer scheduler, as carried in the node configuration.
#[derive(Debug, Clone)]
pub struct SchedulerConfig {
    pub max_upload_mbps: u64,
    pub max_download_mbps: u64,
    pub unchoke_interval_seconds: u64,
    pub regular_unchoke_count: usize,
    pub optimistic_unchoke_count: usize,
}

/// Options of chunk authentication.
#[derive(Debug, Clone)]
pub struct CryptoConfig {
    pub signature_algorithm: String,
    pub key_rotation_days: u64,
}

/// The whole node configuration.
#[derive(Debug, Clone)]
pub struct DcdnConfig {
    pub node: NodeConfig,
    pub network: NetworkConfig,
    pub quic: QuicConfig,
    pub storage: StorageConfig,
    pub fec: FecConfig,
    pub p2p: SchedulerConfig,
    pub crypto: CryptoConfig,
}

/// Every validation constraint at once.
pub open spec fn spec_config_valid(c: DcdnConfig) -> bool {
    &&& c.storage.ring_buffer_size_mb > 0
    &&& c.storage.chunk_ttl_seconds > 0
    &&& c.fec.default_block_size > 0
    &&& c.fec.default_parity_count >= 1
    &&& c.fec.default_parity_count < c.fec.default_block_size
    &&& c.p2p.regular_unchoke_count > 0
    &&& c.p2p.max_upload_mbps > 0
    &&& c.p2p.max_download_mbps > 0
    &&& c.quic.max_concurrent_connections > 0
    &&& c.quic.max_streams_per_connection > 0
    &&& c.quic.idle_timeout_ms >= 1000
}

impl DcdnConfig {
    /// The stock configuration of an edge node.
    pub fn default() -> (r: DcdnConfig)
        ensures
            r.node.role == NodeRole::Edge,
            r.quic.max_concurrent_connections == 1000,
            r.quic.max_streams_per_connection == 256,
            r.quic.congestion_algorithm == CongestionAlgo::BBR,
            r.quic.enable_gso,
            r.quic.idle_timeout_ms == 30000,
            r.quic.max_chunk_size == DEFAULT_MAX_CHUNK_SIZE_BYTES,
            r.storage.ring_buffer_size_mb == 100,
            r.storage.chunk_ttl_seconds == 120,
            r.storage.max_memory_mb == 500,
            r.fec.default_block_size == 16,
            r.fec.default_parity_count == 2,
            r.fec.adaptive,
            r.p2p.max_upload_mbps == 50,
            r.p2p.max_download_mbps == 100,
            r.p2p.unchoke_interval_seconds == 10,
            r.p2p.regular_unchoke_count == 4,
            r.p2p.optimistic_unchoke_count == 1,
            r.crypto.key_rotation_days == 30,
            spec_config_valid(r),
    {
        DcdnConfig {
            node: NodeConfig { id: "node-001".to_owned(), role: NodeRole::Edge },
            network: NetworkConfig {
                listen_addr: "0.0.0.0:4433".to_owned(),
                control_plane_addr: "control.example.com:50051".to_owned(),
            },
            quic: QuicConfig {
                max_concurrent_connections: 1000,
                max_streams_per_connection: 256,
                congestion_algorithm: CongestionAlgo::BBR,
                enable_gso: true,
                idle_timeout_ms: 30000,
                max_chunk_size: DEFAULT_MAX_CHUNK_SIZE_BYTES,
            },
            storage: StorageConfig {
                ring_buffer_size_mb: 100,
                chunk_ttl_seconds: 120,
                max_memory_mb: 500,
            },
            fec: FecConfig { default_block_size: 16, default_parity_count: 2, adaptive: true },
            p2p: SchedulerConfig {
                max_upload_mbps: 50,
                max_download_mbps: 100,
                unchoke_interval_seconds: 10,
                regular_unchoke_count: 4,
                optimistic_unchoke_count: 1,
            },
            crypto: CryptoConfig {
                signature_algorithm: "ed25519".to_owned(),
                key_rotation_days: 30,
            },
        }
    }

    /// Check every constraint, naming the first violated field.
    pub fn validate(&self) -> (r: Result<(), ConfigError>)
        ensures
            r is Ok <==> spec_config_valid(*self),
    {
        if self.storage.ring_buffer_size_mb == 0 {
            return Err(ConfigError::RingBufferSlotsZero);
        }
        if self.storage.chunk_ttl_seconds == 0 {
            return Err(ConfigError::ChunkTtlZero);
        }
        if self.fec.default_block_size == 0 {
            return Err(ConfigError::FecBlockSizeZero);
        }
        if self.fec.default_parity_count == 0 {
            return Err(ConfigError::FecParityZero);
        }
        if self.fec.default_parity_count >= self.fec.default_block_size {
            return Err(ConfigError::FecParityNotBelowBlockSize);
        }
        if self.p2p.regular_unchoke_count == 0 {
            return Err(ConfigError::RegularUnchokeCountZero);
        }
        if self.p2p.max_upload_mbps == 0 {
            return Err(ConfigError::MaxUploadZero);
        }
        if self.p2p.max_download_mbps == 0 {
            return Err(ConfigError::MaxDownloadZero);
        }
        if self.quic.max_concurrent_connections == 0 {
            return Err(ConfigError::MaxConnectionsZero);
        }
        if self.quic.max_streams_per_connection == 0 {
            return Err(ConfigError::MaxStreamsZero);
        }
        if self.quic.idle_timeout_ms < 1000 {
            return Err(ConfigError::IdleTimeoutTooSmall);
        }
        Ok(())
    }
}

} // verus!
