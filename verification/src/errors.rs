//! Error kinds surfaced by the library, one enum per component.

use vstd::prelude::*;

verus! {

/// Errors of the erasure codec.
#[derive(Debug, Clone, Copy, PartialEq, Eq, Structural)]
pub enum CodecError {
    /// Fewer than `k` shards were present at reconstruction.
    InsufficientShards,
    /// Shards of unequal or zero length were handed to the codec.
    ShardLengthMismatch,
    /// The `(k, m)` parameters are out of the codec's range.
    ParamsInvalid,
}

/// Errors of the compress/encrypt/shard pipeline.
#[derive(Debug, Clone, Copy, PartialEq, Eq, Structural)]
pub enum CesError {
    /// The compressor or decompressor rejected its input.
    CompressionFailed,
    /// The AEAD tag did not match, or the ciphertext was malformed.
    CiphertextInvalid,
    /// The reconstructed buffer is shorter than its length prefix claims.
    TruncatedShardSet,
    /// Fewer than `k` shards were present at reconstruction.
    InsufficientShards,
}

/// Errors of the chunk store.
#[derive(Debug, Clone, Copy, PartialEq, Eq, Structural)]
pub enum StoreError {
    /// A store cannot be created with zero slots.
    CapacityZero,
}

/// Errors of the FEC engine.
#[derive(Debug, Clone, Copy, PartialEq, Eq, Structural)]
pub enum FecError {
    /// The group's `(k, m)` shape is not usable.
    GroupSizeInvalid,
    /// Fewer packets than `k` were received for the group.
    InsufficientPackets,
    /// The codec could not materialize every missing data slot.
    ReconstructionIncomplete,
}

/// Errors of the peer scheduler.
#[derive(Debug, Clone, Copy, PartialEq, Eq, Structural)]
pub enum P2pError {
    /// The requesting peer is not in the current unchoke set.
    PeerChoked,
    /// The peer has no statistics entry.
    PeerUnknown,
}

/// Errors of the chunk authenticator.
#[derive(Debug, Clone, Copy, PartialEq, Eq, Structural)]
pub enum VerifierError {
    /// No trusted public key is registered for the source peer.
    KeyUnknown,
}

/// Errors of secret sharing.
#[derive(Debug, Clone, Copy, PartialEq, Eq, Structural)]
pub enum DkgError {
    /// The threshold must be between 1 and the share count.
    InvalidThreshold,
    /// Two of the shares handed in carry the same index.
    DuplicateShare,
    /// Fewer shares than the threshold were handed in.
    InsufficientShares,
    /// Zero has no multiplicative inverse in GF(256).
    NonInvertible,
}

/// Errors of the resource meter.
#[derive(Debug, Clone, Copy, PartialEq, Eq, Structural)]
pub enum MeteringError {
    /// Memory accounting passed the configured cap.
    MemoryLimitExceeded { used: u64, limit: u64 },
    /// Cycle accounting passed the configured cap.
    CpuLimitExceeded { used: u64, limit: u64 },
    /// Wall-clock accounting passed the configured cap.
    TimeLimitExceeded { elapsed: u64, limit: u64 },
    /// The interrupt flag was set.
    Interrupted,
}

/// Errors of the compute sandbox and executor.
#[derive(Debug, Clone, Copy, PartialEq, Eq, Structural)]
pub enum ComputeError {
    /// The module does not begin with the WASM magic and version.
    ModuleInvalid,
    /// The input is larger than the sandbox memory cap.
    InputTooLarge,
    /// The requested function is none of split, execute and merge.
    UnknownFunction,
    /// A split/merge frame is truncated or malformed.
    FrameInvalid,
    /// The encrypted I/O tunnel rejected a ciphertext.
    TunnelRejected,
    /// A leaf index lies outside the Merkle tree.
    MerkleLeafOutOfRange,
    /// Sandboxed execution is not available and simulation is off.
    ExecutionUnavailable,
}

/// Errors of configuration validation, naming the offending field.
#[derive(Debug, Clone, Copy, PartialEq, Eq, Structural)]
pub enum ConfigError {
    RingBufferSlotsZero,
    ChunkTtlZero,
    FecBlockSizeZero,
    FecParityZero,
    FecParityNotBelowBlockSize,
    RegularUnchokeCountZero,
    MaxUploadZero,
    MaxDownloadZero,
    MaxConnectionsZero,
    MaxStreamsZero,
    IdleTimeoutTooSmall,
}

} // verus!
