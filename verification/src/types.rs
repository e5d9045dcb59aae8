//! Shared data model: identifiers, chunks, packets and statistics.

use vstd::prelude::*;

verus! {

/// An opaque 64-bit chunk identifier.
#[derive(Debug, Clone, Copy, PartialEq, Eq, Hash, PartialOrd, Ord, Structural)]
pub struct ChunkId(pub u64);

/// An opaque 64-bit peer identifier.
#[derive(Debug, Clone, Copy, PartialEq, Eq, Hash, PartialOrd, Ord, Structural)]
pub struct PeerId(pub u64);

/// An opaque 64-bit FEC group identifier.
#[derive(Debug, Clone, Copy, PartialEq, Eq, Hash, PartialOrd, Ord, Structural)]
pub struct FecGroupId(pub u64);

impl ChunkId {
    pub fn new(id: u64) -> (r: ChunkId)
        ensures
            r.0 == id,
    {
        ChunkId(id)
    }
}

impl PeerId {
    pub fn new(id: u64) -> (r: PeerId)
        ensures
            r.0 == id,
    {
        PeerId(id)
    }
}

impl FecGroupId {
    pub fn new(id: u64) -> (r: FecGroupId)
        ensures
            r.0 == id,
    {
        FecGroupId(id)
    }
}

/// A 64-byte Ed25519 signature.
#[derive(Debug, Clone, Copy)]
pub struct Signature(pub [u8; 64]);

impl Signature {
    pub fn from_bytes(bytes: [u8; 64]) -> (r: Signature)
        ensures
            r.0@ == bytes@,
    {
        Signature(bytes)
    }
}

/// A 32-byte Ed25519 public key.
#[derive(Debug, Clone, Copy)]
pub struct PublicKey(pub [u8; 32]);

impl PublicKey {
    pub fn from_bytes(bytes: [u8; 32]) -> (r: PublicKey)
        ensures
            r.0@ == bytes@,
    {
        PublicKey(bytes)
    }
}

/// An authenticated chunk: identifier, sequence number, capture instant in
/// Unix milliseconds, source peer, signature over the payload, the payload,
/// and the FEC group it belongs to, if any.
#[derive(Debug, Clone)]
pub struct ChunkData {
    pub id: ChunkId,
    pub sequence: u64,
    pub timestamp_ms: u64,
    pub source_peer: PeerId,
    pub signature: Signature,
    pub data: Vec<u8>,
    pub fec_group: Option<FecGroupId>,
}

/// The mathematical image of a chunk.
pub struct ChunkView {
    pub id: u64,
    pub sequence: u64,
    pub timestamp_ms: u64,
    pub source_peer: u64,
    pub signature: Seq<u8>,
    pub data: Seq<u8>,
    pub fec_group: Option<u64>,
}

impl View for ChunkData {
    type V = ChunkView;

    open spec fn view(&self) -> ChunkView {
        ChunkView {
            id: self.id.0,
            sequence: self.sequence,
            timestamp_ms: self.timestamp_ms,
            source_peer: self.source_peer.0,
            signature: self.signature.0@,
            data: self.data@,
            fec_group: match self.fec_group {
                Some(g) => Some(g.0),
                None => None,
            },
        }
    }
}

/// Counters of the chunk store.
#[derive(Debug, Clone, Default, PartialEq, Eq, Structural)]
pub struct StorageStats {
    pub size_bytes: u64,
    pub chunk_count: u64,
    pub evictions_total: u64,
    pub hits_total: u64,
    pub misses_total: u64,
}

/// Bandwidth bookkeeping for one peer.  The reliability score is carried in
/// parts per million of one, so a fresh peer starts at a full million.
#[derive(Debug, Clone, Copy, PartialEq, Eq, Structural)]
pub struct PeerStats {
    pub uploaded_bytes: u64,
    pub downloaded_bytes: u64,
    pub last_interaction_ms: Option<u64>,
    pub reliability_ppm: u32,
}

pub const RELIABILITY_FULL_PPM: u32 = 1_000_000;

/// A fresh peer's statistics.
pub open spec fn spec_default_peer_stats() -> PeerStats {
    PeerStats {
        uploaded_bytes: 0,
        downloaded_bytes: 0,
        last_interaction_ms: None,
        reliability_ppm: RELIABILITY_FULL_PPM,
    }
}

impl Default for PeerStats {
    /// A fresh peer: nothing transferred, never seen, full reliability.
    fn default() -> (r: PeerStats)
        ensures
            r == spec_default_peer_stats(),
    {
        PeerStats {
            uploaded_bytes: 0,
            downloaded_bytes: 0,
            last_interaction_ms: None,
            reliability_ppm: RELIABILITY_FULL_PPM,
        }
    }
}

/// A data packet inside an FEC group.
#[derive(Debug, Clone)]
pub struct Packet {
    pub group_id: FecGroupId,
    pub index: usize,
    pub data: Vec<u8>,
}

/// A parity packet inside an FEC group; indices range over the parity
/// count.
#[derive(Debug, Clone)]
pub struct ParityPacket {
    pub group_id: FecGroupId,
    pub index: usize,
    pub data: Vec<u8>,
}

/// A payload addressed to a peer.
#[derive(Debug, Clone)]
pub struct Message {
    pub to_peer_id: u32,
    pub data: Vec<u8>,
}

/// Where a peer can be reached.
#[derive(Debug, Clone)]
pub struct PeerAddress {
    pub peer_id: u32,
    pub host: String,
    pub port: u16,
}

} // verus!
