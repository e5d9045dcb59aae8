//! Tests of the streaming fabric: configuration, the chunk store, the
//! FEC engine, the authenticator and the peer scheduler.

use ed25519_dalek::Signer;

use pangea_ces::auth::{SignatureVerifier, VerificationBatch};
use pangea_ces::config::{DcdnConfig, FecConfig};
use pangea_ces::errors::{ConfigError, P2pError, StoreError, VerifierError};
use pangea_ces::fec::{FecAlgorithm, FecEngine, FecEngineConfig, FecGroup};
use pangea_ces::p2p::{P2PConfig, P2PEngine};
use pangea_ces::store::ChunkStore;
use pangea_ces::types::{ChunkData, ChunkId, FecGroupId, Packet, PeerId, PublicKey, Signature};

fn create_test_chunk(id: u64, data: Vec<u8>) -> ChunkData {
    ChunkData {
        id: ChunkId(id),
        sequence: id,
        timestamp_ms: 1_000_000,
        source_peer: PeerId(1),
        signature: Signature([0u8; 64]),
        data,
        fec_group: None,
    }
}

#[test]
fn test_default_config_valid() {
    let config = DcdnConfig::default();
    assert!(config.validate().is_ok());
}

#[test]
fn test_dcdn_config_default() {
    let config = DcdnConfig::default();
    assert!(config.validate().is_ok());
    assert_eq!(config.storage.ring_buffer_size_mb, 100);
    assert_eq!(config.fec.default_block_size, 16);
    assert_eq!(config.p2p.regular_unchoke_count, 4);
}

#[test]
fn test_dcdn_config_validation() {
    let mut config = DcdnConfig::default();

    config.storage.ring_buffer_size_mb = 0;
    assert!(config.validate().is_err());

    config.storage.ring_buffer_size_mb = 100;
    config.fec.default_parity_count = 16;
    assert!(config.validate().is_err());

    config.fec.default_parity_count = 2;
    config.p2p.regular_unchoke_count = 0;
    assert!(config.validate().is_err());
}

#[test]
fn test_zero_parity_rejected() {
    let mut config = DcdnConfig::default();
    config.fec.default_parity_count = 0;
    assert_eq!(config.validate().unwrap_err(), ConfigError::FecParityZero);
}

#[test]
fn test_fec_adaptive_params() {
    let config = FecConfig { default_block_size: 16, default_parity_count: 2, adaptive: true };

    let (block, parity) = config.select_params(50, 10_000);
    assert_eq!(block, 8);
    assert!(parity >= 2);

    let (block, parity) = config.select_params(200, 200_000);
    assert_eq!(block, 16);
    assert!(parity > 2);
}

#[test]
fn test_fec_config_adaptive_params() {
    let fec_config = FecConfig { default_block_size: 16, default_parity_count: 2, adaptive: true };

    let (block, parity) = fec_config.select_params(50, 10_000);
    assert!(block > 0);
    assert!(parity >= 2);

    let (block2, _) = fec_config.select_params(300, 10_000);
    assert!(block2 >= block);

    let (_, parity2) = fec_config.select_params(200, 50_000);
    assert!(parity2 >= parity);
}

#[test]
fn test_insert_and_get() {
    let mut store = ChunkStore::new(10, 120_000).unwrap();
    let chunk = create_test_chunk(1, vec![1, 2, 3, 4]);

    store.insert(chunk.clone()).unwrap();

    let retrieved = store.get(&ChunkId(1)).unwrap();
    assert_eq!(retrieved.id, ChunkId(1));
    assert_eq!(retrieved.data, vec![1, 2, 3, 4]);
}

#[test]
fn test_eviction() {
    let mut store = ChunkStore::new(3, 120_000).unwrap();

    for i in 0..5 {
        let chunk = create_test_chunk(i, vec![i as u8]);
        store.insert(chunk).unwrap();
    }

    assert!(store.get(&ChunkId(0)).is_none());
    assert!(store.get(&ChunkId(1)).is_none());

    assert!(store.get(&ChunkId(2)).is_some());
    assert!(store.get(&ChunkId(3)).is_some());
    assert!(store.get(&ChunkId(4)).is_some());
}

#[test]
fn test_ring_eviction_counts() {
    // capacity 3, ids 0..=4 with one-byte payloads: two evictions, the
    // first two ids gone, hits and misses counted by the lookups
    let mut store = ChunkStore::new(3, 60_000).unwrap();
    for i in 0..5u64 {
        store.insert(create_test_chunk(i, vec![i as u8])).unwrap();
    }
    assert!(store.get(&ChunkId(0)).is_none());
    assert!(store.get(&ChunkId(1)).is_none());
    assert!(store.get(&ChunkId(2)).is_some());
    assert!(store.get(&ChunkId(3)).is_some());
    assert!(store.get(&ChunkId(4)).is_some());
    let stats = store.stats();
    assert_eq!(stats.evictions_total, 2);
    assert_eq!(stats.chunk_count, 3);
    assert_eq!(stats.hits_total, 3);
    assert_eq!(stats.misses_total, 2);
}

#[test]
fn test_expired_chunks() {
    let mut store = ChunkStore::new(10, 10).unwrap();

    let chunk = create_test_chunk(1, vec![1, 2, 3]);
    store.insert(chunk).unwrap();

    let expired = store.list_expired(1_000_020);
    assert_eq!(expired.len(), 1);
    assert_eq!(expired[0], ChunkId(1));
}

#[test]
fn test_expiry_boundary() {
    // TTL 60 s: a chunk from instant 1_000_000 expires strictly after
    // 1_060_000, and eviction clears exactly the expired ids
    let mut store = ChunkStore::new(4, 60_000).unwrap();
    store.insert(create_test_chunk(1, vec![1])).unwrap();
    let mut late = create_test_chunk(2, vec![2]);
    late.timestamp_ms = 1_100_000;
    store.insert(late).unwrap();

    assert_eq!(store.list_expired(1_060_000).len(), 0);
    let expired = store.list_expired(1_060_001);
    assert_eq!(expired, vec![ChunkId(1)]);

    let removed = store.evict_expired(1_060_001);
    assert_eq!(removed, 1);
    assert!(store.get(&ChunkId(1)).is_none());
    assert!(store.get(&ChunkId(2)).is_some());
}

#[test]
fn test_stats() {
    let mut store = ChunkStore::new(10, 120_000).unwrap();

    let chunk = create_test_chunk(1, vec![1, 2, 3, 4, 5]);
    store.insert(chunk).unwrap();

    let stats = store.stats();
    assert_eq!(stats.chunk_count, 1);
    assert_eq!(stats.size_bytes, 5);
}

#[test]
fn test_chunk_store_operations() {
    let mut store = ChunkStore::new(10, 120_000).unwrap();

    for i in 0..5 {
        let chunk = create_test_chunk(i, vec![0u8; 100]);
        assert!(store.insert(chunk).is_ok());
    }

    for i in 0..5 {
        let chunk = store.get(&ChunkId(i));
        assert!(chunk.is_some());
        assert_eq!(chunk.unwrap().id, ChunkId(i));
    }

    let stats = store.stats();
    assert_eq!(stats.chunk_count, 5);
    assert!(stats.size_bytes > 0);
}

#[test]
fn test_chunk_store_eviction() {
    let mut store = ChunkStore::new(3, 120_000).unwrap();

    for i in 0..5 {
        let chunk = create_test_chunk(i, vec![0u8; 100]);
        store.insert(chunk).unwrap();
    }

    assert!(store.get(&ChunkId(0)).is_none());
    assert!(store.get(&ChunkId(1)).is_none());

    assert!(store.get(&ChunkId(2)).is_some());
    assert!(store.get(&ChunkId(3)).is_some());
    assert!(store.get(&ChunkId(4)).is_some());
}

#[test]
fn test_store_rejects_zero_capacity() {
    assert!(matches!(ChunkStore::new(0, 1000), Err(StoreError::CapacityZero)));
}

#[test]
fn test_reinsert_same_id_keeps_accounting() {
    let mut store = ChunkStore::new(4, 60_000).unwrap();
    store.insert(create_test_chunk(7, vec![1, 2, 3])).unwrap();
    store.insert(create_test_chunk(7, vec![4, 5])).unwrap();
    let stats = store.stats();
    assert_eq!(stats.chunk_count, 1);
    assert_eq!(stats.size_bytes, 2);
    assert_eq!(store.get(&ChunkId(7)).unwrap().data, vec![4, 5]);
}

fn create_test_packets(group_id: FecGroupId, count: usize) -> Vec<Packet> {
    (0..count)
        .map(|i| Packet { group_id, index: i, data: vec![i as u8; 100] })
        .collect()
}

#[test]
fn test_encode() {
    let config = FecEngineConfig {
        block_size: 8,
        parity_count: 2,
        algorithm: FecAlgorithm::ReedSolomon,
    };
    let engine = FecEngine::new(config.clone());

    let packets = create_test_packets(FecGroupId(1), 8);
    let parity = engine.encode(&packets, &config).unwrap();

    assert_eq!(parity.len(), 2);
}

#[test]
fn test_recovery() {
    let config = FecEngineConfig {
        block_size: 8,
        parity_count: 2,
        algorithm: FecAlgorithm::ReedSolomon,
    };
    let engine = FecEngine::new(config.clone());

    let packets = create_test_packets(FecGroupId(1), 8);
    let parity = engine.encode(&packets, &config).unwrap();

    let mut group = FecGroup::new(FecGroupId(1), 8, 2);
    for (i, packet) in packets.iter().enumerate() {
        if i != 3 && i != 7 {
            group.data_packets[i] = Some(packet.clone());
            group.received_count += 1;
        }
    }
    group.parity_packets = parity;
    group.received_count += 2;

    assert!(engine.can_recover(&group));

    let recovered = engine.decode(&group).unwrap();
    assert_eq!(recovered.len(), 2);
}

#[test]
fn test_fec_encode_decode() {
    let config = FecEngineConfig {
        block_size: 8,
        parity_count: 2,
        algorithm: FecAlgorithm::ReedSolomon,
    };
    let engine = FecEngine::new(config.clone());

    let mut packets = Vec::new();
    for i in 0..8 {
        packets.push(Packet { group_id: FecGroupId(1), index: i, data: vec![i as u8; 100] });
    }

    let parity = engine.encode(&packets, &config).unwrap();
    assert_eq!(parity.len(), 2);

    let mut group = FecGroup::new(FecGroupId(1), 8, 2);
    for (i, packet) in packets.iter().enumerate() {
        if i != 3 && i != 7 {
            group.data_packets[i] = Some(packet.clone());
            group.received_count += 1;
        }
    }
    group.parity_packets = parity;
    group.received_count += 2;

    assert!(engine.can_recover(&group));

    let recovered = engine.decode(&group).unwrap();
    assert_eq!(recovered.len(), 2);
    // the recovered packets carry exactly the dropped originals, bytewise
    assert_eq!(recovered[0].index, 3);
    assert_eq!(recovered[0].data, vec![3u8; 100]);
    assert_eq!(recovered[1].index, 7);
    assert_eq!(recovered[1].data, vec![7u8; 100]);
}

#[test]
fn test_fec_insufficient_packets() {
    let config = FecEngineConfig {
        block_size: 8,
        parity_count: 2,
        algorithm: FecAlgorithm::ReedSolomon,
    };
    let engine = FecEngine::new(config.clone());
    let group = FecGroup::new(FecGroupId(1), 8, 2);
    assert!(!engine.can_recover(&group));
    assert!(engine.decode(&group).is_err());
}

#[test]
fn test_fec_group_gathering() {
    let config = FecEngineConfig {
        block_size: 4,
        parity_count: 2,
        algorithm: FecAlgorithm::ReedSolomon,
    };
    let mut engine = FecEngine::new(config);
    let gid = FecGroupId(9);
    engine.add_packet(Packet { group_id: gid, index: 0, data: vec![1] }).unwrap();
    engine.add_packet(Packet { group_id: gid, index: 0, data: vec![2] }).unwrap();
    let group = engine.get_group(&gid).unwrap();
    // first writer wins on a duplicate index
    assert_eq!(group.data_packets[0].as_ref().unwrap().data, vec![1]);
    assert_eq!(group.received_count, 1);
    engine.remove_group(&gid);
    assert!(engine.get_group(&gid).is_none());
}

#[test]
fn test_verifier_creation() {
    let verifier = SignatureVerifier::new();
    assert_eq!(verifier.trusted_key_count(), 0);
}

#[test]
fn test_add_trusted_key() {
    let mut verifier = SignatureVerifier::new();
    let peer_id = PeerId(1);
    let public_key = PublicKey([0u8; 32]);
    verifier.add_trusted_key(peer_id, public_key);
    assert_eq!(verifier.trusted_key_count(), 1);
}

#[test]
fn test_revoke_key() {
    let mut verifier = SignatureVerifier::new();
    let peer_id = PeerId(1);
    let public_key = PublicKey([42u8; 32]);

    verifier.add_trusted_key(peer_id, public_key);
    assert_eq!(verifier.trusted_key_count(), 1);

    verifier.revoke_key(peer_id);
    assert_eq!(verifier.trusted_key_count(), 0);
    assert!(verifier.is_revoked(&peer_id));
}

#[test]
fn test_signature_verifier_revocation() {
    let mut verifier = SignatureVerifier::new();

    let peer_id = PeerId(1);
    let public_key = PublicKey([42u8; 32]);

    verifier.add_trusted_key(peer_id, public_key);
    verifier.revoke_key(peer_id);

    assert!(verifier.is_revoked(&peer_id));
    assert_eq!(verifier.trusted_key_count(), 0);

    let chunk = create_test_chunk(1, vec![0u8; 100]);
    let result = verifier.verify(&chunk).unwrap();
    assert!(!result);
}

#[test]
fn test_real_signature_verifies() {
    // a chunk signed by the trusted key verifies; one flipped payload
    // bit fails; an unknown peer is an error
    let signing = ed25519_dalek::SigningKey::from_bytes(&[7u8; 32]);
    let public = PublicKey(signing.verifying_key().to_bytes());

    let data = vec![10u8, 20, 30, 40, 50];
    let sig = signing.sign(&data);

    let mut verifier = SignatureVerifier::new();
    verifier.add_trusted_key(PeerId(5), public);

    let mut chunk = create_test_chunk(1, data.clone());
    chunk.source_peer = PeerId(5);
    chunk.signature = Signature(sig.to_bytes());
    assert_eq!(verifier.verify(&chunk).unwrap(), true);

    let mut tampered = chunk.clone();
    tampered.data[0] ^= 1;
    assert_eq!(verifier.verify(&tampered).unwrap(), false);

    let mut stranger = chunk.clone();
    stranger.source_peer = PeerId(6);
    assert_eq!(verifier.verify(&stranger).unwrap_err(), VerifierError::KeyUnknown);
}

#[test]
fn test_revoked_real_key_fails() {
    let signing = ed25519_dalek::SigningKey::from_bytes(&[8u8; 32]);
    let public = PublicKey(signing.verifying_key().to_bytes());
    let data = vec![1u8, 2, 3];
    let sig = signing.sign(&data);

    let mut verifier = SignatureVerifier::new();
    verifier.add_trusted_key(PeerId(9), public);
    verifier.revoke_key(PeerId(9));

    let mut chunk = create_test_chunk(1, data);
    chunk.source_peer = PeerId(9);
    chunk.signature = Signature(sig.to_bytes());
    assert_eq!(verifier.verify(&chunk).unwrap(), false);

    let (total, success, failed, _) = verifier.get_metrics();
    assert_eq!(total, 1);
    assert_eq!(success, 0);
    assert_eq!(failed, 1);
}

#[test]
fn test_batch_with_real_keys() {
    let signing = ed25519_dalek::SigningKey::from_bytes(&[11u8; 32]);
    let public = PublicKey(signing.verifying_key().to_bytes());
    let mut verifier = SignatureVerifier::new();
    verifier.add_trusted_key(PeerId(2), public);

    let mut chunks = Vec::new();
    for i in 1..=3u64 {
        let data = vec![i as u8; 5];
        let sig = signing.sign(&data);
        let mut chunk = create_test_chunk(i, data);
        chunk.source_peer = PeerId(2);
        chunk.signature = Signature(sig.to_bytes());
        chunks.push(chunk);
    }

    let results = verifier.verify_batch(&chunks).unwrap();
    assert_eq!(results.len(), 3);
    assert!(results.iter().all(|&r| r));

    let (total, _, _, batch) = verifier.get_metrics();
    assert_eq!(total, 3);
    assert_eq!(batch, 1);
}

#[test]
fn test_verification_batch() {
    let mut batch = VerificationBatch::new(3, 100);

    assert!(!batch.is_full());

    batch.add(create_test_chunk(1, vec![1]));
    assert!(!batch.is_full());
    batch.add(create_test_chunk(2, vec![2]));
    assert!(!batch.is_full());
    let is_full = batch.add(create_test_chunk(3, vec![3]));
    assert!(is_full);
    assert!(batch.is_full());
}

#[test]
fn test_unchoke_selection() {
    // ten peers, score rising with the id: the three top scorers 8, 9
    // and 10 all hold regular slots, and any fourth pick is optimistic
    let config = P2PConfig {
        max_upload_mbps: 100,
        max_download_mbps: 100,
        unchoke_interval_seconds: 10,
        regular_unchoke_count: 3,
        optimistic_unchoke_count: 1,
    };
    let mut engine = P2PEngine::new(config);

    for i in 1..=10u64 {
        let peer_id = PeerId(i);
        engine.add_peer(peer_id);
        engine.update_downloaded(peer_id, i * 1_000_000);
        engine.update_uploaded(peer_id, i * 500_000);
    }

    engine.update_unchoke_set().unwrap();

    let unchoked = engine.get_unchoked_peers();
    assert!(unchoked.len() >= 3);
    assert!(unchoked.len() <= 4);
    for want in [8u64, 9, 10] {
        assert!(unchoked.iter().any(|p| p.0 == want));
    }
    if unchoked.len() == 4 {
        let extra = unchoked.iter().find(|p| p.0 < 8).unwrap();
        assert!(extra.0 >= 1 && extra.0 <= 7);
    }
}

#[test]
fn test_choked_peer_rejected() {
    let mut engine = P2PEngine::new(P2PConfig::default());
    engine.add_peer(PeerId(1));
    let err = engine.handle_chunk_request(PeerId(1), ChunkId(1)).unwrap_err();
    assert_eq!(err, P2pError::PeerChoked);
}

#[test]
fn test_bandwidth_allocation_even() {
    let config = P2PConfig { max_upload_mbps: 100, ..Default::default() };
    let mut engine = P2PEngine::new(config);

    for i in 1..=4u64 {
        engine.add_peer(PeerId(i));
        engine.update_downloaded(PeerId(i), i * 1000);
    }
    engine.update_unchoke_set().unwrap();

    let allocations = engine.get_bandwidth_allocation();
    assert!(!allocations.is_empty());
    let share = 100u64 * 1_000_000 / allocations.len() as u64;
    for (_, bandwidth) in &allocations {
        assert_eq!(*bandwidth, share);
    }
}
