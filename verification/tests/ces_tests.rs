//! Tests of the compress/encrypt/shard pipeline, file detection and
//! hashing.

use pangea_ces::caps::HardwareCaps;
use pangea_ces::ces::{CesConfig, CesPipeline, CompressionAlgorithm};
use pangea_ces::crypto::sha256_hex;
use pangea_ces::detect::{FileDetector, FileType};
use pangea_ces::errors::CesError;

#[test]
fn test_compression() {
    let config = CesConfig::default();
    let pipeline = CesPipeline::new(config);

    let data = b"Hello, World! ".repeat(100);
    let compressed = pipeline.compress(&data).unwrap();
    assert!(compressed.len() < data.len());

    let decompressed = pipeline.decompress(&compressed).unwrap();
    assert_eq!(data, decompressed.as_slice());
}

#[test]
fn test_encryption() {
    let config = CesConfig::default();
    let pipeline = CesPipeline::new(config);

    let data = b"Secret message";
    let encrypted = pipeline.encrypt(data).unwrap();
    assert_ne!(data.to_vec(), encrypted);

    let decrypted = pipeline.decrypt(&encrypted).unwrap();
    assert_eq!(data.to_vec(), decrypted);
}

#[test]
fn test_full_pipeline() {
    let config = CesConfig::default();
    let key = [0u8; 32];
    let pipeline = CesPipeline::new(config).with_key(key);

    let data = b"Full pipeline test data!".repeat(50);
    let shards = pipeline.process(&data).unwrap();

    let recovery_shards = shards
        .into_iter()
        .enumerate()
        .map(|(i, s)| if i == 2 { None } else { Some(s) })
        .collect();

    let reconstructed = pipeline.reconstruct(recovery_shards).unwrap();
    assert_eq!(data.to_vec(), reconstructed);
}

#[test]
fn test_loss_up_to_parity() {
    // k = 8, m = 4: any four missing shards still reconstruct
    let config = CesConfig::default();
    let pipeline = CesPipeline::new(config).with_key([5u8; 32]);

    let data = b"loss tolerance ".repeat(64);
    let shards = pipeline.process(&data).unwrap();
    assert_eq!(shards.len(), 12);

    let recovery: Vec<Option<Vec<u8>>> = shards
        .into_iter()
        .enumerate()
        .map(|(i, s)| if i % 3 == 0 { None } else { Some(s) })
        .collect();
    assert_eq!(recovery.iter().filter(|s| s.is_none()).count(), 4);

    let reconstructed = pipeline.reconstruct(recovery).unwrap();
    assert_eq!(data.to_vec(), reconstructed);
}

#[test]
fn test_insufficient_shards_rejected() {
    let config = CesConfig::default();
    let pipeline = CesPipeline::new(config).with_key([5u8; 32]);

    let data = b"not enough left ".repeat(32);
    let shards = pipeline.process(&data).unwrap();

    // only 7 of 12 left: below k = 8
    let recovery: Vec<Option<Vec<u8>>> = shards
        .into_iter()
        .enumerate()
        .map(|(i, s)| if i < 5 { None } else { Some(s) })
        .collect();
    assert_eq!(
        pipeline.reconstruct(recovery).unwrap_err(),
        CesError::InsufficientShards
    );
}

#[test]
fn test_skip_type_round_trip() {
    // ZIP magic marks the blob already-compressed: it is sealed raw and
    // still round-trips, even with shards missing.
    let config = CesConfig::default();
    let pipeline = CesPipeline::new(config).with_key([7u8; 32]);

    let mut data = vec![0x50, 0x4B, 0x03, 0x04];
    data.extend(std::iter::repeat(0xABu8).take(400));
    let shards = pipeline.process(&data).unwrap();
    assert_eq!(shards.len(), 12);

    let recovery = shards
        .into_iter()
        .enumerate()
        .map(|(i, s)| if i < 4 { None } else { Some(s) })
        .collect();
    let reconstructed = pipeline.reconstruct(recovery).unwrap();
    assert_eq!(data, reconstructed);
}

#[test]
fn test_no_parity_round_trip() {
    // m = 0: no parity shards, and the full set reconstructs.
    let config = CesConfig {
        compression_level: 3,
        compression_algorithm: CompressionAlgorithm::Zstd,
        shard_count: 4,
        parity_count: 0,
        chunk_size: 1024,
    };
    let pipeline = CesPipeline::new(config).with_key([9u8; 32]);

    let data = b"no parity at all ".repeat(40);
    let shards = pipeline.process(&data).unwrap();
    assert_eq!(shards.len(), 4);

    let recovery = shards.into_iter().map(Some).collect();
    assert_eq!(pipeline.reconstruct(recovery).unwrap(), data);
}

#[test]
fn test_brotli_compression_implemented() {
    let data = b"The quick brown fox jumps over the lazy dog. ".repeat(10).to_vec();

    let config = CesConfig {
        compression_algorithm: CompressionAlgorithm::Brotli,
        compression_level: 6,
        shard_count: 4,
        parity_count: 2,
        chunk_size: 1024,
    };

    let pipeline = CesPipeline::new(config).with_key([1u8; 32]);
    let shards = pipeline.process(&data).unwrap();
    assert_eq!(shards.len(), 6);

    let recovery = shards.into_iter().map(Some).collect();
    let reconstructed = pipeline.reconstruct(recovery).unwrap();
    assert_eq!(data, reconstructed);
}

#[test]
fn test_ces_config_adaptive() {
    let caps = HardwareCaps {
        has_avx2: false,
        has_neon: false,
        has_io_uring: false,
        has_ebpf: false,
        ram_gb: 8,
        cpu_cores: 4,
    };
    let config = CesConfig::adaptive(&caps, 1024 * 1024);

    assert!(config.chunk_size > 0);
    assert!(config.shard_count > 0);
    assert!(config.parity_count > 0);
    assert!(config.compression_level > 0);
}

#[test]
fn test_sha256_known_vector() {
    let hex = sha256_hex(b"abc");
    assert_eq!(
        hex,
        "ba7816bf8f01cfea414140de5dae2223b00361a396177a9cb410ff61f20015ad"
    );
    let digest = CesPipeline::hash(b"abc");
    assert_eq!(digest, hex::decode(&hex).unwrap());
}

#[test]
fn test_extension_detection() {
    assert_eq!(FileDetector::detect_from_extension("zip"), FileType::Compressed);
    assert_eq!(FileDetector::detect_from_extension("jpg"), FileType::Image);
    assert_eq!(FileDetector::detect_from_extension("mp4"), FileType::Video);
    assert_eq!(FileDetector::detect_from_extension("mp3"), FileType::Audio);
    assert_eq!(FileDetector::detect_from_extension("txt"), FileType::Text);
    assert_eq!(FileDetector::detect_from_extension("exe"), FileType::Binary);
}

#[test]
fn test_magic_bytes() {
    let zip_data = vec![0x50, 0x4B, 0x03, 0x04, 0x00, 0x00];
    assert_eq!(FileDetector::detect_from_content(&zip_data), FileType::Compressed);

    let png_data = vec![0x89, 0x50, 0x4E, 0x47, 0x0D, 0x0A];
    assert_eq!(FileDetector::detect_from_content(&png_data), FileType::Image);

    let text_data = b"Hello, World! This is a text file.";
    assert_eq!(FileDetector::detect_from_content(text_data), FileType::Text);
}

#[test]
fn test_compression_levels() {
    assert_eq!(FileType::Compressed.recommended_compression_level(), 0);
    assert_eq!(FileType::Text.recommended_compression_level(), 9);
    assert_eq!(FileType::Video.recommended_compression_level(), 0);
    assert!(FileType::Compressed.skip_compression());
    assert!(FileType::Video.skip_compression());
    assert!(!FileType::Text.skip_compression());
}

#[test]
fn test_file_type_names() {
    assert_eq!(FileType::Compressed.name(), "Compressed Archive");
    assert_eq!(FileType::Text.name(), "Text");
}

#[test]
fn test_uppercase_extension() {
    assert_eq!(FileDetector::detect_from_extension("ZIP"), FileType::Compressed);
    assert_eq!(FileDetector::detect_from_extension("Mp3"), FileType::Audio);
}

#[test]
fn test_detect_from_path() {
    assert_eq!(FileDetector::detect_from_path("dir/file.tar"), FileType::Compressed);
    assert_eq!(FileDetector::detect_from_path("noext"), FileType::Unknown);
    assert_eq!(FileDetector::detect_from_path("dir.d/plain"), FileType::Unknown);
}
