//! Tests of the compute subsystem: metering, the sandbox, the executor
//! and result verification.

use pangea_ces::compute::{ComputeTask, JobManifest, SplitStrategy, TaskResult, TaskStatus, VerificationMode};
use pangea_ces::executor::ComputeExecutor;
use pangea_ces::compute::ComputeConfig;
use pangea_ces::errors::{ComputeError, MeteringError};
use pangea_ces::heal::AutoHealConfig;
use pangea_ces::merkle::MerkleTree;
use pangea_ces::metering::{Metering, ResourceLimits, ResourceUsage};
use pangea_ces::sandbox::{SandboxConfig, WasmSandbox};
use pangea_ces::tunnel::IoTunnel;
use pangea_ces::verification::{ResultVerifier, VerificationResult};

#[test]
fn test_config_defaults() {
    let config = AutoHealConfig::default();
    assert_eq!(config.min_shard_copies, 3);
    assert_eq!(config.target_shard_copies, 5);
    assert!(config.enabled);
}

#[test]
fn test_metering_creation() {
    let limits = ResourceLimits::default();
    let metering = Metering::new(limits);

    let usage = metering.get_usage();
    assert_eq!(usage.memory_bytes, 0);
    assert_eq!(usage.cpu_cycles, 0);
}

#[test]
fn test_memory_tracking() {
    let limits = ResourceLimits { max_memory_bytes: 1000, ..Default::default() };
    let mut metering = Metering::new(limits);

    assert!(metering.add_memory(500).is_ok());
    assert_eq!(metering.get_usage().memory_bytes, 500);

    assert!(metering.add_memory(400).is_ok());
    assert_eq!(metering.get_usage().memory_bytes, 900);

    assert!(metering.add_memory(200).is_err());
}

#[test]
fn test_cpu_cycle_tracking() {
    let limits = ResourceLimits { max_cpu_cycles: 1000, ..Default::default() };
    let mut metering = Metering::new(limits);

    assert!(metering.add_cycles(500).is_ok());
    assert_eq!(metering.get_usage().cpu_cycles, 500);

    assert!(metering.add_cycles(600).is_err());
}

#[test]
fn test_interrupt() {
    let mut metering = Metering::new(ResourceLimits::default());

    assert!(!metering.is_interrupted());

    metering.interrupt();

    assert!(metering.is_interrupted());
    assert!(metering.check_all().is_err());
}

#[test]
fn test_resource_percentage() {
    let usage = ResourceUsage {
        memory_bytes: 128 * 1024 * 1024,
        cpu_cycles: 500_000_000,
        execution_time_ms: 15_000,
    };

    let limits = ResourceLimits::default();
    let percentages = usage.limit_percentage(&limits);

    assert_eq!(percentages.memory, 50);
    assert_eq!(percentages.cpu_cycles, 50);
    assert_eq!(percentages.time, 50);
}

#[test]
fn test_memory_limit_error_carries_figures() {
    let limits = ResourceLimits { max_memory_bytes: 10, ..Default::default() };
    let mut metering = Metering::new(limits);
    let err = metering.add_memory(11).unwrap_err();
    assert_eq!(err, MeteringError::MemoryLimitExceeded { used: 11, limit: 10 });
    assert_eq!(metering.check_all().unwrap_err(), MeteringError::Interrupted);
}

#[test]
fn test_sandbox_creation() {
    let config = SandboxConfig { simulation_mode: true, ..Default::default() };
    let sandbox = WasmSandbox::new(config);
    assert!(sandbox.is_ok());
}

#[test]
fn test_split_execute() {
    let sandbox =
        WasmSandbox::new(SandboxConfig { simulation_mode: true, ..Default::default() }).unwrap();

    let data = vec![1u8; 256 * 1024];
    let fake_wasm = b"\x00asmtest_module";

    let split_result = sandbox.execute(fake_wasm, &data, "split").unwrap();
    assert!(!split_result.is_empty());

    let num_chunks = u32::from_le_bytes([
        split_result[0],
        split_result[1],
        split_result[2],
        split_result[3],
    ]);
    assert!(num_chunks > 0);
}

#[test]
fn test_split_and_merge_roundtrip() {
    let sandbox =
        WasmSandbox::new(SandboxConfig { simulation_mode: true, ..Default::default() }).unwrap();

    let original_data = b"Hello, World! This is test data for split and merge.";
    let fake_wasm = b"test_module";

    let split_result = sandbox.execute(fake_wasm, original_data, "split").unwrap();

    let merged = sandbox.execute(fake_wasm, &split_result, "merge").unwrap();

    assert_eq!(original_data.to_vec(), merged);
}

#[test]
fn test_execute_identity() {
    let sandbox =
        WasmSandbox::new(SandboxConfig { simulation_mode: true, ..Default::default() }).unwrap();

    let data = b"test data";
    let fake_wasm = b"test_module";

    let result = sandbox.execute(fake_wasm, data, "execute").unwrap();
    assert_eq!(data.to_vec(), result);
}

#[test]
fn test_memory_limit() {
    let config = SandboxConfig { max_memory_bytes: 1000, ..Default::default() };
    let sandbox = WasmSandbox::new(config).unwrap();

    let large_data = vec![0u8; 2000];
    let fake_wasm = b"test_module";

    let result = sandbox.execute(fake_wasm, &large_data, "execute");
    assert!(result.is_err());
}

#[test]
fn test_module_caching() {
    let mut sandbox =
        WasmSandbox::new(SandboxConfig { simulation_mode: true, ..Default::default() }).unwrap();

    let wasm = b"\x00asm\x01\x00\x00\x00fake_wasm_module_data";
    let hash1 = sandbox.load_module(wasm).unwrap();
    let hash2 = sandbox.load_module(wasm).unwrap();

    assert_eq!(hash1, hash2);
    assert!(sandbox.is_module_cached(&hash1));
    assert_eq!(sandbox.get_cached_module_size(&hash1), Some(wasm.len()));
}

#[test]
fn test_invalid_module_rejected() {
    let mut sandbox =
        WasmSandbox::new(SandboxConfig { simulation_mode: true, ..Default::default() }).unwrap();
    let bad = b"not a wasm module";
    assert_eq!(sandbox.load_module(bad).unwrap_err(), ComputeError::ModuleInvalid);
    let empty: &[u8] = &[];
    assert_eq!(
        sandbox.execute(empty, b"data", "execute").unwrap_err(),
        ComputeError::ModuleInvalid
    );
}

#[test]
fn test_unknown_function_rejected() {
    let sandbox =
        WasmSandbox::new(SandboxConfig { simulation_mode: true, ..Default::default() }).unwrap();
    let result = sandbox.execute(b"m", b"data", "transmogrify");
    assert_eq!(result.unwrap_err(), ComputeError::UnknownFunction);
}

#[test]
fn test_merge_rejects_malformed_frame() {
    let sandbox =
        WasmSandbox::new(SandboxConfig { simulation_mode: true, ..Default::default() }).unwrap();
    let result = sandbox.execute(b"m", &[1, 2], "merge");
    assert_eq!(result.unwrap_err(), ComputeError::FrameInvalid);
}

#[test]
fn test_execute_with_tunnel_roundtrip() {
    let config = SandboxConfig { simulation_mode: true, ..Default::default() };
    let sandbox = WasmSandbox::new(config).unwrap();

    let key = [9u8; 32];
    let tunnel = IoTunnel::new(&key).expect("create tunnel");

    let plaintext = b"compute input data";

    let encrypted_input = tunnel.encrypt(plaintext).expect("encrypt input");
    assert!(encrypted_input != plaintext);

    let decrypted = tunnel.decrypt(&encrypted_input).expect("decrypt");
    assert_eq!(decrypted, plaintext);

    let work = sandbox.execute(b"m", &decrypted, "execute").unwrap();
    let encrypted_output = tunnel.encrypt(&work).unwrap();
    let final_output = tunnel.decrypt(&encrypted_output).unwrap();
    assert_eq!(final_output, plaintext.to_vec());
}

#[test]
fn test_tunnel_roundtrip() {
    let key = [3u8; 32];

    let tunnel = IoTunnel::new(&key).expect("new tunnel");
    let plain = b"hello secret data";

    let c = tunnel.encrypt(plain).expect("encrypt");
    assert!(c != plain);

    let p = tunnel.decrypt(&c).expect("decrypt");
    assert_eq!(p.as_slice(), plain);
}

#[test]
fn test_tunnel_key_length_checked() {
    assert!(IoTunnel::new(&[1u8; 16]).is_err());
    assert!(IoTunnel::new(&[1u8; 32]).is_ok());
}

fn create_test_job(data_size: usize) -> JobManifest {
    JobManifest {
        job_id: "test_job".to_string(),
        wasm_module: vec![0; 1024],
        input_data: vec![0; data_size],
        split_strategy: SplitStrategy::FixedSize,
        min_chunk_size: 1024,
        max_chunk_size: 65536,
        verification_mode: VerificationMode::Hash,
        timeout_secs: 300,
        retry_count: 3,
        priority: 5,
        redundancy: 1,
    }
}

#[test]
fn test_split_data() {
    let executor = ComputeExecutor::new(ComputeConfig::default());
    let job = create_test_job(100_000);
    let data = vec![42u8; 100_000];

    let (chunks, infos) = executor.split_data(&job, &data).unwrap();

    assert!(!chunks.is_empty());
    assert_eq!(chunks.len(), infos.len());

    let total: usize = chunks.iter().map(|c| c.len()).sum();
    assert_eq!(total, 100_000);
}

#[test]
fn test_merge_results() {
    let executor = ComputeExecutor::new(ComputeConfig::default());

    let chunks = vec![vec![1, 2, 3], vec![4, 5, 6], vec![7, 8, 9]];

    let merged = executor.merge_results(chunks).unwrap();

    assert_eq!(merged, vec![1, 2, 3, 4, 5, 6, 7, 8, 9]);
}

#[test]
fn test_serialize_deserialize_roundtrip() {
    let executor = ComputeExecutor::new(ComputeConfig::default());

    let chunks = vec![vec![1, 2, 3, 4], vec![5, 6, 7, 8], vec![9, 10, 11, 12]];

    let serialized = executor.serialize_chunks(&chunks).unwrap();
    let deserialized = executor.deserialize_chunks(&serialized).unwrap();

    assert_eq!(chunks, deserialized);
}

#[test]
fn test_hash_data() {
    let executor = ComputeExecutor::new(ComputeConfig::default());

    let data1 = b"test data 1";
    let data2 = b"test data 2";

    let hash1 = executor.hash_data(data1);
    let hash2 = executor.hash_data(data2);

    assert_ne!(hash1, hash2);
    assert_eq!(hash1.len(), 64);
}

#[test]
fn test_task_id_format() {
    let task = ComputeTask::new("job1".to_string(), 3, Vec::new(), Vec::new());
    assert_eq!(task.task_id, "job1:3");
    assert_eq!(task.function_name, "execute");
    assert_eq!(task.timeout_ms, 30_000);
}

#[test]
fn test_failed_result() {
    let r = TaskResult::failed("t1".to_string(), "boom".to_string());
    assert_eq!(r.status, TaskStatus::Failed);
    assert!(r.result_data.is_empty());
    assert_eq!(r.error_message.as_deref(), Some("boom"));
}

#[test]
fn test_merkle_tree_single_chunk() {
    let chunks = vec![vec![1, 2, 3, 4]];
    let tree = MerkleTree::build(&chunks);

    assert!(!tree.root().is_empty());
    assert_eq!(tree.leaf_count(), 1);
}

#[test]
fn test_merkle_tree_multiple_chunks() {
    let chunks = vec![
        vec![1, 2, 3, 4],
        vec![5, 6, 7, 8],
        vec![9, 10, 11, 12],
        vec![13, 14, 15, 16],
    ];
    let tree = MerkleTree::build(&chunks);

    assert!(!tree.root().is_empty());
    assert_eq!(tree.leaf_count(), 4);
}

#[test]
fn test_merkle_proof_verification() {
    let chunks = vec![
        vec![1, 2, 3, 4],
        vec![5, 6, 7, 8],
        vec![9, 10, 11, 12],
        vec![13, 14, 15, 16],
    ];
    let tree = MerkleTree::build(&chunks);

    let proof = tree.get_proof(0).unwrap();

    let valid = MerkleTree::verify_proof(tree.root(), &chunks[0], 0, &proof);

    assert!(valid);
}

#[test]
fn test_merkle_leaf_flip_fails() {
    let chunks = vec![
        vec![1u8, 2, 3, 4],
        vec![5, 6, 7, 8],
        vec![9, 10, 11, 12],
        vec![13, 14, 15, 16],
    ];
    let tree = MerkleTree::build(&chunks);
    let proof = tree.get_proof(0).unwrap();
    let mut flipped = chunks[0].clone();
    flipped[0] ^= 1;
    assert!(!MerkleTree::verify_proof(tree.root(), &flipped, 0, &proof));
    assert!(tree.get_proof(4).is_err());
}

#[test]
fn test_merkle_all_leaves_verify() {
    let chunks = vec![
        vec![1u8, 2, 3, 4],
        vec![5, 6, 7, 8],
        vec![9, 10, 11, 12],
        vec![13, 14, 15, 16],
        vec![17, 18, 19, 20],
    ];
    let tree = MerkleTree::build(&chunks);
    for (i, chunk) in chunks.iter().enumerate() {
        let proof = tree.get_proof(i).unwrap();
        assert!(MerkleTree::verify_proof(tree.root(), chunk, i, &proof));
    }
}

#[test]
fn test_hash_verification() {
    let verifier = ResultVerifier::new(VerificationMode::Hash);

    let data = b"test result data";
    let hash = verifier.hash_result(data);

    let result = TaskResult {
        task_id: "test".to_string(),
        status: TaskStatus::Completed,
        result_data: data.to_vec(),
        result_hash: hash.clone(),
        merkle_proof: None,
        execution_time_ms: 100,
        error_message: None,
    };

    let verification = verifier.verify(&result, Some(&hash));
    assert!(verification.is_valid());
}

#[test]
fn test_hash_mismatch() {
    let verifier = ResultVerifier::new(VerificationMode::Hash);

    let result = TaskResult {
        task_id: "test".to_string(),
        status: TaskStatus::Completed,
        result_data: b"actual data".to_vec(),
        result_hash: "wrong_hash".to_string(),
        merkle_proof: None,
        execution_time_ms: 100,
        error_message: None,
    };

    let expected = "expected_hash".to_string();
    let verification = verifier.verify(&result, Some(&expected));
    assert!(!verification.is_valid());
}

#[test]
fn test_merkle_verification() {
    let verifier = ResultVerifier::new(VerificationMode::Merkle);

    let data = b"test data for merkle verification with sufficient length";
    let proof = verifier.create_merkle_proof(data).unwrap();

    let result = TaskResult {
        task_id: "test".to_string(),
        status: TaskStatus::Completed,
        result_data: data.to_vec(),
        result_hash: verifier.hash_result(data),
        merkle_proof: Some(proof),
        execution_time_ms: 100,
        error_message: None,
    };

    let verification = verifier.verify(&result, None);
    assert!(verification.is_valid());
}

#[test]
fn test_redundancy_comparison() {
    let verifier = ResultVerifier::new(VerificationMode::Redundancy);

    let result1 = TaskResult {
        task_id: "test1".to_string(),
        status: TaskStatus::Completed,
        result_data: b"matching result".to_vec(),
        result_hash: String::new(),
        merkle_proof: None,
        execution_time_ms: 100,
        error_message: None,
    };

    let result2 = TaskResult {
        task_id: "test2".to_string(),
        status: TaskStatus::Completed,
        result_data: b"matching result".to_vec(),
        result_hash: String::new(),
        merkle_proof: None,
        execution_time_ms: 110,
        error_message: None,
    };

    let comparison = verifier.compare_results(&result1, &result2);
    assert!(comparison.is_valid());

    let result3 = TaskResult { result_data: b"different".to_vec(), ..result2.clone() };
    assert!(matches!(
        verifier.compare_results(&result1, &result3),
        VerificationResult::Invalid(_)
    ));
}
