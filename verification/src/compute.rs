//! Types of the compute subsystem: configuration, jobs, tasks and results.

use vstd::prelude::*;
use vstd::string::StringExecFns;

use crate::sysapi::cpu_count;

verus! {

pub const DEFAULT_MAX_MEMORY_MB: u64 = 256;

pub const DEFAULT_MIN_CHUNK_SIZE: u64 = 65536;

pub const DEFAULT_MAX_CHUNK_SIZE: u64 = 1048576;

/// How a task's result is verified.
#[derive(Debug, Clone, Copy, PartialEq, Eq, Structural)]
pub enum VerificationMode {
    /// No verification.
    Skip,
    /// SHA-256 hash comparison.
    Hash,
    /// Merkle-tree proof.
    Merkle,
    /// Redundant execution with bytewise comparison.
    Redundancy,
}

impl Default for VerificationMode {
    /// Hash verification.
    fn default() -> (r: VerificationMode)
        ensures
            r == VerificationMode::Hash,
    {
        VerificationMode::Hash
    }
}

/// How a job's input is cut into chunks.
#[derive(Debug, Clone, Copy, PartialEq, Eq, Structural)]
pub enum SplitStrategy {
    /// Fixed-size chunks.
    FixedSize,
    /// Row or line boundaries.
    RowBased,
    /// Custom delimiters.
    Delimiter,
    /// The module's own split function.
    Custom,
}

impl Default for SplitStrategy {
    /// Fixed-size chunks.
    fn default() -> (r: SplitStrategy)
        ensures
            r == SplitStrategy::FixedSize,
    {
        SplitStrategy::FixedSize
    }
}

/// The state of a compute task.
#[derive(Debug, Clone, Copy, PartialEq, Eq, Structural)]
pub enum TaskStatus {
    Pending,
    Assigned,
    Computing,
    Verifying,
    Completed,
    Failed,
    Timeout,
    Cancelled,
}

/// The lowercase name of a task status.
pub open spec fn spec_status_name(s: TaskStatus) -> Seq<char> {
    match s {
        TaskStatus::Pending => "pending"@,
        TaskStatus::Assigned => "assigned"@,
        TaskStatus::Computing => "computing"@,
        TaskStatus::Verifying => "verifying"@,
        TaskStatus::Completed => "completed"@,
        TaskStatus::Failed => "failed"@,
        TaskStatus::Timeout => "timeout"@,
        TaskStatus::Cancelled => "cancelled"@,
    }
}

impl TaskStatus {
    /// The lowercase name of this status.
    pub fn name(&self) -> (r: &'static str)
        ensures
            r@ == spec_status_name(*self),
    {
        match self {
            TaskStatus::Pending => "pending",
            TaskStatus::Assigned => "assigned",
            TaskStatus::Computing => "computing",
            TaskStatus::Verifying => "verifying",
            TaskStatus::Completed => "completed",
            TaskStatus::Failed => "failed",
            TaskStatus::Timeout => "timeout",
            TaskStatus::Cancelled => "cancelled",
        }
    }
}

/// Compute engine configuration.
#[derive(Debug, Clone)]
pub struct ComputeConfig {
    /// Memory cap for one execution, in megabytes.
    pub max_memory_mb: u64,
    /// Cycle cap for one execution.
    pub max_cpu_cycles: u64,
    /// Wall-clock cap for one execution, in milliseconds.
    pub max_execution_time_ms: u64,
    /// Whether the module may touch the filesystem; off for isolation.
    pub enable_wasi: bool,
    /// How results are verified.
    pub verification_mode: VerificationMode,
    /// Worker threads for parallel execution.
    pub worker_threads: usize,
    /// When set, execute returns its input unchanged; never for production,
    /// and off unless asked for explicitly.
    pub simulation_mode: bool,
}

impl Default for ComputeConfig {
    /// 256 MB, a billion cycles, thirty seconds, hash verification, one
    /// worker per processor, simulation off.
    fn default() -> (r: ComputeConfig)
        ensures
            r.max_memory_mb == DEFAULT_MAX_MEMORY_MB,
            r.max_cpu_cycles == crate::metering::DEFAULT_MAX_CPU_CYCLES,
            r.max_execution_time_ms == crate::metering::DEFAULT_MAX_EXECUTION_TIME_MS,
            !r.enable_wasi,
            r.verification_mode == VerificationMode::Hash,
            r.worker_threads >= 1,
            !r.simulation_mode,
    {
        ComputeConfig {
            max_memory_mb: DEFAULT_MAX_MEMORY_MB,
            max_cpu_cycles: crate::metering::DEFAULT_MAX_CPU_CYCLES,
            max_execution_time_ms: crate::metering::DEFAULT_MAX_EXECUTION_TIME_MS,
            enable_wasi: false,
            verification_mode: VerificationMode::Hash,
            worker_threads: cpu_count(),
            simulation_mode: false,
        }
    }
}

/// A compute job: a module, an input blob and execution policy.
#[derive(Debug, Clone)]
pub struct JobManifest {
    pub job_id: String,
    pub wasm_module: Vec<u8>,
    pub input_data: Vec<u8>,
    pub split_strategy: SplitStrategy,
    pub min_chunk_size: u64,
    pub max_chunk_size: u64,
    pub verification_mode: VerificationMode,
    pub timeout_secs: u32,
    pub retry_count: u32,
    pub priority: u32,
    pub redundancy: u32,
}

impl JobManifest {
    /// A job with default policy: 64 KB to 1 MB chunks, hash verification,
    /// a five-minute timeout, three retries, medium priority, no redundancy.
    pub fn new(job_id: String, wasm_module: Vec<u8>, input_data: Vec<u8>) -> (r: JobManifest)
        ensures
            r.job_id@ == job_id@,
            r.wasm_module@ == wasm_module@,
            r.input_data@ == input_data@,
            r.split_strategy == SplitStrategy::FixedSize,
            r.min_chunk_size == DEFAULT_MIN_CHUNK_SIZE,
            r.max_chunk_size == DEFAULT_MAX_CHUNK_SIZE,
            r.verification_mode == VerificationMode::Hash,
            r.timeout_secs == 300,
            r.retry_count == 3,
            r.priority == 5,
            r.redundancy == 1,
    {
        JobManifest {
            job_id,
            wasm_module,
            input_data,
            split_strategy: SplitStrategy::FixedSize,
            min_chunk_size: DEFAULT_MIN_CHUNK_SIZE,
            max_chunk_size: DEFAULT_MAX_CHUNK_SIZE,
            verification_mode: VerificationMode::Hash,
            timeout_secs: 300,
            retry_count: 3,
            priority: 5,
            redundancy: 1,
        }
    }
}

/// The decimal digit character for `d` below ten.
pub open spec fn digit_char(d: nat) -> char {
    if d == 0 {
        '0'
    } else if d == 1 {
        '1'
    } else if d == 2 {
        '2'
    } else if d == 3 {
        '3'
    } else if d == 4 {
        '4'
    } else if d == 5 {
        '5'
    } else if d == 6 {
        '6'
    } else if d == 7 {
        '7'
    } else if d == 8 {
        '8'
    } else {
        '9'
    }
}

/// The decimal rendering of a number.
pub open spec fn dec_chars(n: nat) -> Seq<char>
    decreases n,
{
    if n < 10 {
        seq![digit_char(n)]
    } else {
        dec_chars(n / 10) + seq![digit_char(n % 10)]
    }
}

/// One decimal digit as a one-character string.
fn digit_str(d: u32) -> (r: &'static str)
    requires
        d < 10,
    ensures
        r@ == seq![digit_char(d as nat)],
{
    let s: &'static str = match d {
        0 => "0",
        1 => "1",
        2 => "2",
        3 => "3",
        4 => "4",
        5 => "5",
        6 => "6",
        7 => "7",
        8 => "8",
        _ => "9",
    };
    proof {
        reveal_strlit("0");
        reveal_strlit("1");
        reveal_strlit("2");
        reveal_strlit("3");
        reveal_strlit("4");
        reveal_strlit("5");
        reveal_strlit("6");
        reveal_strlit("7");
        reveal_strlit("8");
        reveal_strlit("9");
        assert(s@ =~= seq![digit_char(d as nat)]);
    }
    s
}

/// Append the decimal rendering of a number.
fn push_decimal(n: u32, out: &mut String)
    ensures
        final(out)@ == old(out)@ + dec_chars(n as nat),
    decreases n,
{
    if n < 10 {
        out.append(digit_str(n));
        proof {
            assert(out@ =~= old(out)@ + dec_chars(n as nat));
        }
    } else {
        push_decimal(n / 10, out);
        out.append(digit_str(n % 10));
        proof {
            assert(out@ =~= old(out)@ + dec_chars(n as nat));
        }
    }
}

/// The task label: the job id, a colon and the chunk index in decimal.
fn format_task_id(job: &str, idx: u32) -> (r: String)
    ensures
        r@ == job@ + seq![':'] + dec_chars(idx as nat),
{
    let mut out: String = job.to_owned();
    out.append(":");
    proof {
        reveal_strlit(":");
        assert(out@ =~= job@ + seq![':']);
    }
    push_decimal(idx, &mut out);
    proof {
        assert(out@ =~= job@ + seq![':'] + dec_chars(idx as nat));
    }
    out
}

/// One chunk of a job.
#[derive(Debug, Clone)]
pub struct ComputeTask {
    /// `job_id:chunk_index`.
    pub task_id: String,
    pub parent_job_id: String,
    pub chunk_index: u32,
    pub wasm_module: Vec<u8>,
    pub input_data: Vec<u8>,
    /// One of split, execute and merge.
    pub function_name: String,
    pub delegation_depth: u32,
    pub timeout_ms: u64,
}

impl ComputeTask {
    /// A task for one chunk, named `job_id:chunk_index`, executing the
    /// module's execute function with a thirty-second timeout.
    pub fn new(parent_job_id: String, chunk_index: u32, wasm_module: Vec<u8>, input_data: Vec<u8>)
        -> (r: ComputeTask)
        ensures
            r.task_id@ == parent_job_id@ + seq![':'] + dec_chars(chunk_index as nat),
            r.parent_job_id@ == parent_job_id@,
            r.chunk_index == chunk_index,
            r.wasm_module@ == wasm_module@,
            r.input_data@ == input_data@,
            r.function_name@ == "execute"@,
            r.delegation_depth == 0,
            r.timeout_ms == 30_000,
    {
        let task_id = format_task_id(parent_job_id.as_str(), chunk_index);
        ComputeTask {
            task_id,
            parent_job_id,
            chunk_index,
            wasm_module,
            input_data,
            function_name: "execute".to_owned(),
            delegation_depth: 0,
            timeout_ms: 30_000,
        }
    }
}

/// The outcome of a compute task.
#[derive(Debug, Clone)]
pub struct TaskResult {
    pub task_id: String,
    pub status: TaskStatus,
    pub result_data: Vec<u8>,
    /// SHA-256 of the result, in lowercase hex.
    pub result_hash: String,
    pub merkle_proof: Option<Vec<String>>,
    pub execution_time_ms: u64,
    pub error_message: Option<String>,
}

impl TaskResult {
    /// A failed result carrying an error message and no data.
    pub fn failed(task_id: String, error: String) -> (r: TaskResult)
        ensures
            r.task_id@ == task_id@,
            r.status == TaskStatus::Failed,
            r.result_data@ == Seq::<u8>::empty(),
            r.result_hash@ == Seq::<char>::empty(),
            r.merkle_proof is None,
            r.execution_time_ms == 0,
            r.error_message matches Some(m) && m@ == error@,
    {
        TaskResult {
            task_id,
            status: TaskStatus::Failed,
            result_data: Vec::new(),
            result_hash: String::new(),
            merkle_proof: None,
            execution_time_ms: 0,
            error_message: Some(error),
        }
    }
}

/// Bookkeeping for one chunk of a job.
#[derive(Debug, Clone)]
pub struct ChunkInfo {
    pub index: u32,
    pub size: u64,
    /// SHA-256 of the chunk, in lowercase hex.
    pub hash: String,
    pub status: TaskStatus,
    pub assigned_worker: Option<String>,
}

} // verus!
