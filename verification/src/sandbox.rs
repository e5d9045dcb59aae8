//! The compute sandbox: validated, metered, simulated execution of the
//! split, execute and merge surface functions, with a module cache keyed by
//! SHA-256 hash.

use vstd::prelude::*;

use crate::crypto::{sha256_hex, sha256_hex_of};
use crate::errors::ComputeError;
use crate::frame::{
    frame_bytes, parse_frame, concat_seqs, chunk_seq, chunk_bytes, encode_frame, decode_frame,
    concat_chunks,
};
use crate::merkle::string_eq;
use crate::metering::{
    ResourceLimits, ResourceUsage, DEFAULT_MAX_MEMORY_BYTES, DEFAULT_MAX_CPU_CYCLES,
    DEFAULT_MAX_EXECUTION_TIME_MS, DEFAULT_MAX_STACK_BYTES,
};

verus! {

/// Sandbox configuration.
#[derive(Debug, Clone)]
pub struct SandboxConfig {
    /// Memory cap in bytes.
    pub max_memory_bytes: u64,
    /// Cycle cap.
    pub max_cpu_cycles: u64,
    /// Wall-clock cap in milliseconds.
    pub max_execution_time_ms: u64,
    /// Whether the module may touch the filesystem; off for isolation.
    pub enable_wasi: bool,
    /// When set, execute returns its input unchanged; never for production,
    /// and off unless asked for explicitly.
    pub simulation_mode: bool,
}

impl Default for SandboxConfig {
    /// 256 MB, a billion cycles, thirty seconds, no filesystem, simulation
    /// off.
    fn default() -> (r: SandboxConfig)
        ensures
            r.max_memory_bytes == DEFAULT_MAX_MEMORY_BYTES,
            r.max_cpu_cycles == DEFAULT_MAX_CPU_CYCLES,
            r.max_execution_time_ms == DEFAULT_MAX_EXECUTION_TIME_MS,
            !r.enable_wasi,
            !r.simulation_mode,
    {
        SandboxConfig {
            max_memory_bytes: DEFAULT_MAX_MEMORY_BYTES,
            max_cpu_cycles: DEFAULT_MAX_CPU_CYCLES,
            max_execution_time_ms: DEFAULT_MAX_EXECUTION_TIME_MS,
            enable_wasi: false,
            simulation_mode: false,
        }
    }
}

/// A cached module: its hash and its size.
struct CachedModule {
    hash: String,
    size: usize,
}

/// A module begins with the WASM magic `\0asm` and version 1.
pub open spec fn module_valid(b: Seq<u8>) -> bool {
    &&& b.len() >= 8
    &&& b[0] == 0x00u8
    &&& b[1] == 0x61u8
    &&& b[2] == 0x73u8
    &&& b[3] == 0x6du8
    &&& b[4] == 0x01u8
    &&& b[5] == 0x00u8
    &&& b[6] == 0x00u8
    &&& b[7] == 0x00u8
}

/// The chunk size of the default split: a quarter of the input, at least
/// 64 KB, at most the whole input.
pub open spec fn split_chunk_size(n: nat) -> nat {
    let s: nat = if n / 4 > 65536 {
        n / 4
    } else {
        65536
    };
    if s > n {
        n
    } else {
        s
    }
}

/// What the split surface function returns for `data`.
pub open spec fn split_output(data: Seq<u8>) -> Seq<u8> {
    if data.len() == 0 {
        Seq::empty()
    } else {
        frame_bytes(chunk_seq(data, split_chunk_size(data.len())))
    }
}

/// The sandbox.
pub struct WasmSandbox {
    config: SandboxConfig,
    resource_limits: ResourceLimits,
    module_cache: Vec<CachedModule>,
}

/// The cache as pairs of hash view and size.
pub open spec fn cache_contains(cache: Seq<(Seq<char>, usize)>, h: Seq<char>) -> bool {
    exists|i: int| 0 <= i < cache.len() && #[trigger] cache[i].0 == h
}

/// A cache entry records a module once validated: its hash is the digest
/// of some valid module of the recorded size.
pub open spec fn cache_entry_valid(e: (Seq<char>, usize)) -> bool {
    exists|b: Seq<u8>| #[trigger] module_valid(b) && e.0 == sha256_hex_of(b) && e.1 == b.len()
}

/// Every entry of the cache records a module once validated.
pub open spec fn cache_valid(cache: Seq<(Seq<char>, usize)>) -> bool {
    forall|i: int| 0 <= i < cache.len() ==> cache_entry_valid(#[trigger] cache[i])
}

impl WasmSandbox {
    /// The configuration.
    pub closed spec fn spec_config(self) -> SandboxConfig {
        self.config
    }

    /// The cache entries, in insertion order.
    pub closed spec fn spec_cache(self) -> Seq<(Seq<char>, usize)> {
        Seq::new(self.module_cache@.len(), |i: int| (self.module_cache@[i].hash@, self.module_cache@[i].size))
    }

    /// A fresh sandbox with the given caps and an empty cache.
    pub fn new(config: SandboxConfig) -> (r: Result<WasmSandbox, ComputeError>)
        ensures
            r matches Ok(s) && s.spec_config() == config && s.spec_cache() == Seq::<(
                Seq<char>,
                usize,
            )>::empty(),
    {
        let resource_limits = ResourceLimits {
            max_memory_bytes: config.max_memory_bytes,
            max_cpu_cycles: config.max_cpu_cycles,
            max_execution_time_ms: config.max_execution_time_ms,
            max_stack_bytes: DEFAULT_MAX_STACK_BYTES,
        };
        let s = WasmSandbox { config, resource_limits, module_cache: Vec::new() };
        proof {
            assert(s.spec_cache() =~= Seq::<(Seq<char>, usize)>::empty());
        }
        Ok(s)
    }

    /// Execute one of the surface functions on `input_data`.
    ///
    /// An empty module is rejected; an input beyond the memory cap is
    /// rejected; split frames the input's chunks, merge inverts a frame,
    /// and execute returns the input unchanged in simulation mode and is
    /// unavailable otherwise; any other name is unknown.
    pub fn execute(&self, wasm_module: &[u8], input_data: &[u8], function_name: &str) -> (r: Result<
        Vec<u8>,
        ComputeError,
    >)
        ensures
            wasm_module@.len() == 0 ==> r == Err::<Vec<u8>, ComputeError>(
                ComputeError::ModuleInvalid,
            ),
            wasm_module@.len() > 0 && input_data@.len() > self.spec_config().max_memory_bytes
                ==> r == Err::<Vec<u8>, ComputeError>(ComputeError::InputTooLarge),
            wasm_module@.len() > 0 && input_data@.len() <= self.spec_config().max_memory_bytes
                ==> {
                if function_name@ == "split"@ {
                    r matches Ok(v) && v@ == split_output(input_data@)
                } else if function_name@ == "execute"@ {
                    if self.spec_config().simulation_mode {
                        r matches Ok(v) && v@ == input_data@
                    } else {
                        r == Err::<Vec<u8>, ComputeError>(ComputeError::ExecutionUnavailable)
                    }
                } else if function_name@ == "merge"@ {
                    match parse_frame(input_data@) {
                        Some(c) => r matches Ok(v) && v@ == concat_seqs(c),
                        None => r == Err::<Vec<u8>, ComputeError>(ComputeError::FrameInvalid),
                    }
                } else {
                    r == Err::<Vec<u8>, ComputeError>(ComputeError::UnknownFunction)
                }
            },
    {
        if wasm_module.len() == 0 {
            return Err(ComputeError::ModuleInvalid);
        }
        if input_data.len() as u64 > self.config.max_memory_bytes {
            return Err(ComputeError::InputTooLarge);
        }
        let name = function_name.to_owned();
        if string_eq(&name, &"split".to_owned()) {
            self.simulate_split(input_data)
        } else if string_eq(&name, &"execute".to_owned()) {
            self.simulate_execute(input_data)
        } else if string_eq(&name, &"merge".to_owned()) {
            self.simulate_merge(input_data)
        } else {
            Err(ComputeError::UnknownFunction)
        }
    }

    /// The split surface function: cut the input into chunks of the default
    /// size and frame them; empty input gives empty output.
    pub fn simulate_split(&self, data: &[u8]) -> (r: Result<Vec<u8>, ComputeError>)
        ensures
            r matches Ok(v) && v@ == split_output(data@),
    {
        if data.len() == 0 {
            let empty: Vec<u8> = Vec::new();
            proof {
                assert(empty@ =~= split_output(data@));
            }
            return Ok(empty);
        }
        let n: usize = data.len();
        let quarter: usize = n / 4;
        let mut size: usize = if quarter > 65536 {
            quarter
        } else {
            65536
        };
        if size > n {
            size = n;
        }
        proof {
            assert(size as nat == split_chunk_size(data@.len()));
        }
        let chunks = chunk_bytes(data, size);
        proof {
            lemma_chunk_count(data@, size as nat);
            if size == n {
                assert(chunk_seq(data@, size as nat).len() <= 1 + 1);
            } else {
                lemma_split_count_small(data@.len() as nat);
            }
        }
        let framed = encode_frame(&chunks);
        Ok(framed)
    }

    /// The execute surface function: the input unchanged in simulation
    /// mode, unavailable otherwise.
    pub fn simulate_execute(&self, data: &[u8]) -> (r: Result<Vec<u8>, ComputeError>)
        ensures
            self.spec_config().simulation_mode ==> (r matches Ok(v) && v@ == data@),
            !self.spec_config().simulation_mode ==> r == Err::<Vec<u8>, ComputeError>(
                ComputeError::ExecutionUnavailable,
            ),
    {
        if self.config.simulation_mode {
            Ok(vstd::slice::slice_to_vec(data))
        } else {
            Err(ComputeError::ExecutionUnavailable)
        }
    }

    /// The merge surface function: parse a frame and concatenate its
    /// chunks; an error exactly on a malformed frame.
    pub fn simulate_merge(&self, data: &[u8]) -> (r: Result<Vec<u8>, ComputeError>)
        ensures
            match parse_frame(data@) {
                Some(c) => r matches Ok(v) && v@ == concat_seqs(c),
                None => r == Err::<Vec<u8>, ComputeError>(ComputeError::FrameInvalid),
            },
    {
        let chunks = match decode_frame(data) {
            Ok(c) => c,
            Err(e) => {
                return Err(e);
            },
        };
        Ok(concat_chunks(&chunks))
    }

    /// Whether the bytes begin with the WASM magic and version.
    pub fn validate_module(&self, bytes: &[u8]) -> (r: bool)
        ensures
            r == module_valid(bytes@),
    {
        if bytes.len() < 8 {
            return false;
        }
        bytes[0] == 0x00 && bytes[1] == 0x61 && bytes[2] == 0x73 && bytes[3] == 0x6d && bytes[4]
            == 0x01 && bytes[5] == 0x00 && bytes[6] == 0x00 && bytes[7] == 0x00
    }

    /// Load a module: hash it, validate it if its hash is new, and cache
    /// it.  The result is its hash; an error exactly when the module is
    /// both new and invalid.  Cache validity is preserved: only modules
    /// once validated enter the cache.
    pub fn load_module(&mut self, wasm_bytes: &[u8]) -> (r: Result<String, ComputeError>)
        ensures
            final(self).spec_config() == old(self).spec_config(),
            cache_valid(old(self).spec_cache()) ==> cache_valid(final(self).spec_cache()),
            r matches Ok(h) ==> h@ == sha256_hex_of(wasm_bytes@) && cache_contains(
                final(self).spec_cache(),
                sha256_hex_of(wasm_bytes@),
            ),
            r is Ok <==> (module_valid(wasm_bytes@) || cache_contains(
                old(self).spec_cache(),
                sha256_hex_of(wasm_bytes@),
            )),
            r is Err ==> final(self).spec_cache() == old(self).spec_cache() && r == Err::<
                String,
                ComputeError,
            >(ComputeError::ModuleInvalid),
            cache_contains(old(self).spec_cache(), sha256_hex_of(wasm_bytes@))
                ==> final(self).spec_cache() == old(self).spec_cache(),
            r is Ok && !cache_contains(old(self).spec_cache(), sha256_hex_of(wasm_bytes@))
                ==> final(self).spec_cache() == old(self).spec_cache().push(
                (sha256_hex_of(wasm_bytes@), wasm_bytes@.len() as usize),
            ),
    {
        let hash = sha256_hex(wasm_bytes);
        if self.is_module_cached(hash.as_str()) {
            return Ok(hash);
        }
        if !self.validate_module(wasm_bytes) {
            return Err(ComputeError::ModuleInvalid);
        }
        let ghost cache0 = self.spec_cache();
        let entry = CachedModule { hash: hash.clone(), size: wasm_bytes.len() };
        self.module_cache.push(entry);
        proof {
            assert(self.spec_cache() =~= cache0.push((hash@, wasm_bytes@.len() as usize)));
            assert(self.spec_cache()[cache0.len() as int].0 == sha256_hex_of(wasm_bytes@));
            if cache_valid(cache0) {
                let e = (sha256_hex_of(wasm_bytes@), wasm_bytes@.len() as usize);
                assert(module_valid(wasm_bytes@) && e.0 == sha256_hex_of(wasm_bytes@) && e.1
                    == wasm_bytes@.len());
                assert(cache_entry_valid(e));
                assert forall|i: int| 0 <= i < self.spec_cache().len() implies cache_entry_valid(
                    #[trigger] self.spec_cache()[i],
                ) by {
                    if i < cache0.len() {
                        assert(self.spec_cache()[i] == cache0[i]);
                    } else {
                        assert(self.spec_cache()[i] == e);
                    }
                }
            }
        }
        Ok(hash)
    }

    /// Whether a module with this hash is cached.
    pub fn is_module_cached(&self, hash: &str) -> (r: bool)
        ensures
            r == cache_contains(self.spec_cache(), hash@),
    {
        let want = hash.to_owned();
        let mut i: usize = 0;
        while i < self.module_cache.len()
            invariant
                i <= self.module_cache@.len(),
                want@ == hash@,
                forall|j: int| 0 <= j < i ==> #[trigger] self.spec_cache()[j].0 != hash@,
            decreases self.module_cache@.len() - i,
        {
            if string_eq(&self.module_cache[i].hash, &want) {
                proof {
                    assert(self.spec_cache()[i as int].0 == hash@);
                }
                return true;
            }
            i = i + 1;
        }
        false
    }

    /// The size of the cached module with this hash, if any.
    pub fn get_cached_module_size(&self, hash: &str) -> (r: Option<usize>)
        ensures
            r matches Some(s) ==> exists|i: int| 0 <= i < self.spec_cache().len()
                && #[trigger] self.spec_cache()[i] == (hash@, s),
            r is None <==> !cache_contains(self.spec_cache(), hash@),
    {
        let want = hash.to_owned();
        let mut i: usize = 0;
        while i < self.module_cache.len()
            invariant
                i <= self.module_cache@.len(),
                want@ == hash@,
                forall|j: int| 0 <= j < i ==> #[trigger] self.spec_cache()[j].0 != hash@,
            decreases self.module_cache@.len() - i,
        {
            if string_eq(&self.module_cache[i].hash, &want) {
                proof {
                    assert(self.spec_cache()[i as int] == (hash@, self.module_cache@[i as int].size));
                    assert(self.spec_cache()[i as int].0 == hash@);
                    assert(cache_contains(self.spec_cache(), hash@));
                }
                return Some(self.module_cache[i].size);
            }
            i = i + 1;
        }
        None
    }

    /// A zeroed usage snapshot: the simulated runtime does not track live
    /// consumption.
    pub fn get_resource_usage(&self) -> (r: ResourceUsage)
        ensures
            r.memory_bytes == 0,
            r.cpu_cycles == 0,
            r.execution_time_ms == 0,
    {
        ResourceUsage { memory_bytes: 0, cpu_cycles: 0, execution_time_ms: 0 }
    }

    /// Drop every cached module.
    pub fn clear_cache(&mut self)
        ensures
            final(self).spec_config() == old(self).spec_config(),
            final(self).spec_cache() == Seq::<(Seq<char>, usize)>::empty(),
    {
        self.module_cache.clear();
        proof {
            assert(self.spec_cache() =~= Seq::<(Seq<char>, usize)>::empty());
        }
    }

    /// The configuration.
    pub fn config(&self) -> (r: &SandboxConfig)
        ensures
            r == self.spec_config(),
    {
        &self.config
    }
}

/// Merging a split restores the input: for nonempty data, the split
/// output parses as the input's chunks, and their concatenation is the
/// input.
pub proof fn lemma_split_merge_round_trip(data: Seq<u8>)
    requires
        1 <= data.len() <= 0xffff_ffff,
    ensures
        parse_frame(split_output(data)) == Some(
            chunk_seq(data, split_chunk_size(data.len())),
        ),
        concat_seqs(chunk_seq(data, split_chunk_size(data.len()))) == data,
{
    let size = split_chunk_size(data.len());
    assert(size >= 1);
    let chunks = chunk_seq(data, size);
    crate::frame::lemma_chunk_seq_wf(data, size);
    lemma_chunk_count(data, size);
    if size == data.len() {
        assert(chunks.len() <= 2);
    } else {
        assert(size < data.len());
        lemma_split_count_small(data.len());
        assert(chunks.len() <= data.len() as int / size as int + 1);
    }
    assert(chunks.len() <= 0xffff_ffff);
    assert(crate::frame::chunks_wf(chunks)) by {
        assert(forall|i: int| 0 <= i < chunks.len() ==> #[trigger] chunks[i].len() <= size);
        assert(size <= data.len());
    }
    crate::frame::lemma_parse_of_frame(chunks);
    crate::frame::lemma_concat_of_chunks(data, size);
}

/// The number of chunks is at most `data.len() / size + 1`.
proof fn lemma_chunk_count(data: Seq<u8>, size: nat)
    requires
        size >= 1,
    ensures
        chunk_seq(data, size).len() <= data.len() as int / size as int + 1,
    decreases data.len(),
{
    if data.len() == 0 {
    } else if data.len() <= size {
    } else {
        lemma_chunk_count(data.skip(size as int), size);
        assert(data.skip(size as int).len() == data.len() - size);
        assert((data.len() - size) as int / size as int == data.len() as int / size as int - 1) by (nonlinear_arith)
            requires
                size >= 1,
                data.len() > size,
        ;
    }
}

/// The default split yields at most five chunks beyond the first.
proof fn lemma_split_count_small(n: nat)
    requires
        n >= 1,
        split_chunk_size(n) < n,
    ensures
        n as int / split_chunk_size(n) as int + 1 <= 0xffff_ffff,
{
    let s = split_chunk_size(n);
    if n / 4 > 65536 {
        assert(s == n / 4);
        assert(n as int / (n as int / 4) <= 5) by (nonlinear_arith)
            requires
                n / 4 > 65536,
        ;
    } else {
        assert(n <= 4 * 65536 + 3);
        assert(s == 65536);
        assert(n / 65536 <= 4);
    }
}

} // verus!
