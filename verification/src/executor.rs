//! The compute executor: cutting a job's input into chunks, merging
//! results, and moving chunk lists through the split/merge frame.

use vstd::prelude::*;

use crate::compute::{ComputeConfig, ChunkInfo, JobManifest, TaskStatus};
use crate::crypto::{sha256_hex, sha256_hex_of};
use crate::errors::ComputeError;
use crate::frame::{
    chunk_seq, chunk_bytes, concat_seqs, frame_bytes, parse_frame, encode_frame, decode_frame,
    concat_chunks, lemma_chunk_seq_wf,
};
use crate::sysapi::unix_now_ms;

verus! {

/// Progress bookkeeping for one task.
#[derive(Debug, Clone)]
pub struct ExecutionContext {
    pub job_id: String,
    pub chunk_index: u32,
    pub total_chunks: u32,
    pub delegation_depth: u32,
    pub start_ms: u64,
}

impl ExecutionContext {
    /// A fresh context, started at the clock's current instant.
    pub fn new(job_id: String, chunk_index: u32, total_chunks: u32) -> (r: ExecutionContext)
        ensures
            r.job_id@ == job_id@,
            r.chunk_index == chunk_index,
            r.total_chunks == total_chunks,
            r.delegation_depth == 0,
    {
        ExecutionContext {
            job_id,
            chunk_index,
            total_chunks,
            delegation_depth: 0,
            start_ms: unix_now_ms(),
        }
    }

    /// Milliseconds since the context was created; nothing is promised of
    /// the clock.
    pub fn elapsed_ms(&self) -> (r: u64) {
        let now: u64 = unix_now_ms();
        now.saturating_sub(self.start_ms)
    }
}

/// The chunk size a job asks for: an eighth of the data, within the
/// job's bounds, at least one byte.
pub open spec fn spec_job_chunk_size(min_size: int, max_size: int, data_len: int) -> int {
    let target = data_len / 8;
    let clamped = if target < min_size {
        min_size
    } else if target > max_size {
        max_size
    } else {
        target
    };
    if clamped < 1 {
        1
    } else {
        clamped
    }
}

/// The executor.
pub struct ComputeExecutor {
    config: ComputeConfig,
}

impl ComputeExecutor {
    /// The configuration.
    pub closed spec fn spec_config(self) -> ComputeConfig {
        self.config
    }

    /// An executor under a configuration.
    pub fn new(config: ComputeConfig) -> (r: ComputeExecutor)
        ensures
            r.spec_config() == config,
    {
        ComputeExecutor { config }
    }

    /// Cut a job's input into chunks of the job's size, with bookkeeping
    /// for each: its index, size and hash, pending and unassigned.
    pub fn split_data(&self, job: &JobManifest, data: &[u8]) -> (r: Result<
        (Vec<Vec<u8>>, Vec<ChunkInfo>),
        ComputeError,
    >)
        requires
            job.min_chunk_size <= usize::MAX,
            job.max_chunk_size <= usize::MAX,
        ensures
            r matches Ok(pair) ==> ({
                let size = spec_job_chunk_size(
                    job.min_chunk_size as int,
                    job.max_chunk_size as int,
                    data@.len() as int,
                );
                &&& pair.0.deep_view() == chunk_seq(data@, size as nat)
                &&& pair.1@.len() == pair.0.deep_view().len()
                &&& (forall|i: int| #![trigger pair.1@[i]]
                    0 <= i < pair.1@.len() ==> (pair.1@[i].index == i && pair.1@[i].size
                        == pair.0.deep_view()[i].len() && pair.1@[i].hash@ == sha256_hex_of(
                        pair.0.deep_view()[i],
                    ) && pair.1@[i].status == TaskStatus::Pending
                        && pair.1@[i].assigned_worker is None))
            }),
            r is Err <==> chunk_seq(
                data@,
                spec_job_chunk_size(
                    job.min_chunk_size as int,
                    job.max_chunk_size as int,
                    data@.len() as int,
                ) as nat,
            ).len() > 0xffff_ffff,
    {
        let size = self.calculate_chunk_size(job, data.len());
        let chunks = chunk_bytes(data, size);
        proof {
            lemma_chunk_seq_wf(data@, size as nat);
        }
        if chunks.len() > 0xffff_ffff {
            return Err(ComputeError::InputTooLarge);
        }
        let mut infos: Vec<ChunkInfo> = Vec::new();
        let mut i: usize = 0;
        let total: usize = chunks.len();
        while i < total
            invariant
                i <= total,
                total == chunks@.len(),
                total <= 0xffff_ffff,
                infos@.len() == i,
                forall|j: int| #![trigger infos@[j]]
                    0 <= j < i ==> (infos@[j].index == j && infos@[j].size
                        == chunks.deep_view()[j].len() && infos@[j].hash@ == sha256_hex_of(
                        chunks.deep_view()[j],
                    ) && infos@[j].status == TaskStatus::Pending
                        && infos@[j].assigned_worker is None),
            decreases total - i,
        {
            proof {
                assert(chunks@[i as int]@ == chunks.deep_view()[i as int]);
            }
            let hash = sha256_hex(chunks[i].as_slice());
            infos.push(
                ChunkInfo {
                    index: i as u32,
                    size: chunks[i].len() as u64,
                    hash,
                    status: TaskStatus::Pending,
                    assigned_worker: None,
                },
            );
            i = i + 1;
        }
        Ok((chunks, infos))
    }

    /// The chunk size for a job and an input length.
    fn calculate_chunk_size(&self, job: &JobManifest, data_size: usize) -> (r: usize)
        requires
            job.min_chunk_size <= usize::MAX,
            job.max_chunk_size <= usize::MAX,
        ensures
            r as int == spec_job_chunk_size(
                job.min_chunk_size as int,
                job.max_chunk_size as int,
                data_size as int,
            ),
    {
        let min_size: usize = job.min_chunk_size as usize;
        let max_size: usize = job.max_chunk_size as usize;
        let target: usize = data_size / 8;
        let clamped: usize = if target < min_size {
            min_size
        } else if target > max_size {
            max_size
        } else {
            target
        };
        if clamped < 1 {
            1
        } else {
            clamped
        }
    }

    /// Concatenate result chunks in order.
    pub fn merge_results(&self, results: Vec<Vec<u8>>) -> (r: Result<Vec<u8>, ComputeError>)
        ensures
            r matches Ok(v) && v@ == concat_seqs(results.deep_view()),
    {
        Ok(concat_chunks(&results))
    }

    /// Frame chunks for the sandbox.
    pub fn serialize_chunks(&self, chunks: &Vec<Vec<u8>>) -> (r: Result<Vec<u8>, ComputeError>)
        requires
            chunks@.len() <= 0xffff_ffff,
        ensures
            r matches Ok(v) && v@ == frame_bytes(chunks.deep_view()),
    {
        Ok(encode_frame(chunks))
    }

    /// Read chunks back from a frame; an error exactly on malformed
    /// input.
    pub fn deserialize_chunks(&self, data: &[u8]) -> (r: Result<Vec<Vec<u8>>, ComputeError>)
        ensures
            match r {
                Ok(c) => parse_frame(data@) == Some(c.deep_view()),
                Err(e) => parse_frame(data@) is None && e == ComputeError::FrameInvalid,
            },
    {
        decode_frame(data)
    }

    /// The hex SHA-256 of a blob.
    pub fn hash_data(&self, data: &[u8]) -> (r: String)
        ensures
            r@ == sha256_hex_of(data@),
            r@.len() == 64,
    {
        sha256_hex(data)
    }

    /// A fresh context for one chunk of a job.
    pub fn create_context(&self, job_id: String, chunk_index: u32, total_chunks: u32) -> (r:
        ExecutionContext)
        ensures
            r.job_id@ == job_id@,
            r.chunk_index == chunk_index,
            r.total_chunks == total_chunks,
            r.delegation_depth == 0,
    {
        ExecutionContext::new(job_id, chunk_index, total_chunks)
    }

    /// The configuration.
    pub fn config(&self) -> (r: &ComputeConfig)
        ensures
            r == self.spec_config(),
    {
        &self.config
    }
}

} // verus!
