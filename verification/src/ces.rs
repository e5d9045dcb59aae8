//! The compress/encrypt/shard pipeline.
//!
//! A blob is compressed by its detected file type behind a one-byte
//! marker that records whether compression ran, sealed under
//! XChaCha20-Poly1305 with a fresh nonce, framed behind a 4-byte length,
//! and cut into `k` data shards with `m` Reed-Solomon parity shards.
//! `ces_artifact` pins the whole shard set as a function of the blob, the
//! key and the nonce; `reconstruct`'s `ensures` is the round-trip law:
//! any slot set agreeing with an artifact on at least `k` present slots
//! reconstructs the original blob, whatever its detected type.

use vstd::prelude::*;
use vstd::bytes::{spec_u32_to_le_bytes, spec_u32_from_le_bytes, lemma_auto_spec_u32_to_from_le_bytes, u32_to_le_bytes, u32_from_le_bytes};

use crate::caps::HardwareCaps;
use crate::codec::{rs_codeword, rs_encode, rs_reconstruct, present_count, agrees_with,
    restores_codewords};
use crate::compress::{zstd_of, brotli_of, zstd_compress, zstd_decompress, brotli_compress,
    brotli_decompress, sha256_digest, sha256_digest_of};
use crate::crypto::{chacha_seal, xchacha_seal, xchacha_open, random_bytes_32, random_nonce_24};
use crate::detect::{FileDetector, spec_content_class, spec_level_for, spec_skip_compression};
use crate::errors::CesError;
use crate::fec::{pad_to, zeros, fec_data_shards, pad_packet, copy_bytes, zero_bytes};
use crate::frame::{chunk_seq, chunk_bytes, concat_seqs, lemma_chunk_seq_wf};

verus! {

/// The compression algorithm of a pipeline.
#[derive(Debug, Clone, Copy, PartialEq, Eq, Structural)]
pub enum CompressionAlgorithm {
    /// Zstandard.
    Zstd,
    /// Brotli.
    Brotli,
    /// No compression.
    Uncompressed,
}

/// Pipeline configuration.
#[derive(Debug, Clone)]
pub struct CesConfig {
    pub compression_level: i32,
    pub compression_algorithm: CompressionAlgorithm,
    pub shard_count: usize,
    pub parity_count: usize,
    pub chunk_size: usize,
}

impl CesConfig {
    /// The stock configuration: Zstandard at level three, eight data
    /// shards, four parity shards, megabyte chunks.
    pub fn default() -> (r: CesConfig)
        ensures
            r.compression_level == 3,
            r.compression_algorithm == CompressionAlgorithm::Zstd,
            r.shard_count == 8,
            r.parity_count == 4,
            r.chunk_size == 1024 * 1024,
    {
        CesConfig {
            compression_level: 3,
            compression_algorithm: CompressionAlgorithm::Zstd,
            shard_count: 8,
            parity_count: 4,
            chunk_size: 1024 * 1024,
        }
    }

    /// A configuration sized to the machine and the file: bigger chunks
    /// for more memory, the strongest level for many cores, and between
    /// four and thirty-two shards with half as much parity.
    pub fn adaptive(caps: &HardwareCaps, file_size: u64) -> (r: CesConfig)
        ensures
            r.chunk_size == if caps.ram_gb > 16 {
                100 * 1024 * 1024int
            } else if caps.ram_gb > 4 {
                10 * 1024 * 1024int
            } else {
                64 * 1024int
            },
            r.compression_level == if caps.cpu_cores > 8 {
                9int
            } else {
                3int
            },
            r.compression_algorithm == CompressionAlgorithm::Zstd,
            r.shard_count as int == ({
                let base = file_size as int / r.chunk_size as int;
                if base < 4 {
                    4int
                } else if base > 32 {
                    32int
                } else {
                    base
                }
            }),
            r.parity_count == r.shard_count / 2,
    {
        let chunk_size: usize = if caps.ram_gb > 16 {
            100 * 1024 * 1024
        } else if caps.ram_gb > 4 {
            10 * 1024 * 1024
        } else {
            64 * 1024
        };
        let compression_level: i32 = if caps.cpu_cores > 8 {
            9
        } else {
            3
        };
        let base: u64 = file_size / (chunk_size as u64);
        let shard_count: usize = if base < 4 {
            4
        } else if base > 32 {
            32
        } else {
            base as usize
        };
        CesConfig {
            compression_level,
            compression_algorithm: CompressionAlgorithm::Zstd,
            shard_count,
            parity_count: shard_count / 2,
            chunk_size,
        }
    }
}

/// The Brotli quality for a level: the level itself within range, the
/// ceiling otherwise.
pub open spec fn spec_brotli_quality(level: int) -> int {
    if level < 0 || level > 11 {
        11
    } else {
        level
    }
}

/// What compression makes of a blob under a configuration, behind a
/// one-byte marker: zero then the blob itself for types that skip
/// compression (and when compression is off), one then the configured
/// algorithm's image at the type's level otherwise.  The marker rides
/// inside the sealed payload, so reconstruction knows whether to
/// decompress.
pub open spec fn payload_bytes(cfg: CesConfig, data: Seq<u8>) -> Seq<u8> {
    let t = spec_content_class(data);
    match cfg.compression_algorithm {
        CompressionAlgorithm::Uncompressed => seq![0u8] + data,
        CompressionAlgorithm::Zstd => if spec_skip_compression(t) {
            seq![0u8] + data
        } else {
            seq![1u8] + zstd_of(data, spec_level_for(t))
        },
        CompressionAlgorithm::Brotli => if spec_skip_compression(t) {
            seq![0u8] + data
        } else {
            seq![1u8] + brotli_of(data, spec_brotli_quality(spec_level_for(t)))
        },
    }
}

/// The nonce-and-ciphertext body of an artifact.
pub open spec fn ces_enc(cfg: CesConfig, key: Seq<u8>, nonce: Seq<u8>, data: Seq<u8>) -> Seq<u8> {
    nonce + chacha_seal(key, nonce, payload_bytes(cfg, data))
}

/// The framed buffer before sharding: the 4-byte little-endian length of
/// the body, then the body.
pub open spec fn ces_framed(cfg: CesConfig, key: Seq<u8>, nonce: Seq<u8>, data: Seq<u8>) -> Seq<
    u8,
> {
    let enc = ces_enc(cfg, key, nonce, data);
    spec_u32_to_le_bytes(enc.len() as u32) + enc
}

/// The shard size of a framed buffer: its length over `k` shards, rounded
/// up.
pub open spec fn ces_shard_size(cfg: CesConfig, framed_len: nat) -> nat {
    ((framed_len + cfg.shard_count - 1) as int / cfg.shard_count as int) as nat
}

/// The `k` data shards of an artifact.
pub open spec fn ces_data_shards(cfg: CesConfig, key: Seq<u8>, nonce: Seq<u8>, data: Seq<u8>)
    -> Seq<Seq<u8>> {
    let framed = ces_framed(cfg, key, nonce, data);
    let size = ces_shard_size(cfg, framed.len());
    fec_data_shards(chunk_seq(framed, size), cfg.shard_count as nat, size)
}

/// The full artifact: the data shards, with Reed-Solomon parity after
/// them when any is configured.
pub open spec fn ces_artifact(cfg: CesConfig, key: Seq<u8>, nonce: Seq<u8>, data: Seq<u8>) -> Seq<
    Seq<u8>,
> {
    let dshards = ces_data_shards(cfg, key, nonce, data);
    if cfg.parity_count == 0 {
        dshards
    } else {
        rs_codeword(cfg.shard_count as nat, cfg.parity_count as nat, dshards)
    }
}

/// Whether the pipeline's round trip applies to a blob: the body length
/// fits the 4-byte frame field.
pub open spec fn ces_applicable(cfg: CesConfig, key: Seq<u8>, nonce: Seq<u8>, data: Seq<u8>)
    -> bool {
    ces_enc(cfg, key, nonce, data).len() <= 0xffff_ffff
}

/// The round-trip hypothesis: the slot set has the artifact's shape, its
/// present slots agree with the artifact of `data` under `key` and
/// `nonce`, and at least `k` of them are present.
pub open spec fn ces_matches(
    cfg: CesConfig,
    key: Seq<u8>,
    opts: Seq<Option<Seq<u8>>>,
    data: Seq<u8>,
    nonce: Seq<u8>,
) -> bool {
    &&& nonce.len() == 24
    &&& ces_applicable(cfg, key, nonce, data)
    &&& opts.len() == cfg.shard_count + cfg.parity_count
    &&& (forall|i: int|
        0 <= i < opts.len() ==> (#[trigger] opts[i] matches Some(v) ==> v.len() == ces_shard_size(
            cfg,
            ces_framed(cfg, key, nonce, data).len(),
        )))
    &&& agrees_with(opts, ces_artifact(cfg, key, nonce, data))
    &&& present_count(opts) >= cfg.shard_count
}

/// The pipeline: a configuration and a symmetric key.
pub struct CesPipeline {
    config: CesConfig,
    encryption_key: [u8; 32],
}

impl CesPipeline {
    /// The configuration.
    pub closed spec fn spec_config(self) -> CesConfig {
        self.config
    }

    /// The symmetric key.
    pub closed spec fn spec_key(self) -> Seq<u8> {
        self.encryption_key@
    }

    /// A pipeline with a fresh random key.
    pub fn new(config: CesConfig) -> (r: CesPipeline)
        ensures
            r.spec_config() == config,
    {
        CesPipeline { config, encryption_key: random_bytes_32() }
    }

    /// The same pipeline under an explicit key.
    pub fn with_key(self, key: [u8; 32]) -> (r: CesPipeline)
        ensures
            r.spec_config() == self.spec_config(),
            r.spec_key() == key@,
    {
        CesPipeline { config: self.config, encryption_key: key }
    }

    /// The configured parity count.
    pub fn parity_count(&self) -> (r: usize)
        ensures
            r == self.spec_config().parity_count,
    {
        self.config.parity_count
    }

    /// Compress, seal and shard a blob: on success the shards are exactly
    /// the artifact of the blob under the key and some fresh 24-byte
    /// nonce, every shard of the artifact's shard size, and there are
    /// `k + m` of them.  Every blob whose sealed payload fits the 4-byte
    /// frame is processed.
    pub fn process(&self, data: &[u8]) -> (r: Result<Vec<Vec<u8>>, CesError>)
        requires
            1 <= self.spec_config().shard_count,
            self.spec_config().shard_count + self.spec_config().parity_count <= 256,
        ensures
            r matches Ok(shards) ==> shards@.len() == self.spec_config().shard_count
                + self.spec_config().parity_count,
            r matches Ok(shards) ==> (exists|nonce: Seq<u8>|
                nonce.len() == 24 && shards.deep_view() == #[trigger] ces_artifact(
                    self.spec_config(),
                    self.spec_key(),
                    nonce,
                    data@,
                ) && ces_applicable(self.spec_config(), self.spec_key(), nonce, data@) && (forall|
                    t: int,
                |
                    0 <= t < shards.deep_view().len() ==> #[trigger] shards.deep_view()[t].len()
                        == ces_shard_size(
                        self.spec_config(),
                        ces_framed(self.spec_config(), self.spec_key(), nonce, data@).len(),
                    ))),
            payload_bytes(self.spec_config(), data@).len() + 40 <= 0xffff_ffff ==> r is Ok,
    {
        let ghost cfg = self.spec_config();
        let file_type = FileDetector::detect_from_content(data);
        let skip = file_type.skip_compression();
        let raw = skip || matches!(
            self.config.compression_algorithm,
            CompressionAlgorithm::Uncompressed,
        );
        let mut payload: Vec<u8> = Vec::new();
        if raw {
            payload.push(0);
            let mut copied = vstd::slice::slice_to_vec(data);
            payload.append(&mut copied);
            proof {
                assert(payload@ =~= payload_bytes(cfg, data@));
            }
        } else {
            let level = file_type.recommended_compression_level();
            let stage = self.compress_with_level(data, level);
            let body = match stage {
                Ok(v) => v,
                Err(e) => {
                    proof {
                        assert(false);
                    }
                    return Err(e);
                },
            };
            payload.push(1);
            let mut body_mut = body;
            payload.append(&mut body_mut);
            proof {
                assert(spec_level_for(spec_content_class(data@)) != 0);
                assert(payload@ =~= payload_bytes(cfg, data@));
            }
        }
        self.seal_and_shard(payload, data, Ghost(data@))
    }

    /// Seal a payload and shard the framed result.
    fn seal_and_shard(&self, payload: Vec<u8>, data: &[u8], orig: Ghost<Seq<u8>>) -> (r: Result<
        Vec<Vec<u8>>,
        CesError,
    >)
        requires
            1 <= self.spec_config().shard_count,
            self.spec_config().shard_count + self.spec_config().parity_count <= 256,
            orig@ == data@,
        ensures
            r matches Ok(shards) ==> shards@.len() == self.spec_config().shard_count
                + self.spec_config().parity_count,
            payload@.len() + 40 <= 0xffff_ffff ==> r is Ok,
            payload@ == payload_bytes(self.spec_config(), orig@) ==> (r matches Ok(shards) ==> (
            exists|nonce: Seq<u8>|
                nonce.len() == 24 && shards.deep_view() == #[trigger] ces_artifact(
                    self.spec_config(),
                    self.spec_key(),
                    nonce,
                    orig@,
                ) && ces_enc(self.spec_config(), self.spec_key(), nonce, orig@).len()
                    <= 0xffff_ffff && (forall|t: int|
                    0 <= t < shards.deep_view().len() ==> #[trigger] shards.deep_view()[t].len()
                        == ces_shard_size(
                        self.spec_config(),
                        ces_framed(self.spec_config(), self.spec_key(), nonce, orig@).len(),
                    )))),
    {
        let ghost cfg = self.spec_config();
        let nonce: [u8; 24] = random_nonce_24();
        let sealed = xchacha_seal(&self.encryption_key, &nonce, payload.as_slice());
        let ct = match sealed {
            Ok(v) => v,
            Err(_) => {
                return Err(CesError::CiphertextInvalid);
            },
        };
        if ct.len() > 0xffff_ffff - 24 {
            return Err(CesError::CompressionFailed);
        }
        let mut enc: Vec<u8> = Vec::new();
        let mut ni: usize = 0;
        while ni < 24
            invariant
                ni <= 24,
                enc@ =~= nonce@.take(ni as int),
            decreases 24 - ni,
        {
            enc.push(nonce[ni]);
            ni = ni + 1;
            proof {
                assert(enc@ =~= nonce@.take(ni as int));
            }
        }
        proof {
            assert(nonce@.take(24) =~= nonce@);
        }
        let mut ct_mut = ct;
        enc.append(&mut ct_mut);
        let enc_len: u32 = enc.len() as u32;
        let mut framed: Vec<u8> = u32_to_le_bytes(enc_len);
        let mut enc_mut = enc;
        framed.append(&mut enc_mut);
        let ghost in_spec = payload@ == payload_bytes(cfg, orig@);
        let ghost framed_spec = ces_framed(cfg, self.spec_key(), nonce@, orig@);
        proof {
            if in_spec {
                assert(framed@ =~= framed_spec);
            }
        }
        let k: usize = self.config.shard_count;
        let m: usize = self.config.parity_count;
        let size: usize = (framed.len() - 1) / k + 1;
        proof {
            assert(framed@.len() >= 4);
            assert(size as int == (framed@.len() + k - 1) as int / k as int) by (nonlinear_arith)
                requires
                    size as int == (framed@.len() - 1) as int / k as int + 1,
                    framed@.len() >= 1,
                    k >= 1,
            ;
            assert(size >= 1) by (nonlinear_arith)
                requires
                    size as int == (framed@.len() - 1) as int / k as int + 1,
                    framed@.len() >= 1,
                    k >= 1,
            ;
            assert(framed@.len() <= k * size) by (nonlinear_arith)
                requires
                    size as int == (framed@.len() + k - 1) as int / k as int,
                    framed@.len() >= 1,
                    k >= 1,
            ;
        }
        let chunks = chunk_bytes(framed.as_slice(), size);
        proof {
            lemma_chunk_seq_wf(framed@, size as nat);
            lemma_chunk_count_le(framed@, size as nat, k as nat);
        }
        let ghost dshards = fec_data_shards(chunk_seq(framed@, size as nat), k as nat, size as nat);
        let mut shards: Vec<Vec<u8>> = Vec::new();
        let mut i: usize = 0;
        let chunk_count: usize = chunks.len();
        while i < chunk_count
            invariant
                i <= chunk_count,
                chunk_count == chunks@.len(),
                chunks.deep_view() == chunk_seq(framed@, size as nat),
                chunk_count <= k,
                dshards == fec_data_shards(chunk_seq(framed@, size as nat), k as nat, size as nat),
                forall|t: int| 0 <= t < chunk_count ==> #[trigger] chunks.deep_view()[t].len()
                    <= size,
                shards.deep_view() =~~= dshards.take(i as int),
            decreases chunk_count - i,
        {
            let ghost sh0 = shards.deep_view();
            proof {
                assert(chunks@[i as int]@ == chunks.deep_view()[i as int]);
            }
            let padded = pad_packet(&chunks[i], size);
            shards.push(padded);
            i = i + 1;
            proof {
                assert(shards.deep_view() =~~= sh0.push(
                    pad_to(chunks.deep_view()[i - 1], size as nat),
                ));
                assert(dshards[i - 1] == pad_to(
                    chunk_seq(framed@, size as nat)[i - 1],
                    size as nat,
                ));
                assert(shards.deep_view() =~~= dshards.take(i as int));
            }
        }
        while i < k
            invariant
                chunk_count <= i <= k,
                size >= 1,
                dshards == fec_data_shards(chunk_seq(framed@, size as nat), k as nat, size as nat),
                chunk_seq(framed@, size as nat).len() == chunk_count,
                shards.deep_view() =~~= dshards.take(i as int),
            decreases k - i,
        {
            let ghost sh0 = shards.deep_view();
            let z = zero_bytes(size);
            shards.push(z);
            i = i + 1;
            proof {
                assert(shards.deep_view() =~~= sh0.push(zeros(size as nat)));
                assert(dshards[i - 1] == zeros(size as nat));
                assert(shards.deep_view() =~~= dshards.take(i as int));
            }
        }
        proof {
            assert(dshards.take(k as int) =~~= dshards);
            assert(shards.deep_view() =~~= dshards);
            lemma_data_shard_sizes(chunk_seq(framed@, size as nat), k as nat, size as nat);
        }
        if m == 0 {
            proof {
                if in_spec {
                    assert(size as nat == ces_shard_size(cfg, framed_spec.len()));
                    assert(shards.deep_view() == ces_artifact(cfg, self.spec_key(), nonce@, orig@));
                    assert(ces_enc(cfg, self.spec_key(), nonce@, orig@).len() <= 0xffff_ffff);
                    assert(forall|t: int| 0 <= t < shards.deep_view().len()
                        ==> #[trigger] shards.deep_view()[t].len() == size);
                }
            }
            return Ok(shards);
        }
        let mut j: usize = k;
        while j < k + m
            invariant
                k <= j <= k + m,
                size >= 1,
                k >= 1,
                k + m <= 256,
                shards.deep_view() =~~= dshards + Seq::new(
                    (j - k) as nat,
                    |t: int| zeros(size as nat),
                ),
                dshards.len() == k,
                forall|t: int| 0 <= t < dshards.len() ==> #[trigger] dshards[t].len() == size,
            decreases k + m - j,
        {
            let ghost sh0 = shards.deep_view();
            let z = zero_bytes(size);
            shards.push(z);
            j = j + 1;
            proof {
                assert(shards.deep_view() =~~= sh0.push(zeros(size as nat)));
                assert(shards.deep_view() =~~= dshards + Seq::new(
                    (j - k) as nat,
                    |t: int| zeros(size as nat),
                ));
            }
        }
        proof {
            assert(shards.deep_view().len() == k + m);
            assert(forall|t: int| 0 <= t < k + m ==> #[trigger] shards.deep_view()[t].len()
                == size);
            assert(shards.deep_view()[0].len() == size);
            assert(crate::codec::shards_uniform(shards.deep_view(), size as nat));
        }
        let enc_result = rs_encode(k, m, &mut shards);
        if enc_result.is_err() {
            return Err(CesError::CompressionFailed);
        }
        proof {
            assert(shards.deep_view().take(k as int) =~~= dshards);
            if in_spec {
                assert(size as nat == ces_shard_size(cfg, framed_spec.len()));
                assert(shards.deep_view() == rs_codeword(k as nat, m as nat, dshards));
                assert(shards.deep_view() == ces_artifact(cfg, self.spec_key(), nonce@, orig@));
                assert(ces_enc(cfg, self.spec_key(), nonce@, orig@).len() <= 0xffff_ffff);
                assert(forall|t: int| 0 <= t < shards.deep_view().len()
                    ==> #[trigger] shards.deep_view()[t].len() == size);
            }
        }
        Ok(shards)
    }

    /// Compress a blob at the configured level.  Compression succeeds for
    /// every blob, except under Zstandard at a level outside the range
    /// the encoder accepts.
    pub fn compress(&self, data: &[u8]) -> (r: Result<Vec<u8>, CesError>)
        ensures
            (self.spec_config().compression_algorithm == CompressionAlgorithm::Zstd ==> 0
                <= self.spec_config().compression_level <= 19) ==> r is Ok,
            r matches Ok(v) ==> v@ == match self.spec_config().compression_algorithm {
                CompressionAlgorithm::Uncompressed => data@,
                CompressionAlgorithm::Zstd => if self.spec_config().compression_level == 0 {
                    data@
                } else {
                    zstd_of(data@, self.spec_config().compression_level as int)
                },
                CompressionAlgorithm::Brotli => if self.spec_config().compression_level == 0 {
                    data@
                } else {
                    brotli_of(
                        data@,
                        spec_brotli_quality(self.spec_config().compression_level as int),
                    )
                },
            },
    {
        let level = self.config.compression_level;
        self.compress_with_level(data, level)
    }

    /// Compress a blob at a level: at level zero, or with compression
    /// off, the blob itself; otherwise the configured algorithm's image.
    fn compress_with_level(&self, data: &[u8], level: i32) -> (r: Result<Vec<u8>, CesError>)
        ensures
            (self.spec_config().compression_algorithm == CompressionAlgorithm::Zstd ==> 0 <= level
                <= 19) ==> r is Ok,
            r matches Ok(v) ==> v@ == match self.spec_config().compression_algorithm {
                CompressionAlgorithm::Uncompressed => data@,
                CompressionAlgorithm::Zstd => if level == 0 {
                    data@
                } else {
                    zstd_of(data@, level as int)
                },
                CompressionAlgorithm::Brotli => if level == 0 {
                    data@
                } else {
                    brotli_of(data@, spec_brotli_quality(level as int))
                },
            },
    {
        if level == 0 {
            return Ok(vstd::slice::slice_to_vec(data));
        }
        match self.config.compression_algorithm {
            CompressionAlgorithm::Zstd => zstd_compress(data, level),
            CompressionAlgorithm::Brotli => {
                let quality: u32 = if level < 0 || level > 11 {
                    11
                } else {
                    level as u32
                };
                brotli_compress(data, quality)
            },
            CompressionAlgorithm::Uncompressed => Ok(vstd::slice::slice_to_vec(data)),
        }
    }

    /// Reconstruct a blob from its shard slots — the round-trip law: for
    /// every blob and nonce whose artifact the present slots agree with,
    /// at least `k` of them present, the result is exactly that blob.
    pub fn reconstruct(&self, shards: Vec<Option<Vec<u8>>>) -> (r: Result<Vec<u8>, CesError>)
        requires
            1 <= self.spec_config().shard_count,
            self.spec_config().shard_count + self.spec_config().parity_count <= 256,
        ensures
            forall|data: Seq<u8>, nonce: Seq<u8>|
                #[trigger] ces_matches(
                    self.spec_config(),
                    self.spec_key(),
                    shards.deep_view(),
                    data,
                    nonce,
                ) ==> (r matches Ok(v) && v@ == data),
    {
        let ghost cfg = self.spec_config();
        let ghost key = self.spec_key();
        let ghost opts0 = shards.deep_view();
        let k: usize = self.config.shard_count;
        let m: usize = self.config.parity_count;
        let mut opts = shards;
        if opts.len() != k + m {
            return Err(CesError::InsufficientShards);
        }
        let shape = check_uniform(&opts);
        if !shape {
            proof {
                assert forall|data: Seq<u8>, nonce: Seq<u8>|
                    !(#[trigger] ces_matches(cfg, key, opts0, data, nonce)) by {
                    if ces_matches(cfg, key, opts0, data, nonce) {
                        let size = ces_shard_size(cfg, ces_framed(cfg, key, nonce, data).len());
                        lemma_framed_floor(cfg, key, nonce, data);
                        assert(size >= 1) by (nonlinear_arith)
                            requires
                                size == (ces_framed(cfg, key, nonce, data).len() + cfg.shard_count
                                    - 1) as int / cfg.shard_count as int,
                                ces_framed(cfg, key, nonce, data).len() >= 1,
                                cfg.shard_count >= 1,
                        ;
                        assert(forall|a: int, b: int|
                            0 <= a < opts0.len() && 0 <= b < opts0.len() ==> (#[trigger] opts0[a] matches Some(
                                v,
                            ) ==> (#[trigger] opts0[b] matches Some(w) ==> v.len() == w.len())));
                        assert(forall|a: int|
                            0 <= a < opts0.len() ==> (#[trigger] opts0[a] matches Some(v)
                                ==> v.len() >= 1));
                        assert(false);
                    }
                }
            }
            return Err(CesError::InsufficientShards);
        }
        if m > 0 {
            let rec = rs_reconstruct(k, m, &mut opts);
            if rec.is_err() {
                return Err(CesError::InsufficientShards);
            }
        } else {
            let all = all_present(&opts);
            if !all {
                proof {
                    assert forall|data: Seq<u8>, nonce: Seq<u8>|
                        !(#[trigger] ces_matches(cfg, key, opts0, data, nonce)) by {
                        if ces_matches(cfg, key, opts0, data, nonce) {
                            lemma_present_full(opts0);
                        }
                    }
                }
                return Err(CesError::InsufficientShards);
            }
        }
        let ghost after = opts.deep_view();
        let mut buf: Vec<u8> = Vec::new();
        let mut i: usize = 0;
        while i < k
            invariant
                i <= k,
                k <= opts@.len(),
                forall|t: int| 0 <= t < opts@.len() ==> #[trigger] opts.deep_view()[t] is Some,
                after == opts.deep_view(),
                buf@ =~= concat_prefix(opts.deep_view(), i as int),
            decreases k - i,
        {
            let ghost b0 = buf@;
            proof {
                assert(opts.deep_view()[i as int] == match opts@[i as int] {
                    Some(v) => Some(v@),
                    None => None::<Seq<u8>>,
                });
            }
            let piece = match opts[i].as_ref() {
                Some(s) => s,
                None => {
                    proof {
                        assert(false);
                    }
                    return Err(CesError::InsufficientShards);
                },
            };
            let mut copy = copy_bytes(piece);
            buf.append(&mut copy);
            i = i + 1;
            proof {
                assert(buf@ =~= b0 + opts.deep_view()[i - 1]->Some_0);
                assert(buf@ =~= concat_prefix(opts.deep_view(), i as int));
            }
        }
        if buf.len() < 28 {
            proof {
                assert forall|data: Seq<u8>, nonce: Seq<u8>|
                    !(#[trigger] ces_matches(cfg, key, opts0, data, nonce)) by {
                    if ces_matches(cfg, key, opts0, data, nonce) {
                        lemma_reconstruct_buf(cfg, key, opts0, after, data, nonce);
                    }
                }
            }
            return Err(CesError::TruncatedShardSet);
        }
        let len_bytes: &[u8] = &buf.as_slice()[0..4];
        proof {
            assert(len_bytes@ =~= buf@.take(4));
        }
        let enc_len: u32 = u32_from_le_bytes(len_bytes);
        if enc_len < 24 || buf.len() - 4 < enc_len as usize {
            proof {
                assert forall|data: Seq<u8>, nonce: Seq<u8>|
                    !(#[trigger] ces_matches(cfg, key, opts0, data, nonce)) by {
                    if ces_matches(cfg, key, opts0, data, nonce) {
                        lemma_reconstruct_buf(cfg, key, opts0, after, data, nonce);
                        lemma_auto_spec_u32_to_from_le_bytes();
                    }
                }
            }
            return Err(CesError::TruncatedShardSet);
        }
        let nonce_slice: &[u8] = &buf.as_slice()[4..28];
        let mut nonce_arr: [u8; 24] = [0; 24];
        let mut t: usize = 0;
        while t < 24
            invariant
                t <= 24,
                buf@.len() >= 28,
                nonce_slice@ == buf@.subrange(4, 28),
                forall|u: int| 0 <= u < t ==> #[trigger] nonce_arr@[u] == nonce_slice@[u],
            decreases 24 - t,
        {
            nonce_arr[t] = nonce_slice[t];
            t = t + 1;
        }
        proof {
            assert(nonce_arr@ =~= buf@.subrange(4, 28));
        }
        let ct_slice: &[u8] = &buf.as_slice()[28..4 + enc_len as usize];
        proof {
            assert(ct_slice@ =~= buf@.subrange(28, 4 + enc_len as int));
        }
        let opened = xchacha_open(&self.encryption_key, &nonce_arr, ct_slice);
        let plain = match opened {
            Ok(v) => v,
            Err(_) => {
                proof {
                    assert forall|data: Seq<u8>, nonce: Seq<u8>|
                        !(#[trigger] ces_matches(cfg, key, opts0, data, nonce)) by {
                        if ces_matches(cfg, key, opts0, data, nonce) {
                            lemma_reconstruct_buf(cfg, key, opts0, after, data, nonce);
                            lemma_auto_spec_u32_to_from_le_bytes();
                            assert(nonce_arr@ == nonce);
                            assert(ct_slice@ == chacha_seal(key, nonce, payload_bytes(cfg, data)));
                        }
                    }
                }
                return Err(CesError::CiphertextInvalid);
            },
        };
        if plain.len() == 0 {
            proof {
                assert forall|data: Seq<u8>, nonce: Seq<u8>|
                    !(#[trigger] ces_matches(cfg, key, opts0, data, nonce)) by {
                    if ces_matches(cfg, key, opts0, data, nonce) {
                        lemma_reconstruct_buf(cfg, key, opts0, after, data, nonce);
                        lemma_auto_spec_u32_to_from_le_bytes();
                        assert(nonce_arr@ == nonce);
                        assert(ct_slice@ == chacha_seal(key, nonce, payload_bytes(cfg, data)));
                        assert(plain@ == payload_bytes(cfg, data));
                        assert(payload_bytes(cfg, data).len() >= 1);
                    }
                }
            }
            return Err(CesError::CompressionFailed);
        }
        let marker = plain[0];
        let rest: &[u8] = &plain.as_slice()[1..plain.len()];
        proof {
            assert(rest@ =~= plain@.skip(1));
        }
        let result: Result<Vec<u8>, CesError> = if marker == 0 {
            Ok(vstd::slice::slice_to_vec(rest))
        } else if marker == 1 {
            self.decompress(rest)
        } else {
            Err(CesError::CompressionFailed)
        };
        proof {
            assert forall|data: Seq<u8>, nonce: Seq<u8>|
                #[trigger] ces_matches(cfg, key, opts0, data, nonce) implies (result matches Ok(v)
                && v@ == data) by {
                lemma_reconstruct_buf(cfg, key, opts0, after, data, nonce);
                lemma_auto_spec_u32_to_from_le_bytes();
                assert(nonce_arr@ == nonce);
                assert(ct_slice@ == chacha_seal(key, nonce, payload_bytes(cfg, data)));
                assert(plain@ == payload_bytes(cfg, data));
                let t = spec_content_class(data);
                if cfg.compression_algorithm == CompressionAlgorithm::Uncompressed
                    || spec_skip_compression(t) {
                    assert(plain@ == seq![0u8] + data);
                    assert(marker == 0);
                    assert(rest@ =~= data);
                } else {
                    assert(marker == 1);
                    match cfg.compression_algorithm {
                        CompressionAlgorithm::Zstd => {
                            assert(rest@ =~= zstd_of(data, spec_level_for(t)));
                        },
                        CompressionAlgorithm::Brotli => {
                            assert(rest@ =~= brotli_of(
                                data,
                                spec_brotli_quality(spec_level_for(t)),
                            ));
                        },
                        CompressionAlgorithm::Uncompressed => {
                            assert(false);
                        },
                    }
                }
            }
        }
        result
    }

    /// Decompress a sealed payload with the configured algorithm.
    pub fn decompress(&self, data: &[u8]) -> (r: Result<Vec<u8>, CesError>)
        ensures
            self.spec_config().compression_algorithm == CompressionAlgorithm::Uncompressed ==> (
            r matches Ok(v) && v@ == data@),
            self.spec_config().compression_algorithm == CompressionAlgorithm::Zstd ==> (forall|
                orig: Seq<u8>,
                level: int,
            |
                data@ == #[trigger] zstd_of(orig, level) ==> (r matches Ok(v) && v@ == orig)),
            self.spec_config().compression_algorithm == CompressionAlgorithm::Brotli ==> (forall|
                orig: Seq<u8>,
                quality: int,
            |
                data@ == #[trigger] brotli_of(orig, quality) ==> (r matches Ok(v) && v@ == orig)),
    {
        match self.config.compression_algorithm {
            CompressionAlgorithm::Zstd => zstd_decompress(data),
            CompressionAlgorithm::Brotli => brotli_decompress(data),
            CompressionAlgorithm::Uncompressed => Ok(vstd::slice::slice_to_vec(data)),
        }
    }

    /// Seal a blob under the pipeline's key with a fresh nonce; the
    /// emitted bytes are the nonce, then the ciphertext.  Every blob
    /// that fits 32 bits seals.
    pub fn encrypt(&self, data: &[u8]) -> (r: Result<Vec<u8>, CesError>)
        ensures
            data@.len() <= 0xffff_ffff ==> r is Ok,
            r matches Ok(v) ==> (exists|nonce: Seq<u8>|
                nonce.len() == 24 && v@ == nonce + #[trigger] chacha_seal(
                    self.spec_key(),
                    nonce,
                    data@,
                )),
    {
        let nonce: [u8; 24] = random_nonce_24();
        let sealed = xchacha_seal(&self.encryption_key, &nonce, data);
        let ct = match sealed {
            Ok(v) => v,
            Err(_) => {
                return Err(CesError::CiphertextInvalid);
            },
        };
        let mut out: Vec<u8> = Vec::new();
        let mut ni: usize = 0;
        while ni < 24
            invariant
                ni <= 24,
                out@ =~= nonce@.take(ni as int),
            decreases 24 - ni,
        {
            out.push(nonce[ni]);
            ni = ni + 1;
            proof {
                assert(out@ =~= nonce@.take(ni as int));
            }
        }
        proof {
            assert(nonce@.take(24) =~= nonce@);
        }
        let mut ct_mut = ct;
        out.append(&mut ct_mut);
        proof {
            assert(out@ =~= nonce@ + chacha_seal(self.spec_key(), nonce@, data@));
        }
        Ok(out)
    }

    /// Open a sealed blob: for every plaintext whose sealing under the
    /// carried nonce produced the ciphertext, the result is exactly that
    /// plaintext; shorter input than a nonce is rejected.
    pub fn decrypt(&self, data: &[u8]) -> (r: Result<Vec<u8>, CesError>)
        ensures
            forall|p: Seq<u8>, nonce: Seq<u8>|
                (nonce.len() == 24 && data@ == nonce + #[trigger] chacha_seal(
                    self.spec_key(),
                    nonce,
                    p,
                )) ==> (r matches Ok(v) && v@ == p),
    {
        if data.len() < 24 {
            proof {
                assert forall|p: Seq<u8>, nonce: Seq<u8>|
                    !(nonce.len() == 24 && data@ == nonce + #[trigger] chacha_seal(
                        self.spec_key(),
                        nonce,
                        p,
                    )) by {
                    if nonce.len() == 24 && data@ == nonce + chacha_seal(
                        self.spec_key(),
                        nonce,
                        p,
                    ) {
                        assert(data@.len() >= 24);
                    }
                }
            }
            return Err(CesError::CiphertextInvalid);
        }
        let nonce_slice: &[u8] = &data[0..24];
        let mut nonce_arr: [u8; 24] = [0; 24];
        let mut t: usize = 0;
        while t < 24
            invariant
                t <= 24,
                data@.len() >= 24,
                nonce_slice@ == data@.take(24),
                forall|u: int| 0 <= u < t ==> #[trigger] nonce_arr@[u] == nonce_slice@[u],
            decreases 24 - t,
        {
            nonce_arr[t] = nonce_slice[t];
            t = t + 1;
        }
        proof {
            assert(nonce_arr@ =~= data@.take(24));
        }
        let ct_slice: &[u8] = &data[24..data.len()];
        proof {
            assert(ct_slice@ =~= data@.skip(24));
        }
        let opened = xchacha_open(&self.encryption_key, &nonce_arr, ct_slice);
        match opened {
            Ok(v) => {
                proof {
                    assert forall|p: Seq<u8>, nonce: Seq<u8>|
                        (nonce.len() == 24 && data@ == nonce + #[trigger] chacha_seal(
                            self.spec_key(),
                            nonce,
                            p,
                        )) implies v@ == p by {
                        assert(nonce_arr@ =~= nonce);
                        assert(ct_slice@ =~= chacha_seal(self.spec_key(), nonce, p));
                    }
                }
                Ok(v)
            },
            Err(_) => {
                proof {
                    assert forall|p: Seq<u8>, nonce: Seq<u8>|
                        !(nonce.len() == 24 && data@ == nonce + #[trigger] chacha_seal(
                            self.spec_key(),
                            nonce,
                            p,
                        )) by {
                        if nonce.len() == 24 && data@ == nonce + chacha_seal(
                            self.spec_key(),
                            nonce,
                            p,
                        ) {
                            assert(nonce_arr@ =~= nonce);
                            assert(ct_slice@ =~= chacha_seal(self.spec_key(), nonce, p));
                        }
                    }
                }
                Err(CesError::CiphertextInvalid)
            },
        }
    }

    /// The SHA-256 digest of a blob.
    pub fn hash(data: &[u8]) -> (r: Vec<u8>)
        ensures
            r@ == sha256_digest_of(data@),
            r@.len() == 32,
    {
        sha256_digest(data)
    }
}

/// The concatenation of the first `i` slot payloads.
pub open spec fn concat_prefix(opts: Seq<Option<Seq<u8>>>, i: int) -> Seq<u8>
    decreases i,
{
    if i <= 0 {
        Seq::empty()
    } else {
        concat_prefix(opts, i - 1) + match opts[i - 1] {
            Some(v) => v,
            None => Seq::empty(),
        }
    }
}

/// Under the round-trip hypothesis, the concatenated first `k` slots of
/// the completed set carry the framed buffer followed by zero padding,
/// and its prefix fields parse back to the nonce and the ciphertext.
proof fn lemma_reconstruct_buf(
    cfg: CesConfig,
    key: Seq<u8>,
    opts0: Seq<Option<Seq<u8>>>,
    after: Seq<Option<Seq<u8>>>,
    data: Seq<u8>,
    nonce: Seq<u8>,
)
    requires
        1 <= cfg.shard_count,
        cfg.shard_count + cfg.parity_count <= 256,
        ces_matches(cfg, key, opts0, data, nonce),
        after.len() == opts0.len(),
        forall|t: int| 0 <= t < after.len() ==> #[trigger] after[t] is Some,
        forall|t: int| 0 <= t < after.len() ==> (#[trigger] opts0[t] is Some ==> after[t]
            == opts0[t]),
        cfg.parity_count > 0 ==> restores_codewords(
            cfg.shard_count as nat,
            cfg.parity_count as nat,
            opts0,
            after,
        ),
        cfg.parity_count == 0 ==> after == opts0,
    ensures
        ({
            let framed = ces_framed(cfg, key, nonce, data);
            let size = ces_shard_size(cfg, framed.len());
            let buf = concat_prefix(after, cfg.shard_count as int);
            let enc = ces_enc(cfg, key, nonce, data);
            &&& framed.len() == 4 + enc.len()
            &&& 28 <= framed.len() <= cfg.shard_count * size
            &&& size >= 1
            &&& buf.len() == cfg.shard_count * size
            &&& buf == framed + zeros((cfg.shard_count * size - framed.len()) as nat)
            &&& buf.take(4) == spec_u32_to_le_bytes(enc.len() as u32)
            &&& enc.len() <= 0xffff_ffff
            &&& enc.len() >= 24
            &&& buf.subrange(4, 28) == nonce
            &&& buf.subrange(28, 4 + enc.len() as int) == chacha_seal(
                key,
                nonce,
                payload_bytes(cfg, data),
            )
        }),
{
    let k = cfg.shard_count as nat;
    let m = cfg.parity_count as nat;
    let framed = ces_framed(cfg, key, nonce, data);
    let size = ces_shard_size(cfg, framed.len());
    let enc = ces_enc(cfg, key, nonce, data);
    let dshards = ces_data_shards(cfg, key, nonce, data);
    lemma_framed_floor(cfg, key, nonce, data);
    assert(framed.len() == 4 + enc.len());
    assert(enc.len() >= 24);
    assert(size >= 1 && framed.len() <= k * size) by (nonlinear_arith)
        requires
            size == (framed.len() + k - 1) as int / k as int,
            framed.len() >= 1,
            k >= 1,
    ;
    lemma_chunk_seq_wf(framed, size);
    lemma_chunk_count_le(framed, size, k);
    lemma_data_shard_sizes(chunk_seq(framed, size), k, size);
    assert(dshards.len() == k);
    // the first k completed slots carry the data shards
    assert forall|t: int| 0 <= t < k implies #[trigger] after[t] == Some(dshards[t]) by {
        if m > 0 {
            let cw = rs_codeword(k, m, dshards);
            assert(ces_artifact(cfg, key, nonce, data) == cw);
            assert(agrees_with(opts0, cw));
            assert(after[t] == Some(cw[t]));
            assert(cw[t] == dshards[t]);
        } else {
            lemma_present_full(opts0);
            assert(opts0[t] is Some);
            assert(ces_artifact(cfg, key, nonce, data) == dshards);
            assert(opts0[t] matches Some(v) && v == dshards[t]);
        }
    }
    let buf = concat_prefix(after, k as int);
    lemma_concat_prefix_shards(after, dshards, k as int);
    lemma_shard_concat(framed, size, k);
    assert(dshards.take(k as int) =~~= dshards);
    assert(buf == concat_seqs(dshards));
    assert(buf == framed + zeros((k * size - framed.len()) as nat));
    assert(buf.len() == k * size) by (nonlinear_arith)
        requires
            buf.len() == framed.len() + (k * size - framed.len()),
            framed.len() <= k * size,
    ;
    assert(buf.take(4) =~= framed.take(4));
    assert(framed.take(4) =~= spec_u32_to_le_bytes(enc.len() as u32));
    assert(buf.subrange(4, 28) =~= enc.take(24));
    assert(enc.take(24) =~= nonce);
    assert(buf.subrange(28, 4 + enc.len() as int) =~= enc.skip(24));
    assert(enc.skip(24) =~= chacha_seal(key, nonce, payload_bytes(cfg, data)));
}

/// A framed buffer is at least 28 bytes: the length field, the nonce and
/// the tag live in it.
proof fn lemma_framed_floor(cfg: CesConfig, key: Seq<u8>, nonce: Seq<u8>, data: Seq<u8>)
    requires
        nonce.len() == 24,
    ensures
        ces_framed(cfg, key, nonce, data).len() >= 28,
        ces_framed(cfg, key, nonce, data).len() == 4 + ces_enc(cfg, key, nonce, data).len(),
{
    lemma_auto_spec_u32_to_from_le_bytes();
}

/// If every slot is present when counted, every slot is `Some`.
proof fn lemma_present_full(opts: Seq<Option<Seq<u8>>>)
    requires
        present_count(opts) >= opts.len(),
    ensures
        forall|t: int| 0 <= t < opts.len() ==> #[trigger] opts[t] is Some,
    decreases opts.len(),
{
    if opts.len() == 0 {
    } else {
        lemma_present_le(opts.drop_last());
        lemma_present_full(opts.drop_last());
        assert(forall|t: int| 0 <= t < opts.len() - 1 ==> #[trigger] opts[t] == opts.drop_last()[t]);
    }
}

/// A present count never exceeds the slot count.
proof fn lemma_present_le(opts: Seq<Option<Seq<u8>>>)
    ensures
        present_count(opts) <= opts.len(),
    decreases opts.len(),
{
    if opts.len() == 0 {
    } else {
        lemma_present_le(opts.drop_last());
    }
}

/// Concatenating `k` completed slots equals concatenating the shards they
/// carry.
proof fn lemma_concat_prefix_shards(after: Seq<Option<Seq<u8>>>, sh: Seq<Seq<u8>>, k: int)
    requires
        0 <= k <= after.len(),
        k <= sh.len(),
        forall|t: int| 0 <= t < k ==> #[trigger] after[t] == Some(sh[t]),
    ensures
        concat_prefix(after, k) == concat_seqs(sh.take(k)),
    decreases k,
{
    if k == 0 {
        assert(concat_seqs(sh.take(0)) == Seq::<u8>::empty());
    } else {
        lemma_concat_prefix_shards(after, sh, k - 1);
        crate::frame::lemma_concat_take_step(sh, k);
        assert(concat_prefix(after, k) == concat_prefix(after, k - 1) + sh[k - 1]);
    }
}

/// Concatenating the padded data shards restores the framed buffer with
/// zero padding to `k` shards.
proof fn lemma_shard_concat(framed: Seq<u8>, size: nat, k: nat)
    requires
        size >= 1,
        1 <= framed.len() <= k * size,
        k >= 1,
    ensures
        concat_seqs(fec_data_shards(chunk_seq(framed, size), k, size)) == framed + zeros(
            (k * size - framed.len()) as nat,
        ),
    decreases k,
{
    let cs = chunk_seq(framed, size);
    let fds = fec_data_shards(cs, k, size);
    if framed.len() <= size {
        assert(cs == seq![framed]);
        assert(fds[0] == pad_to(framed, size));
        assert(fds.drop_first() =~= Seq::new((k - 1) as nat, |t: int| zeros(size)));
        lemma_concat_zeros((k - 1) as nat, size);
        assert(concat_seqs(fds) == fds[0] + concat_seqs(fds.drop_first()));
        assert(pad_to(framed, size) + zeros(((k - 1) * size) as nat) =~= framed + zeros(
            (k * size - framed.len()) as nat,
        )) by {
            assert((size - framed.len()) + (k - 1) * size == k * size - framed.len())
                by (nonlinear_arith)
                requires
                    framed.len() <= size,
                    k >= 1,
            ;
        }
    } else {
        assert(k >= 2) by (nonlinear_arith)
            requires
                framed.len() > size,
                framed.len() <= k * size,
                size >= 1,
                k >= 1,
        ;
        let rest = framed.skip(size as int);
        assert(rest.len() == framed.len() - size);
        assert(rest.len() <= (k - 1) * size) by (nonlinear_arith)
            requires
                framed.len() <= k * size,
                rest.len() == framed.len() - size,
                size >= 1,
                k >= 1,
        ;
        lemma_shard_concat(rest, size, (k - 1) as nat);
        assert(cs[0] == framed.take(size as int));
        assert(cs.drop_first() =~= chunk_seq(rest, size));
        assert(fds[0] == pad_to(framed.take(size as int), size));
        assert(pad_to(framed.take(size as int), size) =~= framed.take(size as int));
        assert(fds.drop_first() =~= fec_data_shards(chunk_seq(rest, size), (k - 1) as nat, size))
            by {
            lemma_chunk_seq_wf(rest, size);
            assert forall|t: int| 0 <= t < k - 1 implies fds.drop_first()[t] == fec_data_shards(
                chunk_seq(rest, size),
                (k - 1) as nat,
                size,
            )[t] by {
                if t + 1 < cs.len() {
                    assert(cs[t + 1] == chunk_seq(rest, size)[t]);
                }
            }
        }
        assert(concat_seqs(fds) == fds[0] + concat_seqs(fds.drop_first()));
        assert(framed.take(size as int) + (rest + zeros(((k - 1) * size - rest.len()) as nat))
            =~= framed + zeros((k * size - framed.len()) as nat)) by {
            assert((k - 1) * size - rest.len() == k * size - framed.len()) by (nonlinear_arith)
                requires
                    rest.len() == framed.len() - size,
                    framed.len() > size,
            ;
        }
    }
}

/// The concatenation of `k` zero shards.
proof fn lemma_concat_zeros(k: nat, size: nat)
    ensures
        concat_seqs(Seq::new(k, |t: int| zeros(size))) == zeros(k * size),
    decreases k,
{
    let zs = Seq::new(k, |t: int| zeros(size));
    if k == 0 {
        assert(zs.len() == 0);
        assert(k * size == 0) by (nonlinear_arith)
            requires
                k == 0,
        ;
        assert(zeros((k * size) as nat) =~= Seq::<u8>::empty());
        assert(concat_seqs(zs) =~= zeros((k * size) as nat));
    } else {
        lemma_concat_zeros((k - 1) as nat, size);
        assert(zs[0] == zeros(size));
        assert(zs.drop_first() =~= Seq::new((k - 1) as nat, |t: int| zeros(size)));
        assert(concat_seqs(zs) == zs[0] + concat_seqs(zs.drop_first()));
        assert(zeros(size) + zeros(((k - 1) * size) as nat) =~= zeros((k * size) as nat)) by {
            assert(size + (k - 1) * size == k * size) by (nonlinear_arith);
        }
        assert(concat_seqs(zs) =~= zeros((k * size) as nat));
    }
}

/// Every data shard of an artifact has the shard size.
proof fn lemma_data_shard_sizes(cs: Seq<Seq<u8>>, k: nat, size: nat)
    requires
        forall|t: int| 0 <= t < cs.len() ==> #[trigger] cs[t].len() <= size,
    ensures
        forall|t: int| 0 <= t < k ==> #[trigger] fec_data_shards(cs, k, size)[t].len() == size,
{
    assert forall|t: int| 0 <= t < k implies #[trigger] fec_data_shards(cs, k, size)[t].len()
        == size by {
        if t < cs.len() {
            assert(fec_data_shards(cs, k, size)[t] == pad_to(cs[t], size));
        } else {
            assert(fec_data_shards(cs, k, size)[t] == zeros(size));
        }
    }
}

/// A chunk cut at the rounded-up shard size yields at most `k` chunks.
proof fn lemma_chunk_count_le(framed: Seq<u8>, size: nat, k: nat)
    requires
        size >= 1,
        k >= 1,
        framed.len() <= k * size,
    ensures
        chunk_seq(framed, size).len() <= k,
    decreases framed.len(),
{
    if framed.len() == 0 {
    } else if framed.len() <= size {
    } else {
        assert(k >= 2) by (nonlinear_arith)
            requires
                framed.len() > size,
                framed.len() <= k * size,
                size >= 1,
                k >= 1,
        ;
        assert(framed.skip(size as int).len() <= (k - 1) * size) by (nonlinear_arith)
            requires
                framed.len() <= k * size,
                framed.len() > size,
                size >= 1,
        ;
        lemma_chunk_count_le(framed.skip(size as int), size, (k - 1) as nat);
    }
}

/// Check that every present slot has one nonzero length.
fn check_uniform(opts: &Vec<Option<Vec<u8>>>) -> (r: bool)
    ensures
        r == ((forall|i: int, j: int|
            0 <= i < opts.deep_view().len() && 0 <= j < opts.deep_view().len() ==> (
            #[trigger] opts.deep_view()[i] matches Some(v) ==> (#[trigger] opts.deep_view()[j] matches Some(
                w,
            ) ==> v.len() == w.len()))) && (forall|i: int|
            0 <= i < opts.deep_view().len() ==> (#[trigger] opts.deep_view()[i] matches Some(v)
                ==> v.len() >= 1))),
{
    let mut seen: Option<usize> = None;
    let mut i: usize = 0;
    while i < opts.len()
        invariant
            i <= opts@.len(),
            match seen {
                Some(l) => l >= 1 && (exists|t: int|
                    0 <= t < i && #[trigger] opts.deep_view()[t] is Some
                        && opts.deep_view()[t]->Some_0.len() == l) && (forall|t: int|
                    0 <= t < i ==> (#[trigger] opts.deep_view()[t] matches Some(v) ==> v.len()
                        == l)),
                None => forall|t: int| 0 <= t < i ==> #[trigger] opts.deep_view()[t] is None,
            },
        decreases opts@.len() - i,
    {
        proof {
            assert(opts.deep_view()[i as int] == match opts@[i as int] {
                Some(v) => Some(v@),
                None => None::<Seq<u8>>,
            });
        }
        let cur_len: Option<usize> = match opts[i].as_ref() {
            Some(v) => Some(v.len()),
            None => None,
        };
        match cur_len {
            Some(l) => {
                if l == 0 {
                    proof {
                        assert(opts.deep_view()[i as int] matches Some(v) && v.len() == 0);
                    }
                    return false;
                }
                match seen {
                    Some(prev) => {
                        if prev != l {
                            proof {
                                let t0 = choose|t0: int|
                                    0 <= t0 < i && #[trigger] opts.deep_view()[t0] is Some
                                        && opts.deep_view()[t0]->Some_0.len() == prev;
                                assert(opts.deep_view()[t0] matches Some(w) && w.len() == prev);
                                assert(opts.deep_view()[i as int] matches Some(v) && v.len() == l);
                            }
                            return false;
                        }
                    },
                    None => {
                        seen = Some(l);
                    },
                }
            },
            None => {},
        }
        i = i + 1;
    }
    true
}

/// Check that every slot is present.
fn all_present(opts: &Vec<Option<Vec<u8>>>) -> (r: bool)
    ensures
        r == (forall|i: int|
            0 <= i < opts.deep_view().len() ==> #[trigger] opts.deep_view()[i] is Some),
{
    let mut i: usize = 0;
    while i < opts.len()
        invariant
            i <= opts@.len(),
            forall|t: int| 0 <= t < i ==> #[trigger] opts.deep_view()[t] is Some,
        decreases opts@.len() - i,
    {
        proof {
            assert(opts.deep_view()[i as int] == match opts@[i as int] {
                Some(v) => Some(v@),
                None => None::<Seq<u8>>,
            });
        }
        if opts[i].is_none() {
            return false;
        }
        i = i + 1;
    }
    true
}

} // verus!
