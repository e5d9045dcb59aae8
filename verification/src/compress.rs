//! Trusted boundary to the compression crates.
//!
//! Compressed images of a byte string are named; each decompressor's
//! contract states that it restores exactly the byte string whose
//! compression produced its input.

use vstd::prelude::*;

use std::io::Read;

use sha2::Digest;

use crate::errors::CesError;

verus! {

/// The Zstandard frame for `data` at `level`.
pub uninterp spec fn zstd_of(data: Seq<u8>, level: int) -> Seq<u8>;

/// The Brotli stream for `data` at `quality`.
pub uninterp spec fn brotli_of(data: Seq<u8>, quality: int) -> Seq<u8>;

/// Relies on zstd::stream::encode_all: the frame is a function of the
/// input and the level alone, and encoding an in-memory slice at a level
/// the library accepts (one through nineteen) never fails.
#[verifier::external_body]
pub fn zstd_compress(data: &[u8], level: i32) -> (r: Result<Vec<u8>, CesError>)
    ensures
        r matches Ok(v) ==> v@ == zstd_of(data@, level as int),
        1 <= level <= 19 ==> r is Ok,
{
    zstd::stream::encode_all(data, level).map_err(|_| CesError::CompressionFailed)
}

/// Relies on zstd::stream::decode_all: decoding restores exactly the
/// input whose encoding produced the frame.
#[verifier::external_body]
pub fn zstd_decompress(data: &[u8]) -> (r: Result<Vec<u8>, CesError>)
    ensures
        r matches Ok(v) ==> (forall|orig: Seq<u8>, level: int|
            data@ == #[trigger] zstd_of(orig, level) ==> v@ == orig),
        r is Err ==> (forall|orig: Seq<u8>, level: int| data@ != #[trigger] zstd_of(orig, level)),
{
    zstd::stream::decode_all(data).map_err(|_| CesError::CompressionFailed)
}

/// Relies on brotli::CompressorReader: the stream is a function of the
/// input, the quality and the window alone (the window is fixed here).
/// The encoder sanitizes any quality and reading from a slice cannot
/// fail, so compression always succeeds.
#[verifier::external_body]
pub fn brotli_compress(data: &[u8], quality: u32) -> (r: Result<Vec<u8>, CesError>)
    ensures
        r matches Ok(v) ==> v@ == brotli_of(data@, quality as int),
        r is Ok,
{
    let mut compressed = Vec::new();
    let mut compressor = brotli::CompressorReader::new(data, 4096, quality, 22);
    match compressor.read_to_end(&mut compressed) {
        Ok(_) => Ok(compressed),
        Err(_) => Err(CesError::CompressionFailed),
    }
}

/// Relies on brotli::Decompressor: decoding restores exactly the input
/// whose encoding produced the stream.
#[verifier::external_body]
pub fn brotli_decompress(data: &[u8]) -> (r: Result<Vec<u8>, CesError>)
    ensures
        r matches Ok(v) ==> (forall|orig: Seq<u8>, quality: int|
            data@ == #[trigger] brotli_of(orig, quality) ==> v@ == orig),
        r is Err ==> (forall|orig: Seq<u8>, quality: int|
            data@ != #[trigger] brotli_of(orig, quality)),
{
    let mut decompressed = Vec::new();
    let mut decompressor = brotli::Decompressor::new(data, 4096);
    match decompressor.read_to_end(&mut decompressed) {
        Ok(_) => Ok(decompressed),
        Err(_) => Err(CesError::CompressionFailed),
    }
}

/// Relies on sha2::Sha256: the 32 digest bytes, a function of the input
/// alone.
#[verifier::external_body]
pub fn sha256_digest(data: &[u8]) -> (r: Vec<u8>)
    ensures
        r@ == sha256_digest_of(data@),
        r@.len() == 32,
{
    sha2::Sha256::digest(data).to_vec()
}

/// The SHA-256 digest bytes of `data`.
pub uninterp spec fn sha256_digest_of(data: Seq<u8>) -> Seq<u8>;

} // verus!
