//! Result verification for compute tasks: hash comparison, Merkle roots
//! and redundancy comparison.

use vstd::prelude::*;

use crate::compute::{TaskResult, VerificationMode};
use crate::crypto::{sha256_hex, sha256_hex_of};
use crate::detect::bytes_eq;
use crate::errors::ComputeError;
use crate::frame::chunk_seq;
use crate::merkle::{MerkleTree, leaf_hashes, spec_root, string_eq};

verus! {

/// The outcome of verifying a result.
#[derive(Debug, Clone, PartialEq, Eq)]
pub enum VerificationResult {
    /// Verification passed.
    Valid,
    /// Verification failed, with the reason.
    Invalid(String),
    /// Verification was not asked for.
    Skipped,
}

impl VerificationResult {
    /// Whether verification passed.
    pub fn is_valid(&self) -> (r: bool)
        ensures
            r == (*self matches VerificationResult::Valid),
    {
        matches!(self, VerificationResult::Valid)
    }
}

pub const MERKLE_CHUNK_SIZE: usize = 4096;

/// The Merkle root of a blob cut into the tree's leaf size.
pub open spec fn spec_blob_root(data: Seq<u8>) -> Seq<char> {
    spec_root(leaf_hashes(chunk_seq(data, MERKLE_CHUNK_SIZE as nat)))
}

/// The result verifier: one verification mode.
pub struct ResultVerifier {
    mode: VerificationMode,
}

impl ResultVerifier {
    /// The mode.
    pub closed spec fn spec_mode(self) -> VerificationMode {
        self.mode
    }

    /// A verifier for one mode.
    pub fn new(mode: VerificationMode) -> (r: ResultVerifier)
        ensures
            r.spec_mode() == mode,
    {
        ResultVerifier { mode }
    }

    /// The hex SHA-256 of a result.
    pub fn hash_result(&self, data: &[u8]) -> (r: String)
        ensures
            r@ == sha256_hex_of(data@),
            r@.len() == 64,
    {
        sha256_hex(data)
    }

    /// The Merkle proof attached to a result: its blob root, alone.
    pub fn create_merkle_proof(&self, data: &[u8]) -> (r: Result<Vec<String>, ComputeError>)
        ensures
            r matches Ok(p) && p@.len() == 1 && p@[0]@ == spec_blob_root(data@),
    {
        let tree = MerkleTree::from_data(data, MERKLE_CHUNK_SIZE);
        let root = tree.root().clone();
        let mut out: Vec<String> = Vec::new();
        out.push(root);
        Ok(out)
    }

    /// Verify a task result under the mode: skipped when off; under hash,
    /// the result's digest against the caller's expectation (absent one,
    /// it passes); under Merkle, the attached root against the rebuilt
    /// one; under redundancy, deferred and passing.
    pub fn verify(&self, result: &TaskResult, expected_hash: Option<&String>) -> (r:
        VerificationResult)
        ensures
            self.spec_mode() == VerificationMode::Skip ==> r
                == VerificationResult::Skipped,
            self.spec_mode() == VerificationMode::Hash ==> (match expected_hash {
                Some(e) => (r matches VerificationResult::Valid <==> e@ == sha256_hex_of(
                    result.result_data@,
                )) && !(r is Skipped),
                None => r == VerificationResult::Valid,
            }),
            self.spec_mode() == VerificationMode::Merkle ==> (match result.merkle_proof {
                Some(p) => (r matches VerificationResult::Valid <==> (p@.len() >= 1 && p@[0]@
                    == spec_blob_root(result.result_data@))) && !(r is Skipped),
                None => !(r matches VerificationResult::Valid) && !(r is Skipped),
            }),
            self.spec_mode() == VerificationMode::Redundancy ==> r == VerificationResult::Valid,
    {
        match self.mode {
            VerificationMode::Skip => VerificationResult::Skipped,
            VerificationMode::Hash => {
                match expected_hash {
                    Some(expected) => {
                        let actual = self.hash_result(result.result_data.as_slice());
                        if string_eq(&actual, expected) {
                            VerificationResult::Valid
                        } else {
                            VerificationResult::Invalid("hash mismatch".to_owned())
                        }
                    },
                    None => VerificationResult::Valid,
                }
            },
            VerificationMode::Merkle => {
                match &result.merkle_proof {
                    Some(proof) => {
                        if proof.len() == 0 {
                            return VerificationResult::Invalid("empty proof".to_owned());
                        }
                        let tree = MerkleTree::from_data(
                            result.result_data.as_slice(),
                            MERKLE_CHUNK_SIZE,
                        );
                        if string_eq(tree.root(), &proof[0]) {
                            VerificationResult::Valid
                        } else {
                            VerificationResult::Invalid("root mismatch".to_owned())
                        }
                    },
                    None => VerificationResult::Invalid("no proof".to_owned()),
                }
            },
            VerificationMode::Redundancy => VerificationResult::Valid,
        }
    }

    /// Compare two results bytewise for redundancy verification.
    pub fn compare_results(&self, result1: &TaskResult, result2: &TaskResult) -> (r:
        VerificationResult)
        ensures
            r matches VerificationResult::Valid <==> result1.result_data@
                == result2.result_data@,
            !(r is Skipped),
    {
        if bytes_eq(result1.result_data.as_slice(), result2.result_data.as_slice()) {
            VerificationResult::Valid
        } else {
            VerificationResult::Invalid("results differ".to_owned())
        }
    }

    /// The mode.
    pub fn mode(&self) -> (r: VerificationMode)
        ensures
            r == self.spec_mode(),
    {
        self.mode
    }
}

} // verus!
