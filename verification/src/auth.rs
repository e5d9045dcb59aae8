//! The chunk authenticator: Ed25519 signature verification against a
//! trusted-key map with revocation.
//!
//! `spec_verify_outcome` pins the verdict for every chunk: a revoked peer's
//! chunks always fail, an unknown peer's chunks are an error, and otherwise
//! the verdict is exactly Ed25519 validity of the signature under the
//! peer's trusted key.

use vstd::prelude::*;

use crate::assoc::{
    assoc_lookup, assoc_distinct, lemma_assoc_found, lemma_assoc_missing, lemma_assoc_update,
    lemma_assoc_push, lemma_assoc_remove,
};
use crate::crypto::{ed25519_verify, ed25519_valid};
use crate::errors::VerifierError;
use crate::types::{ChunkData, ChunkView, PeerId, PublicKey};

verus! {

/// Verification counters.
#[derive(Debug, Clone, Copy, Default, PartialEq, Eq, Structural)]
pub struct VerificationMetrics {
    pub verifications_total: u64,
    pub verifications_success: u64,
    pub verifications_failed: u64,
    pub batch_verifications: u64,
}

/// Zeroed counters.
pub open spec fn spec_zero_metrics() -> VerificationMetrics {
    VerificationMetrics {
        verifications_total: 0,
        verifications_success: 0,
        verifications_failed: 0,
        batch_verifications: 0,
    }
}

/// The verdict for a chunk against a key map and revocation list: a
/// revoked source always fails, an unknown source is no verdict, and
/// otherwise the signature decides.
pub open spec fn spec_verify_outcome(
    keys: Seq<(u64, PublicKey)>,
    revoked: Seq<u64>,
    c: ChunkView,
) -> Option<bool> {
    if revoked.contains(c.source_peer) {
        Some(false)
    } else {
        match assoc_lookup(keys, c.source_peer) {
            Some(k) => Some(ed25519_valid(c.data, c.signature, k.0@)),
            None => None,
        }
    }
}

/// A revoked peer's chunks fail verification, whatever their signature.
pub proof fn lemma_revoked_never_verifies(
    keys: Seq<(u64, PublicKey)>,
    revoked: Seq<u64>,
    c: ChunkView,
)
    requires
        revoked.contains(c.source_peer),
    ensures
        spec_verify_outcome(keys, revoked, c) == Some(false),
{
}

/// A chunk from an unrevoked peer, carrying a valid signature under that
/// peer's trusted key, verifies.
pub proof fn lemma_trusted_signature_verifies(
    keys: Seq<(u64, PublicKey)>,
    revoked: Seq<u64>,
    c: ChunkView,
    k: PublicKey,
)
    requires
        !revoked.contains(c.source_peer),
        assoc_lookup(keys, c.source_peer) == Some(k),
        ed25519_valid(c.data, c.signature, k.0@),
    ensures
        spec_verify_outcome(keys, revoked, c) == Some(true),
{
}

/// One more, saturating.
pub open spec fn inc_sat(x: u64) -> u64 {
    if x == u64::MAX {
        u64::MAX
    } else {
        (x + 1) as u64
    }
}

/// Add one to a counter, saturating.
fn bump(x: &mut u64)
    ensures
        *final(x) == inc_sat(*old(x)),
{
    if *x < u64::MAX {
        *x = *x + 1;
    }
}

/// The authenticator.
pub struct SignatureVerifier {
    trusted_keys: Vec<(u64, PublicKey)>,
    revoked: Vec<u64>,
    metrics: VerificationMetrics,
}

impl SignatureVerifier {
    /// The trusted keys, in insertion order.
    pub closed spec fn spec_keys(self) -> Seq<(u64, PublicKey)> {
        self.trusted_keys@
    }

    /// The revoked peer ids.
    pub closed spec fn spec_revoked(self) -> Seq<u64> {
        self.revoked@
    }

    /// The counters.
    pub closed spec fn spec_metrics(self) -> VerificationMetrics {
        self.metrics
    }

    /// Key entries carry distinct peer ids.
    pub closed spec fn inv(self) -> bool {
        assoc_distinct(self.trusted_keys@)
    }

    /// A fresh authenticator: no keys, no revocations, zero counters.
    pub fn new() -> (r: SignatureVerifier)
        ensures
            r.inv(),
            r.spec_keys() == Seq::<(u64, PublicKey)>::empty(),
            r.spec_revoked() == Seq::<u64>::empty(),
            r.spec_metrics() == spec_zero_metrics(),
    {
        SignatureVerifier {
            trusted_keys: Vec::new(),
            revoked: Vec::new(),
            metrics: VerificationMetrics {
                verifications_total: 0,
                verifications_success: 0,
                verifications_failed: 0,
                batch_verifications: 0,
            },
        }
    }

    /// Find the position of a peer's key.
    fn find_key(&self, id: u64) -> (r: Option<usize>)
        requires
            self.inv(),
        ensures
            r matches Some(i) ==> i < self.spec_keys().len() && self.spec_keys()[i as int].0 == id
                && assoc_lookup(self.spec_keys(), id) == Some(self.spec_keys()[i as int].1),
            r is None <==> assoc_lookup(self.spec_keys(), id) is None,
    {
        let mut i: usize = 0;
        while i < self.trusted_keys.len()
            invariant
                self.inv(),
                i <= self.trusted_keys@.len(),
                forall|j: int| 0 <= j < i ==> #[trigger] self.trusted_keys@[j].0 != id,
            decreases self.trusted_keys@.len() - i,
        {
            if self.trusted_keys[i].0 == id {
                proof {
                    lemma_assoc_found(self.trusted_keys@, id, i as int);
                }
                return Some(i);
            }
            i = i + 1;
        }
        proof {
            lemma_assoc_missing(self.trusted_keys@, id);
        }
        None
    }

    /// Whether a peer is revoked.
    pub fn is_revoked(&self, peer: &PeerId) -> (r: bool)
        ensures
            r == self.spec_revoked().contains(peer.0),
    {
        let mut i: usize = 0;
        while i < self.revoked.len()
            invariant
                i <= self.revoked@.len(),
                forall|j: int| 0 <= j < i ==> self.revoked@[j] != peer.0,
            decreases self.revoked@.len() - i,
        {
            if self.revoked[i] == peer.0 {
                return true;
            }
            i = i + 1;
        }
        false
    }

    /// Trust a public key for a peer, replacing any key it already had.
    pub fn add_trusted_key(&mut self, peer: PeerId, public_key: PublicKey)
        requires
            old(self).inv(),
        ensures
            final(self).inv(),
            final(self).spec_revoked() == old(self).spec_revoked(),
            final(self).spec_metrics() == old(self).spec_metrics(),
            assoc_lookup(final(self).spec_keys(), peer.0) == Some(public_key),
            forall|id: u64| id != peer.0 ==> #[trigger] assoc_lookup(final(self).spec_keys(), id)
                == assoc_lookup(old(self).spec_keys(), id),
    {
        let found = self.find_key(peer.0);
        match found {
            Some(i) => {
                self.trusted_keys.set(i, (peer.0, public_key));
                proof {
                    lemma_assoc_update(
                        old(self).trusted_keys@,
                        self.trusted_keys@,
                        i as int,
                        peer.0,
                        public_key,
                    );
                }
            },
            None => {
                self.trusted_keys.push((peer.0, public_key));
                proof {
                    lemma_assoc_push(old(self).trusted_keys@, peer.0, public_key);
                }
            },
        }
    }

    /// Revoke a peer: its id joins the revocation list and its key is
    /// dropped, atomically for observers of this authenticator.
    pub fn revoke_key(&mut self, peer: PeerId)
        requires
            old(self).inv(),
        ensures
            final(self).inv(),
            final(self).spec_metrics() == old(self).spec_metrics(),
            final(self).spec_revoked().contains(peer.0),
            forall|id: u64| id != peer.0 ==> (#[trigger] final(self).spec_revoked().contains(id)
                == old(self).spec_revoked().contains(id)),
            assoc_lookup(final(self).spec_keys(), peer.0) is None,
            forall|id: u64| id != peer.0 ==> #[trigger] assoc_lookup(final(self).spec_keys(), id)
                == assoc_lookup(old(self).spec_keys(), id),
    {
        let ghost rev0 = self.revoked@;
        if !self.is_revoked(&peer) {
            self.revoked.push(peer.0);
            proof {
                assert(self.revoked@[rev0.len() as int] == peer.0);
                assert forall|id: u64| id != peer.0 implies (#[trigger] self.revoked@.contains(id)
                    == rev0.contains(id)) by {
                    if self.revoked@.contains(id) {
                        let t = choose|t: int|
                            0 <= t < self.revoked@.len() && self.revoked@[t] == id;
                        assert(rev0[t] == id);
                    }
                    if rev0.contains(id) {
                        let t = choose|t: int| 0 <= t < rev0.len() && rev0[t] == id;
                        assert(self.revoked@[t] == id);
                    }
                }
            }
        }
        let found = self.find_key(peer.0);
        match found {
            Some(i) => {
                self.trusted_keys.remove(i);
                proof {
                    lemma_assoc_remove(old(self).trusted_keys@, i as int, peer.0);
                }
            },
            None => {},
        }
    }

    /// The number of trusted keys.
    pub fn trusted_key_count(&self) -> (r: usize)
        ensures
            r == self.spec_keys().len(),
    {
        self.trusted_keys.len()
    }

    /// The counters: total, successes, failures, batches.
    pub fn get_metrics(&self) -> (r: (u64, u64, u64, u64))
        ensures
            r.0 == self.spec_metrics().verifications_total,
            r.1 == self.spec_metrics().verifications_success,
            r.2 == self.spec_metrics().verifications_failed,
            r.3 == self.spec_metrics().batch_verifications,
    {
        (
            self.metrics.verifications_total,
            self.metrics.verifications_success,
            self.metrics.verifications_failed,
            self.metrics.batch_verifications,
        )
    }

    /// Verify one chunk: exactly the `spec_verify_outcome` verdict, with
    /// an error for an unknown source peer; the counters move with the
    /// verdict.
    pub fn verify(&mut self, chunk: &ChunkData) -> (r: Result<bool, VerifierError>)
        requires
            old(self).inv(),
        ensures
            final(self).inv(),
            final(self).spec_keys() == old(self).spec_keys(),
            final(self).spec_revoked() == old(self).spec_revoked(),
            ({
                let outcome = spec_verify_outcome(
                    old(self).spec_keys(),
                    old(self).spec_revoked(),
                    chunk@,
                );
                match outcome {
                    Some(b) => r == Ok::<bool, VerifierError>(b),
                    None => r == Err::<bool, VerifierError>(VerifierError::KeyUnknown),
                }
            }),
            final(self).spec_metrics().verifications_total == inc_sat(
                old(self).spec_metrics().verifications_total,
            ),
            final(self).spec_metrics().batch_verifications == old(
                self,
            ).spec_metrics().batch_verifications,
            r == Ok::<bool, VerifierError>(true) ==> final(self).spec_metrics().verifications_success
                == inc_sat(old(self).spec_metrics().verifications_success) && final(self).spec_metrics().verifications_failed == old(self).spec_metrics().verifications_failed,
            r == Ok::<bool, VerifierError>(false) ==> final(self).spec_metrics().verifications_failed == inc_sat(
                old(self).spec_metrics().verifications_failed,
            ) && final(self).spec_metrics().verifications_success == old(
                self,
            ).spec_metrics().verifications_success,
            r is Err ==> final(self).spec_metrics().verifications_success == old(
                self,
            ).spec_metrics().verifications_success && final(self).spec_metrics().verifications_failed == old(self).spec_metrics().verifications_failed,
    {
        bump(&mut self.metrics.verifications_total);
        if self.is_revoked(&chunk.source_peer) {
            bump(&mut self.metrics.verifications_failed);
            return Ok(false);
        }
        let found = self.find_key(chunk.source_peer.0);
        let key = match found {
            Some(i) => self.trusted_keys[i].1,
            None => {
                return Err(VerifierError::KeyUnknown);
            },
        };
        let result = ed25519_verify(chunk.data.as_slice(), &chunk.signature.0, &key.0);
        if result {
            bump(&mut self.metrics.verifications_success);
        } else {
            bump(&mut self.metrics.verifications_failed);
        }
        Ok(result)
    }

    /// Verify a batch of chunks: every verdict in order, stopping with the
    /// error of the first chunk whose source is unknown; one batch is
    /// counted.
    pub fn verify_batch(&mut self, chunks: &Vec<ChunkData>) -> (r: Result<Vec<bool>, VerifierError>)
        requires
            old(self).inv(),
        ensures
            final(self).inv(),
            final(self).spec_keys() == old(self).spec_keys(),
            final(self).spec_revoked() == old(self).spec_revoked(),
            final(self).spec_metrics().batch_verifications == inc_sat(
                old(self).spec_metrics().batch_verifications,
            ),
            r matches Ok(results) ==> results@.len() == chunks@.len() && (forall|i: int|
                0 <= i < chunks@.len() ==> spec_verify_outcome(
                    old(self).spec_keys(),
                    old(self).spec_revoked(),
                    #[trigger] chunks@[i]@,
                ) == Some(results@[i])),
            r is Err ==> (exists|i: int|
                0 <= i < chunks@.len() && spec_verify_outcome(
                    old(self).spec_keys(),
                    old(self).spec_revoked(),
                    #[trigger] chunks@[i]@,
                ) is None),
    {
        bump(&mut self.metrics.batch_verifications);
        let mut results: Vec<bool> = Vec::new();
        let mut i: usize = 0;
        while i < chunks.len()
            invariant
                self.inv(),
                i <= chunks@.len(),
                results@.len() == i,
                self.spec_keys() == old(self).spec_keys(),
                self.spec_revoked() == old(self).spec_revoked(),
                self.spec_metrics().batch_verifications == inc_sat(
                    old(self).spec_metrics().batch_verifications,
                ),
                forall|j: int| 0 <= j < i ==> spec_verify_outcome(
                    old(self).spec_keys(),
                    old(self).spec_revoked(),
                    #[trigger] chunks@[j]@,
                ) == Some(results@[j]),
            decreases chunks@.len() - i,
        {
            let verdict = self.verify(&chunks[i]);
            match verdict {
                Ok(b) => {
                    results.push(b);
                },
                Err(e) => {
                    return Err(e);
                },
            }
            i = i + 1;
        }
        Ok(results)
    }
}

/// A gathering batch of chunks awaiting verification.
pub struct VerificationBatch {
    chunks: Vec<ChunkData>,
    max_size: usize,
    timeout_ms: u64,
}

impl VerificationBatch {
    /// The gathered chunks.
    pub closed spec fn spec_chunks(self) -> Seq<ChunkData> {
        self.chunks@
    }

    /// The size cap.
    pub closed spec fn spec_max_size(self) -> usize {
        self.max_size
    }

    /// The flush timeout.
    pub closed spec fn spec_timeout_ms(self) -> u64 {
        self.timeout_ms
    }

    /// An empty batch with a size cap and a flush timeout.
    pub fn new(max_size: usize, timeout_ms: u64) -> (r: VerificationBatch)
        ensures
            r.spec_chunks() == Seq::<ChunkData>::empty(),
            r.spec_max_size() == max_size,
            r.spec_timeout_ms() == timeout_ms,
    {
        VerificationBatch { chunks: Vec::new(), max_size, timeout_ms }
    }

    /// Add a chunk unless the batch is full; the result says whether the
    /// batch is full afterwards.
    pub fn add(&mut self, chunk: ChunkData) -> (r: bool)
        ensures
            final(self).spec_max_size() == old(self).spec_max_size(),
            final(self).spec_timeout_ms() == old(self).spec_timeout_ms(),
            old(self).spec_chunks().len() >= old(self).spec_max_size() ==> final(self).spec_chunks() == old(self).spec_chunks() && !r,
            old(self).spec_chunks().len() < old(self).spec_max_size() ==> final(self).spec_chunks()
                == old(self).spec_chunks().push(chunk) && r == (final(self).spec_chunks().len()
                >= final(self).spec_max_size()),
    {
        if self.chunks.len() >= self.max_size {
            return false;
        }
        self.chunks.push(chunk);
        self.chunks.len() >= self.max_size
    }

    /// Whether the batch is full.
    pub fn is_full(&self) -> (r: bool)
        ensures
            r == (self.spec_chunks().len() >= self.spec_max_size()),
    {
        self.chunks.len() >= self.max_size
    }

    /// The gathered chunks.
    pub fn chunks(&self) -> (r: &Vec<ChunkData>)
        ensures
            r@ == self.spec_chunks(),
    {
        &self.chunks
    }

    /// Drop every gathered chunk.
    pub fn clear(&mut self)
        ensures
            final(self).spec_chunks() == Seq::<ChunkData>::empty(),
            final(self).spec_max_size() == old(self).spec_max_size(),
            final(self).spec_timeout_ms() == old(self).spec_timeout_ms(),
    {
        self.chunks.clear();
    }

    /// The flush timeout.
    pub fn timeout_ms(&self) -> (r: u64)
        ensures
            r == self.spec_timeout_ms(),
    {
        self.timeout_ms
    }
}

} // verus!
