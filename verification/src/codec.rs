//! The erasure codec: Reed-Solomon over GF(256), behind a trusted boundary.
//!
//! The parity of a data-shard sequence is named `rs_parity`; the trusted
//! reconstruction contract says that any shard set agreeing with a codeword
//! on at least `k` positions is restored to exactly that codeword, which is
//! what every loss-tolerance law of the library rests on.

use vstd::prelude::*;

use crate::errors::CodecError;

verus! {

/// The `m` Reed-Solomon parity shards over `k` data shards, a function of
/// the data alone.
pub uninterp spec fn rs_parity(k: nat, m: nat, data: Seq<Seq<u8>>) -> Seq<Seq<u8>>;

/// The full codeword: the data shards followed by their parity.
pub open spec fn rs_codeword(k: nat, m: nat, data: Seq<Seq<u8>>) -> Seq<Seq<u8>> {
    data + rs_parity(k, m, data)
}

/// All shards have length `l`.
pub open spec fn shards_uniform(shards: Seq<Seq<u8>>, l: nat) -> bool {
    forall|i: int| 0 <= i < shards.len() ==> #[trigger] shards[i].len() == l
}

/// The number of present slots.
pub open spec fn present_count(s: Seq<Option<Seq<u8>>>) -> nat
    decreases s.len(),
{
    if s.len() == 0 {
        0
    } else {
        present_count(s.drop_last()) + if s.last() is Some {
            1nat
        } else {
            0nat
        }
    }
}

/// A fully present slot set counts every slot.
pub proof fn lemma_present_count_all(s: Seq<Option<Seq<u8>>>)
    requires
        forall|i: int| 0 <= i < s.len() ==> #[trigger] s[i] is Some,
    ensures
        present_count(s) == s.len(),
    decreases s.len(),
{
    if s.len() == 0 {
    } else {
        assert(forall|i: int| 0 <= i < s.len() - 1 ==> #[trigger] s.drop_last()[i] == s[i]);
        lemma_present_count_all(s.drop_last());
    }
}

/// Completion: for every codeword that the present slots agree with, the
/// result is exactly that codeword.
pub open spec fn restores_codewords(
    k: nat,
    m: nat,
    before: Seq<Option<Seq<u8>>>,
    after: Seq<Option<Seq<u8>>>,
) -> bool {
    forall|data: Seq<Seq<u8>>|
        (data.len() == k && agrees_with(before, #[trigger] rs_codeword(k, m, data))) ==> (forall|
            i: int,
        |
            0 <= i < after.len() ==> #[trigger] after[i] == Some(rs_codeword(k, m, data)[i]))
}

/// Every present slot agrees with the codeword at its position.
pub open spec fn agrees_with(s: Seq<Option<Seq<u8>>>, cw: Seq<Seq<u8>>) -> bool {
    &&& s.len() == cw.len()
    &&& forall|i: int| 0 <= i < s.len() ==> (#[trigger] s[i] matches Some(v) ==> v == cw[i])
}

/// Relies on reed_solomon_erasure::galois_8::ReedSolomon::{new, encode}:
/// with `1 <= k`, `1 <= m`, `k + m <= 256`, `k + m` shards of one nonzero
/// length, encoding succeeds, leaves the `k` data shards untouched and
/// writes the parity, a function of the data alone, into the rest; every
/// shard keeps its length.
#[verifier::external_body]
pub fn rs_encode(k: usize, m: usize, shards: &mut Vec<Vec<u8>>) -> (r: Result<(), CodecError>)
    requires
        1 <= k,
        1 <= m,
        k + m <= 256,
        old(shards)@.len() == k + m,
        old(shards).deep_view()[0].len() >= 1,
        shards_uniform(old(shards).deep_view(), old(shards).deep_view()[0].len()),
    ensures
        r is Ok,
        final(shards).deep_view() == rs_codeword(
            k as nat,
            m as nat,
            old(shards).deep_view().take(k as int),
        ),
        final(shards).deep_view().take(k as int) == old(shards).deep_view().take(k as int),
        final(shards)@.len() == k + m,
        final(shards).deep_view().skip(k as int) == rs_parity(
            k as nat,
            m as nat,
            old(shards).deep_view().take(k as int),
        ),
        shards_uniform(final(shards).deep_view(), old(shards).deep_view()[0].len()),
{
    let rs = match reed_solomon_erasure::galois_8::ReedSolomon::new(k, m) {
        Ok(rs) => rs,
        Err(_) => {
            return Err(CodecError::ParamsInvalid);
        },
    };
    match rs.encode(&mut shards[..]) {
        Ok(()) => Ok(()),
        Err(_) => Err(CodecError::ShardLengthMismatch),
    }
}

/// Relies on reed_solomon_erasure::galois_8::ReedSolomon::{new,
/// reconstruct}: with well-shaped slots whose present entries share one
/// nonzero length, reconstruction succeeds exactly when at least `k` slots
/// are present; present slots are never touched; and a slot set that agrees
/// with a codeword on its present positions is completed to exactly that
/// codeword.  On an error nothing is touched.
#[verifier::external_body]
pub fn rs_reconstruct(k: usize, m: usize, shards: &mut Vec<Option<Vec<u8>>>)
    -> (r: Result<(), CodecError>)
    requires
        1 <= k,
        1 <= m,
        k + m <= 256,
        old(shards)@.len() == k + m,
        forall|i: int, j: int|
            0 <= i < old(shards)@.len() && 0 <= j < old(shards)@.len() ==> (#[trigger] old(
                shards,
            ).deep_view()[i] matches Some(v) ==> (#[trigger] old(shards).deep_view()[j] matches Some(
                w,
            ) ==> v.len() == w.len())),
        forall|i: int| 0 <= i < old(shards)@.len() ==> (#[trigger] old(
            shards,
        ).deep_view()[i] matches Some(v) ==> v.len() >= 1),
    ensures
        r is Ok <==> present_count(old(shards).deep_view()) >= k,
        r matches Err(e) ==> final(shards).deep_view() == old(shards).deep_view() && e
            == CodecError::InsufficientShards,
        r is Ok ==> final(shards)@.len() == k + m,
        r is Ok ==> (forall|i: int| 0 <= i < k + m ==> #[trigger] final(shards).deep_view()[i] is Some),
        r is Ok ==> (forall|i: int|
            0 <= i < k + m ==> (#[trigger] old(shards).deep_view()[i] is Some
                ==> final(shards).deep_view()[i] == old(shards).deep_view()[i])),
        r is Ok ==> restores_codewords(
            k as nat,
            m as nat,
            old(shards).deep_view(),
            final(shards).deep_view(),
        ),
{
    let rs = match reed_solomon_erasure::galois_8::ReedSolomon::new(k, m) {
        Ok(rs) => rs,
        Err(_) => {
            return Err(CodecError::ParamsInvalid);
        },
    };
    match rs.reconstruct(&mut shards[..]) {
        Ok(()) => Ok(()),
        Err(_) => Err(CodecError::InsufficientShards),
    }
}

} // verus!
