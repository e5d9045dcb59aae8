//! The split/merge frame: a `u32` little-endian chunk count followed by
//! `(u32 length, bytes)` records.
//!
//! `encode_frame` and `decode_frame` are proved exact against the spec-level
//! `frame_bytes` and `parse_frame`; the round-trip laws relating the two
//! stand at the bottom of the module.

use vstd::prelude::*;
use vstd::bytes::{spec_u32_to_le_bytes, spec_u32_from_le_bytes, lemma_auto_spec_u32_to_from_le_bytes, u32_to_le_bytes, u32_from_le_bytes};
use vstd::slice::slice_to_vec;

use crate::errors::ComputeError;

verus! {

/// Every chunk is short enough for its length to fit the 4-byte field.
pub open spec fn chunks_wf(chunks: Seq<Seq<u8>>) -> bool {
    forall|i: int| 0 <= i < chunks.len() ==> #[trigger] chunks[i].len() <= 0xffff_ffffnat
}

/// The records after the count: each chunk behind its length prefix.
pub open spec fn frame_records(chunks: Seq<Seq<u8>>) -> Seq<u8>
    decreases chunks.len(),
{
    if chunks.len() == 0 {
        Seq::empty()
    } else {
        spec_u32_to_le_bytes(chunks[0].len() as u32) + chunks[0] + frame_records(chunks.drop_first())
    }
}

/// The whole frame: chunk count, then the records.
pub open spec fn frame_bytes(chunks: Seq<Seq<u8>>) -> Seq<u8> {
    spec_u32_to_le_bytes(chunks.len() as u32) + frame_records(chunks)
}

/// Parse `n` records, requiring that nothing is left over afterwards.
pub open spec fn parse_records(data: Seq<u8>, n: nat) -> Option<Seq<Seq<u8>>>
    decreases n,
{
    if n == 0 {
        if data.len() == 0 {
            Some(Seq::empty())
        } else {
            None
        }
    } else if data.len() < 4 {
        None
    } else {
        let l = spec_u32_from_le_bytes(data.take(4)) as nat;
        if data.len() < 4 + l {
            None
        } else {
            let chunk = data.subrange(4, 4 + l as int);
            match parse_records(data.skip(4 + l as int), (n - 1) as nat) {
                Some(rest) => Some(seq![chunk] + rest),
                None => None,
            }
        }
    }
}

/// Parse a whole frame; `None` on any malformation or trailing bytes.
pub open spec fn parse_frame(data: Seq<u8>) -> Option<Seq<Seq<u8>>> {
    if data.len() < 4 {
        None
    } else {
        parse_records(data.skip(4), spec_u32_from_le_bytes(data.take(4)) as nat)
    }
}

/// The concatenation of a sequence of byte strings.
pub open spec fn concat_seqs(chunks: Seq<Seq<u8>>) -> Seq<u8>
    decreases chunks.len(),
{
    if chunks.len() == 0 {
        Seq::empty()
    } else {
        chunks[0] + concat_seqs(chunks.drop_first())
    }
}

/// Write a frame for the given chunks.
pub fn encode_frame(chunks: &Vec<Vec<u8>>) -> (r: Vec<u8>)
    requires
        chunks@.len() <= 0xffff_ffff,
    ensures
        r@ == frame_bytes(chunks.deep_view()),
{
    let mut out: Vec<u8> = u32_to_le_bytes(chunks.len() as u32);
    let ghost all = chunks.deep_view();
    let mut j: usize = 0;
    proof {
        assert(out@ == spec_u32_to_le_bytes(all.len() as u32) + frame_records(all.take(0)));
    }
    while j < chunks.len()
        invariant
            j <= chunks@.len(),
            chunks@.len() <= 0xffff_ffff,
            all == chunks.deep_view(),
            out@ == spec_u32_to_le_bytes(all.len() as u32) + frame_records(all.take(j as int)),
        decreases chunks@.len() - j,
    {
        let ghost out0 = out@;
        let len_bytes: Vec<u8> = u32_to_le_bytes(chunks[j].len() as u32);
        let mut k: usize = 0;
        let chunk_len: usize = chunks[j].len();
        let mut piece: Vec<u8> = len_bytes;
        while k < chunk_len
            invariant
                k <= chunk_len,
                chunk_len == chunks@[j as int]@.len(),
                j < chunks@.len(),
                piece@ == spec_u32_to_le_bytes(chunks@[j as int]@.len() as u32)
                    + chunks@[j as int]@.take(k as int),
            decreases chunk_len - k,
        {
            let b: u8 = chunks[j][k];
            piece.push(b);
            k = k + 1;
            proof {
                assert(chunks@[j as int]@.take(k as int)
                    =~= chunks@[j as int]@.take(k - 1int).push(b));
            }
        }
        let mut p = piece;
        out.append(&mut p);
        j = j + 1;
        proof {
            assert(chunks@[j - 1int]@.take(chunk_len as int) =~= all[j - 1int]);
            lemma_frame_records_take_step(all, j as int);
            assert(out@ =~= spec_u32_to_le_bytes(all.len() as u32) + frame_records(all.take(j as int)));
        }
    }
    proof {
        assert(all.take(all.len() as int) =~= all);
    }
    out
}

/// One step of `frame_records` over a growing prefix.
proof fn lemma_frame_records_take_step(chunks: Seq<Seq<u8>>, j: int)
    requires
        0 < j <= chunks.len(),
    ensures
        frame_records(chunks.take(j)) == frame_records(chunks.take(j - 1))
            + spec_u32_to_le_bytes(chunks[j - 1].len() as u32) + chunks[j - 1],
    decreases j,
{
    if j == 1 {
        assert(chunks.take(0) =~= Seq::<Seq<u8>>::empty());
        assert(chunks.take(1).drop_first() =~= Seq::<Seq<u8>>::empty());
        assert(chunks.take(1)[0] == chunks[0]);
    } else {
        lemma_frame_records_take_step(chunks.drop_first(), j - 1);
        assert(chunks.take(j).drop_first() =~= chunks.drop_first().take(j - 1));
        assert(chunks.take(j - 1).drop_first() =~= chunks.drop_first().take(j - 2));
        assert(chunks.take(j)[0] == chunks[0]);
        assert(chunks.take(j - 1)[0] == chunks[0]);
        assert(chunks.drop_first()[j - 2] == chunks[j - 1]);
        assert(frame_records(chunks.take(j)) == spec_u32_to_le_bytes(chunks[0].len() as u32)
            + chunks[0] + frame_records(chunks.drop_first().take(j - 1)));
    }
}

/// Read a frame back; errors exactly when the spec parser does.
pub fn decode_frame(data: &[u8]) -> (r: Result<Vec<Vec<u8>>, ComputeError>)
    ensures
        match r {
            Ok(c) => parse_frame(data@) == Some(c.deep_view()),
            Err(e) => parse_frame(data@) is None && e == ComputeError::FrameInvalid,
        },
{
    if data.len() < 4 {
        return Err(ComputeError::FrameInvalid);
    }
    let count_bytes: &[u8] = &data[0..4];
    proof {
        assert(count_bytes@ =~= data@.take(4));
    }
    let count: u32 = u32_from_le_bytes(count_bytes);
    let mut acc: Vec<Vec<u8>> = Vec::new();
    let mut offset: usize = 4;
    let mut j: u32 = 0;
    proof {
        assert(data@.skip(4) =~= data@.skip(offset as int));
    }
    while j < count
        invariant
            j <= count,
            4 <= offset <= data@.len(),
            acc.deep_view().len() == j as nat,
            forall|rest: Seq<Seq<u8>>|
                parse_records(data@.skip(offset as int), (count - j) as nat) == Some(rest)
                    ==> parse_frame(data@) == Some(acc.deep_view() + rest),
            parse_records(data@.skip(offset as int), (count - j) as nat) is None
                ==> parse_frame(data@) is None,
        decreases count - j,
    {
        let ghost rem = data@.skip(offset as int);
        let ghost n = (count - j) as nat;
        if data.len() - offset < 4 {
            proof {
                assert(rem.len() < 4);
            }
            return Err(ComputeError::FrameInvalid);
        }
        let len_bytes: &[u8] = &data[offset..offset + 4];
        proof {
            assert(len_bytes@ =~= rem.take(4));
        }
        let l: u32 = u32_from_le_bytes(len_bytes);
        if (data.len() - offset - 4) < l as usize {
            proof {
                assert(rem.len() < 4 + l as nat);
            }
            return Err(ComputeError::FrameInvalid);
        }
        let chunk_slice: &[u8] = &data[offset + 4..offset + 4 + l as usize];
        proof {
            assert(chunk_slice@ =~= rem.subrange(4, 4 + l as int));
        }
        let chunk: Vec<u8> = slice_to_vec(chunk_slice);
        let ghost acc0 = acc.deep_view();
        acc.push(chunk);
        offset = offset + 4 + l as usize;
        j = j + 1;
        proof {
            assert(acc.deep_view() =~~= acc0.push(chunk@));
            assert(data@.skip(offset as int) =~= rem.skip(4 + l as int));
            let rem2 = data@.skip(offset as int);
            let n2 = (count - j) as nat;
            assert(parse_records(rem, n) == match parse_records(rem2, n2) {
                Some(rest) => Some(seq![chunk@] + rest),
                None => None::<Seq<Seq<u8>>>,
            });
            assert forall|rest: Seq<Seq<u8>>|
                parse_records(rem2, n2) == Some(rest) implies parse_frame(data@) == Some(
                acc.deep_view() + rest,
            ) by {
                assert(parse_records(rem, n) == Some(seq![chunk@] + rest));
                assert(acc0 + (seq![chunk@] + rest) =~= acc.deep_view() + rest);
            }
        }
    }
    if offset != data.len() {
        proof {
            assert(data@.skip(offset as int).len() != 0);
        }
        return Err(ComputeError::FrameInvalid);
    }
    proof {
        assert(data@.skip(offset as int).len() == 0);
        assert(parse_records(data@.skip(offset as int), 0) == Some(Seq::<Seq<u8>>::empty()));
        assert(acc.deep_view() + Seq::<Seq<u8>>::empty() =~= acc.deep_view());
    }
    Ok(acc)
}

/// Concatenate chunks in order.
pub fn concat_chunks(chunks: &Vec<Vec<u8>>) -> (r: Vec<u8>)
    ensures
        r@ == concat_seqs(chunks.deep_view()),
{
    let mut out: Vec<u8> = Vec::new();
    let ghost all = chunks.deep_view();
    let mut j: usize = 0;
    proof {
        assert(out@ =~= concat_seqs(all.take(0)));
    }
    while j < chunks.len()
        invariant
            j <= chunks@.len(),
            all == chunks.deep_view(),
            out@ == concat_seqs(all.take(j as int)),
        decreases chunks@.len() - j,
    {
        let mut k: usize = 0;
        let chunk_len: usize = chunks[j].len();
        while k < chunk_len
            invariant
                k <= chunk_len,
                j < chunks@.len(),
                chunk_len == chunks@[j as int]@.len(),
                all == chunks.deep_view(),
                out@ == concat_seqs(all.take(j as int)) + chunks@[j as int]@.take(k as int),
            decreases chunk_len - k,
        {
            let b: u8 = chunks[j][k];
            out.push(b);
            k = k + 1;
            proof {
                assert(chunks@[j as int]@.take(k as int)
                    =~= chunks@[j as int]@.take(k - 1int).push(b));
            }
        }
        j = j + 1;
        proof {
            assert(chunks@[j - 1int]@.take(chunk_len as int) =~= all[j - 1int]);
            lemma_concat_take_step(all, j as int);
            assert(out@ =~= concat_seqs(all.take(j as int)));
        }
    }
    proof {
        assert(all.take(all.len() as int) =~= all);
    }
    out
}

/// One step of `concat_seqs` over a growing prefix.
pub proof fn lemma_concat_take_step(chunks: Seq<Seq<u8>>, j: int)
    requires
        0 < j <= chunks.len(),
    ensures
        concat_seqs(chunks.take(j)) == concat_seqs(chunks.take(j - 1)) + chunks[j - 1],
    decreases j,
{
    if j == 1 {
        assert(chunks.take(0) =~= Seq::<Seq<u8>>::empty());
        assert(chunks.take(1).drop_first() =~= Seq::<Seq<u8>>::empty());
        assert(chunks.take(1)[0] == chunks[0]);
        assert(chunks.take(1).len() == 1);
        assert(concat_seqs(chunks.take(1)) == chunks.take(1)[0] + concat_seqs(
            chunks.take(1).drop_first(),
        ));
        assert(chunks[0] + Seq::<u8>::empty() =~= chunks[0]);
        assert(concat_seqs(chunks.take(0)) + chunks[0] =~= chunks[0]);
    } else {
        lemma_concat_take_step(chunks.drop_first(), j - 1);
        assert(chunks.take(j).drop_first() =~= chunks.drop_first().take(j - 1));
        assert(chunks.take(j - 1).drop_first() =~= chunks.drop_first().take(j - 2));
        assert(chunks.take(j)[0] == chunks[0]);
        assert(chunks.take(j - 1)[0] == chunks[0]);
        assert(chunks.drop_first()[j - 2] == chunks[j - 1]);
        assert(concat_seqs(chunks.take(j)) == chunks[0] + concat_seqs(chunks.drop_first().take(j - 1)));
        assert(chunks[0] + (concat_seqs(chunks.drop_first().take(j - 2)) + chunks[j - 1])
            =~= (chunks[0] + concat_seqs(chunks.drop_first().take(j - 2))) + chunks[j - 1]);
    }
}

/// Cutting a byte string into pieces of `size` bytes, the last one shorter.
pub open spec fn chunk_seq(data: Seq<u8>, size: nat) -> Seq<Seq<u8>>
    recommends
        size >= 1,
    decreases data.len(),
{
    if data.len() == 0 {
        Seq::empty()
    } else if data.len() <= size || size == 0 {
        seq![data]
    } else {
        seq![data.take(size as int)] + chunk_seq(data.skip(size as int), size)
    }
}

/// Cut a byte string into chunks of `size` bytes.
pub fn chunk_bytes(data: &[u8], size: usize) -> (r: Vec<Vec<u8>>)
    requires
        size >= 1,
    ensures
        r.deep_view() == chunk_seq(data@, size as nat),
{
    let mut out: Vec<Vec<u8>> = Vec::new();
    let mut offset: usize = 0;
    proof {
        assert(data@.skip(0) =~= data@);
        assert(out.deep_view() + chunk_seq(data@, size as nat) =~~= chunk_seq(data@, size as nat));
    }
    while offset < data.len()
        invariant
            size >= 1,
            offset <= data@.len(),
            chunk_seq(data@, size as nat) =~~= out.deep_view() + chunk_seq(
                data@.skip(offset as int),
                size as nat,
            ),
        decreases data@.len() - offset,
    {
        let ghost out0 = out.deep_view();
        let ghost rem = data@.skip(offset as int);
        let end: usize = if data.len() - offset <= size {
            data.len()
        } else {
            offset + size
        };
        let piece: &[u8] = &data[offset..end];
        let chunk: Vec<u8> = slice_to_vec(piece);
        out.push(chunk);
        proof {
            assert(out.deep_view() =~~= out0.push(chunk@));
            if rem.len() <= size as nat {
                assert(chunk@ =~= rem);
                assert(chunk_seq(rem, size as nat) =~= seq![rem]);
                assert(out0 + (seq![rem] + Seq::<Seq<u8>>::empty()) =~= out0.push(rem));
                assert(data@.skip(end as int).len() == 0);
            } else {
                assert(chunk@ =~= rem.take(size as int));
                assert(data@.skip(end as int) =~= rem.skip(size as int));
                assert(out0 + (seq![chunk@] + chunk_seq(rem.skip(size as int), size as nat))
                    =~~= out0.push(chunk@) + chunk_seq(rem.skip(size as int), size as nat));
            }
        }
        offset = end;
    }
    proof {
        assert(data@.skip(offset as int).len() == 0);
        assert(out.deep_view() + Seq::<Seq<u8>>::empty() =~~= out.deep_view());
    }
    out
}

/// Joining the chunks of a byte string restores it.
pub proof fn lemma_concat_of_chunks(data: Seq<u8>, size: nat)
    requires
        size >= 1,
    ensures
        concat_seqs(chunk_seq(data, size)) == data,
    decreases data.len(),
{
    if data.len() == 0 {
        assert(concat_seqs(chunk_seq(data, size)) =~= data);
    } else if data.len() <= size {
        assert(chunk_seq(data, size) == seq![data]);
        assert(seq![data].drop_first() =~= Seq::<Seq<u8>>::empty());
        assert(seq![data][0] == data);
        assert(concat_seqs(seq![data]) == data + concat_seqs(seq![data].drop_first()));
        assert(data + Seq::<u8>::empty() =~= data);
        assert(concat_seqs(chunk_seq(data, size)) =~= data);
    } else {
        lemma_concat_of_chunks(data.skip(size as int), size);
        let cs = chunk_seq(data, size);
        assert(cs.len() >= 2);
        assert(cs[0] == data.take(size as int));
        assert(cs.drop_first() =~= chunk_seq(data.skip(size as int), size));
        assert(concat_seqs(cs) == cs[0] + concat_seqs(cs.drop_first()));
        assert(data.take(size as int) + data.skip(size as int) =~= data);
        assert(concat_seqs(cs) =~= data);
    }
}

/// Chunks are no longer than `size`, and there are few of them.
pub proof fn lemma_chunk_seq_wf(data: Seq<u8>, size: nat)
    requires
        size >= 1,
    ensures
        chunk_seq(data, size).len() <= data.len(),
        forall|i: int| 0 <= i < chunk_seq(data, size).len() ==> #[trigger] chunk_seq(
            data,
            size,
        )[i].len() <= size,
        data.len() > 0 ==> chunk_seq(data, size).len() >= 1,
    decreases data.len(),
{
    if data.len() == 0 {
    } else if data.len() <= size {
    } else {
        lemma_chunk_seq_wf(data.skip(size as int), size);
        let cs = chunk_seq(data, size);
        let rest = chunk_seq(data.skip(size as int), size);
        assert(cs.drop_first() =~= rest);
        assert(forall|i: int| 1 <= i < cs.len() ==> cs[i] == rest[i - 1]);
    }
}

/// Parsing inverts framing: a frame written for `chunks` reads back as
/// exactly `chunks`.
pub proof fn lemma_parse_of_frame(chunks: Seq<Seq<u8>>)
    requires
        chunks_wf(chunks),
        chunks.len() <= 0xffff_ffff,
    ensures
        parse_frame(frame_bytes(chunks)) == Some(chunks),
{
    lemma_auto_spec_u32_to_from_le_bytes();
    let data = frame_bytes(chunks);
    assert(data.take(4) =~= spec_u32_to_le_bytes(chunks.len() as u32));
    assert(data.skip(4) =~= frame_records(chunks));
    lemma_parse_of_records(chunks);
}

/// Parsing inverts the record list.
proof fn lemma_parse_of_records(chunks: Seq<Seq<u8>>)
    requires
        chunks_wf(chunks),
    ensures
        parse_records(frame_records(chunks), chunks.len()) == Some(chunks),
    decreases chunks.len(),
{
    lemma_auto_spec_u32_to_from_le_bytes();
    if chunks.len() == 0 {
        assert(frame_records(chunks).len() == 0);
    } else {
        let data = frame_records(chunks);
        let head = chunks[0];
        let lb = spec_u32_to_le_bytes(head.len() as u32);
        assert(data =~= lb + head + frame_records(chunks.drop_first()));
        assert(data.take(4) =~= lb);
        assert(spec_u32_from_le_bytes(lb) == head.len() as u32);
        assert(data.len() >= 4 + head.len());
        assert(data.subrange(4, 4 + head.len() as int) =~= head);
        assert(data.skip(4 + head.len() as int) =~= frame_records(chunks.drop_first()));
        lemma_parse_of_records(chunks.drop_first());
        assert(seq![head] + chunks.drop_first() =~= chunks);
    }
}

/// Framing inverts parsing: a byte string that parses as `chunks` is
/// exactly the frame written for `chunks`.
pub proof fn lemma_frame_of_parse(data: Seq<u8>, chunks: Seq<Seq<u8>>)
    requires
        parse_frame(data) == Some(chunks),
    ensures
        data == frame_bytes(chunks),
        chunks_wf(chunks),
        chunks.len() <= 0xffff_ffff,
{
    lemma_auto_spec_u32_to_from_le_bytes();
    let n = spec_u32_from_le_bytes(data.take(4)) as nat;
    lemma_frame_of_records(data.skip(4), n, chunks);
    assert(chunks.len() == n);
    assert(data =~= data.take(4) + data.skip(4));
    assert(data.take(4) =~= spec_u32_to_le_bytes(chunks.len() as u32));
}

/// Record lists are parsed unambiguously.
proof fn lemma_frame_of_records(data: Seq<u8>, n: nat, chunks: Seq<Seq<u8>>)
    requires
        parse_records(data, n) == Some(chunks),
    ensures
        data == frame_records(chunks),
        chunks.len() == n,
        chunks_wf(chunks),
    decreases n,
{
    lemma_auto_spec_u32_to_from_le_bytes();
    if n == 0 {
        assert(data.len() == 0);
        assert(data =~= frame_records(chunks));
    } else {
        let l = spec_u32_from_le_bytes(data.take(4)) as nat;
        let chunk = data.subrange(4, 4 + l as int);
        let rest_data = data.skip(4 + l as int);
        let rest = parse_records(rest_data, (n - 1) as nat)->Some_0;
        lemma_frame_of_records(rest_data, (n - 1) as nat, rest);
        assert(chunks == seq![chunk] + rest);
        assert(chunks[0] == chunk);
        assert(chunks.drop_first() =~= rest);
        assert(chunk.len() == l);
        assert(spec_u32_to_le_bytes(chunk.len() as u32) =~= data.take(4));
        assert(data =~= data.take(4) + chunk + rest_data);
        assert(forall|i: int| 0 <= i < chunks.len() ==> #[trigger] chunks[i].len() <= 0xffff_ffffnat);
    }
}

} // verus!
