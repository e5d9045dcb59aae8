//! Stream packets: the wire form of real-time media frames, with
//! big-endian framing.

use vstd::prelude::*;

use crate::errors::ComputeError;
use vstd::slice::slice_to_vec;

verus! {

/// What a stream carries.
#[derive(Debug, Clone, Copy, PartialEq, Eq, Structural)]
pub enum StreamType {
    /// Voice or other audio.
    Audio,
    /// Video.
    Video,
    /// Audio and video together.
    AudioVideo,
}

/// The wire byte of a stream type.
pub open spec fn spec_type_byte(t: StreamType) -> u8 {
    match t {
        StreamType::Audio => 0,
        StreamType::Video => 1,
        StreamType::AudioVideo => 2,
    }
}

/// A big-endian 8-byte rendering.
pub open spec fn spec_u64_be(x: u64) -> Seq<u8> {
    seq![
        (x >> 56) as u8,
        (x >> 48) as u8,
        (x >> 40) as u8,
        (x >> 32) as u8,
        (x >> 24) as u8,
        (x >> 16) as u8,
        (x >> 8) as u8,
        x as u8,
    ]
}

/// A big-endian 8-byte reading.
pub open spec fn spec_u64_from_be(s: Seq<u8>) -> u64
    recommends
        s.len() == 8,
{
    ((s[0] as u64) << 56) | ((s[1] as u64) << 48) | ((s[2] as u64) << 40) | ((s[3] as u64) << 32)
        | ((s[4] as u64) << 24) | ((s[5] as u64) << 16) | ((s[6] as u64) << 8) | (s[7] as u64)
}

/// A big-endian 4-byte rendering.
pub open spec fn spec_u32_be(x: u32) -> Seq<u8> {
    seq![(x >> 24) as u8, (x >> 16) as u8, (x >> 8) as u8, x as u8]
}

/// A big-endian 4-byte reading.
pub open spec fn spec_u32_from_be(s: Seq<u8>) -> u32
    recommends
        s.len() == 4,
{
    ((s[0] as u32) << 24) | ((s[1] as u32) << 16) | ((s[2] as u32) << 8) | (s[3] as u32)
}

/// Reading a big-endian rendering gives the number back.
pub proof fn lemma_u64_be_round_trip(x: u64)
    ensures
        spec_u64_from_be(spec_u64_be(x)) == x,
{
    assert((((x >> 56) as u8) as u64) << 56 | (((x >> 48) as u8) as u64) << 48 | (((x
        >> 40) as u8) as u64) << 40 | (((x >> 32) as u8) as u64) << 32 | (((x
        >> 24) as u8) as u64) << 24 | (((x >> 16) as u8) as u64) << 16 | (((x
        >> 8) as u8) as u64) << 8 | ((x as u8) as u64) == x) by (bit_vector);
}

/// Reading a big-endian rendering gives the number back.
pub proof fn lemma_u32_be_round_trip(x: u32)
    ensures
        spec_u32_from_be(spec_u32_be(x)) == x,
{
    assert((((x >> 24) as u8) as u32) << 24 | (((x >> 16) as u8) as u32) << 16 | (((x
        >> 8) as u8) as u32) << 8 | ((x as u8) as u32) == x) by (bit_vector);
}

/// Write a number in big-endian order.
fn u64_to_be(x: u64) -> (r: [u8; 8])
    ensures
        r@ == spec_u64_be(x),
{
    let r: [u8; 8] = [
        (x >> 56) as u8,
        (x >> 48) as u8,
        (x >> 40) as u8,
        (x >> 32) as u8,
        (x >> 24) as u8,
        (x >> 16) as u8,
        (x >> 8) as u8,
        x as u8,
    ];
    proof {
        assert(r@ =~= spec_u64_be(x));
    }
    r
}

/// Read a number in big-endian order.
fn u64_from_be(s: &[u8]) -> (r: u64)
    requires
        s@.len() == 8,
    ensures
        r == spec_u64_from_be(s@),
{
    ((s[0] as u64) << 56) | ((s[1] as u64) << 48) | ((s[2] as u64) << 40) | ((s[3] as u64) << 32)
        | ((s[4] as u64) << 24) | ((s[5] as u64) << 16) | ((s[6] as u64) << 8) | (s[7] as u64)
}

/// Write a number in big-endian order.
fn u32_to_be(x: u32) -> (r: [u8; 4])
    ensures
        r@ == spec_u32_be(x),
{
    let r: [u8; 4] = [(x >> 24) as u8, (x >> 16) as u8, (x >> 8) as u8, x as u8];
    proof {
        assert(r@ =~= spec_u32_be(x));
    }
    r
}

/// Read a number in big-endian order.
fn u32_from_be(s: &[u8]) -> (r: u32)
    requires
        s@.len() == 4,
    ensures
        r == spec_u32_from_be(s@),
{
    ((s[0] as u32) << 24) | ((s[1] as u32) << 16) | ((s[2] as u32) << 8) | (s[3] as u32)
}

/// Video stream parameters, for the codecs that consume the streaming
/// fabric.
#[derive(Debug, Clone, Copy, PartialEq, Eq, Structural)]
pub struct VideoConfig {
    pub width: u32,
    pub height: u32,
    pub framerate: u32,
    pub bitrate: u32,
}

/// A media frame on the wire: a sequence number, a capture timestamp, the
/// stream type, the encoded payload and optional FEC bytes.
#[derive(Debug, Clone)]
pub struct StreamPacket {
    pub sequence: u64,
    pub timestamp: u64,
    pub stream_type: StreamType,
    pub payload: Vec<u8>,
    pub fec_data: Option<Vec<u8>>,
}

/// The wire bytes of a packet.
pub open spec fn spec_packet_bytes(
    sequence: u64,
    timestamp: u64,
    stream_type: StreamType,
    payload: Seq<u8>,
    fec: Option<Seq<u8>>,
) -> Seq<u8> {
    spec_u64_be(sequence) + spec_u64_be(timestamp) + seq![spec_type_byte(stream_type)]
        + spec_u32_be(payload.len() as u32) + payload + match fec {
        Some(f) => spec_u32_be(f.len() as u32) + f,
        None => spec_u32_be(0),
    }
}

/// A well-formed packet frame: long enough for its header, a known
/// stream-type byte, and payload and FEC ranges that lie inside it.
pub open spec fn spec_frame_wf(data: Seq<u8>) -> bool {
    &&& data.len() >= 21
    &&& (data[16] == 0 || data[16] == 1 || data[16] == 2)
    &&& ({
        let plen = spec_u32_from_be(data.subrange(17, 21)) as int;
        &&& data.len() >= 21 + plen + 4
        &&& ({
            let flen = spec_u32_from_be(data.subrange(21 + plen, 21 + plen + 4)) as int;
            flen == 0 || data.len() >= 21 + plen + 4 + flen
        })
    })
}

impl StreamPacket {
    /// The views of the packet's variable parts.
    pub open spec fn spec_fec_view(self) -> Option<Seq<u8>> {
        match self.fec_data {
            Some(f) => Some(f@),
            None => None,
        }
    }

    /// Serialize for transmission.
    pub fn to_bytes(&self) -> (r: Result<Vec<u8>, ComputeError>)
        requires
            self.payload@.len() <= 0xffff_ffff,
            self.fec_data matches Some(f) ==> f@.len() <= 0xffff_ffff,
        ensures
            r matches Ok(v) && v@ == spec_packet_bytes(
                self.sequence,
                self.timestamp,
                self.stream_type,
                self.payload@,
                self.spec_fec_view(),
            ),
    {
        let mut out: Vec<u8> = Vec::new();
        let seq_bytes = u64_to_be(self.sequence);
        let mut seq_vec = slice_to_vec(seq_bytes.as_slice());
        out.append(&mut seq_vec);
        let ts_bytes = u64_to_be(self.timestamp);
        let mut ts_vec = slice_to_vec(ts_bytes.as_slice());
        out.append(&mut ts_vec);
        let type_byte: u8 = match self.stream_type {
            StreamType::Audio => 0,
            StreamType::Video => 1,
            StreamType::AudioVideo => 2,
        };
        out.push(type_byte);
        let plen_bytes = u32_to_be(self.payload.len() as u32);
        let mut plen_vec = slice_to_vec(plen_bytes.as_slice());
        out.append(&mut plen_vec);
        let mut payload_copy = slice_to_vec(self.payload.as_slice());
        out.append(&mut payload_copy);
        match &self.fec_data {
            Some(f) => {
                let flen_bytes = u32_to_be(f.len() as u32);
                let mut flen_vec = slice_to_vec(flen_bytes.as_slice());
                out.append(&mut flen_vec);
                let mut fec_copy = slice_to_vec(f.as_slice());
                out.append(&mut fec_copy);
            },
            None => {
                let flen_bytes = u32_to_be(0);
                let mut flen_vec = slice_to_vec(flen_bytes.as_slice());
                out.append(&mut flen_vec);
            },
        }
        proof {
            assert(out@ =~= spec_packet_bytes(
                self.sequence,
                self.timestamp,
                self.stream_type,
                self.payload@,
                self.spec_fec_view(),
            ));
        }
        Ok(out)
    }

    /// Deserialize from the wire; each field is read from its exact
    /// position, exactly the well-formed frames are accepted, and
    /// malformed input is rejected.
    pub fn from_bytes(data: &[u8]) -> (r: Result<StreamPacket, ComputeError>)
        ensures
            r is Ok <==> spec_frame_wf(data@),
            r is Err ==> r == Err::<StreamPacket, ComputeError>(ComputeError::FrameInvalid),
            r matches Ok(p) ==> ({
                let plen = spec_u32_from_be(data@.subrange(17, 21)) as int;
                &&& data@.len() >= 21
                &&& p.sequence == spec_u64_from_be(data@.take(8))
                &&& p.timestamp == spec_u64_from_be(data@.subrange(8, 16))
                &&& spec_type_byte(p.stream_type) == data@[16]
                &&& data@.len() >= 21 + plen + 4
                &&& p.payload@ == data@.subrange(21, 21 + plen)
                &&& ({
                    let flen = spec_u32_from_be(
                        data@.subrange(21 + plen, 21 + plen + 4),
                    ) as int;
                    if flen == 0 {
                        p.fec_data is None
                    } else {
                        data@.len() >= 21 + plen + 4 + flen && (p.fec_data matches Some(f) && f@
                            == data@.subrange(21 + plen + 4, 21 + plen + 4 + flen))
                    }
                })
            }),
    {
        if data.len() < 21 {
            return Err(ComputeError::FrameInvalid);
        }
        let seq_slice: &[u8] = &data[0..8];
        proof {
            assert(seq_slice@ =~= data@.take(8));
        }
        let sequence = u64_from_be(seq_slice);
        let ts_slice: &[u8] = &data[8..16];
        proof {
            assert(ts_slice@ =~= data@.subrange(8, 16));
        }
        let timestamp = u64_from_be(ts_slice);
        let stream_type = match data[16] {
            0 => StreamType::Audio,
            1 => StreamType::Video,
            2 => StreamType::AudioVideo,
            _ => {
                return Err(ComputeError::FrameInvalid);
            },
        };
        let plen_slice: &[u8] = &data[17..21];
        proof {
            assert(plen_slice@ =~= data@.subrange(17, 21));
        }
        let plen = u32_from_be(plen_slice) as usize;
        if data.len() - 21 < plen || data.len() - 21 - plen < 4 {
            return Err(ComputeError::FrameInvalid);
        }
        let payload_slice: &[u8] = &data[21..21 + plen];
        proof {
            assert(payload_slice@ =~= data@.subrange(21, 21 + plen as int));
        }
        let payload = slice_to_vec(payload_slice);
        let flen_slice: &[u8] = &data[21 + plen..21 + plen + 4];
        proof {
            assert(flen_slice@ =~= data@.subrange(21 + plen as int, 21 + plen as int + 4));
        }
        let flen = u32_from_be(flen_slice) as usize;
        let fec_data: Option<Vec<u8>> = if flen == 0 {
            None
        } else {
            if data.len() - 21 - plen - 4 < flen {
                return Err(ComputeError::FrameInvalid);
            }
            let fec_slice: &[u8] = &data[21 + plen + 4..21 + plen + 4 + flen];
            proof {
                assert(fec_slice@ =~= data@.subrange(
                    21 + plen as int + 4,
                    21 + plen as int + 4 + flen as int,
                ));
            }
            Some(slice_to_vec(fec_slice))
        };
        Ok(StreamPacket { sequence, timestamp, stream_type, payload, fec_data })
    }
}

/// Round trip of the wire form: the bytes of a packet are a well-formed
/// frame, and every field parses back from its exact position, so
/// deserializing a serialized packet restores it.
pub proof fn lemma_packet_bytes_round_trip(
    sequence: u64,
    timestamp: u64,
    stream_type: StreamType,
    payload: Seq<u8>,
    fec: Option<Seq<u8>>,
)
    requires
        payload.len() <= 0xffff_ffff,
        fec matches Some(f) ==> 1 <= f.len() <= 0xffff_ffff,
    ensures
        ({
            let b = spec_packet_bytes(sequence, timestamp, stream_type, payload, fec);
            &&& spec_frame_wf(b)
            &&& spec_u64_from_be(b.take(8)) == sequence
            &&& spec_u64_from_be(b.subrange(8, 16)) == timestamp
            &&& b[16] == spec_type_byte(stream_type)
            &&& spec_u32_from_be(b.subrange(17, 21)) == payload.len()
            &&& b.subrange(21, 21 + payload.len() as int) == payload
            &&& ({
                let fpos = 21 + payload.len() as int;
                match fec {
                    Some(f) => spec_u32_from_be(b.subrange(fpos, fpos + 4)) == f.len()
                        && b.subrange(fpos + 4, fpos + 4 + f.len() as int) == f,
                    None => spec_u32_from_be(b.subrange(fpos, fpos + 4)) == 0,
                }
            })
        }),
{
    let b = spec_packet_bytes(sequence, timestamp, stream_type, payload, fec);
    lemma_u64_be_round_trip(sequence);
    lemma_u64_be_round_trip(timestamp);
    lemma_u32_be_round_trip(payload.len() as u32);
    assert(b.take(8) =~= spec_u64_be(sequence));
    assert(b.subrange(8, 16) =~= spec_u64_be(timestamp));
    assert(b.subrange(17, 21) =~= spec_u32_be(payload.len() as u32));
    assert(b.subrange(21, 21 + payload.len() as int) =~= payload);
    let fpos = 21 + payload.len() as int;
    match fec {
        Some(f) => {
            lemma_u32_be_round_trip(f.len() as u32);
            assert(b.subrange(fpos, fpos + 4) =~= spec_u32_be(f.len() as u32));
            assert(b.subrange(fpos + 4, fpos + 4 + f.len() as int) =~= f);
        },
        None => {
            lemma_u32_be_round_trip(0);
            assert(b.subrange(fpos, fpos + 4) =~= spec_u32_be(0u32));
        },
    }
}

} // verus!
