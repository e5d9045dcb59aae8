//! The encrypted I/O tunnel of the sandbox: an XChaCha20-Poly1305
//! envelope whose plaintext is an 8-byte little-endian length, the data,
//! and zero padding to the next kilobyte block.

use vstd::prelude::*;
use vstd::bytes::{spec_u64_to_le_bytes, spec_u64_from_le_bytes, lemma_auto_spec_u64_to_from_le_bytes, u64_to_le_bytes, u64_from_le_bytes};

use crate::crypto::{chacha_seal, xchacha_seal, xchacha_open, random_nonce_24};
use crate::errors::ComputeError;
use crate::fec::zeros;

verus! {

pub const TUNNEL_BLOCK_SIZE: usize = 1024;

/// The padded plaintext inside the envelope.
pub open spec fn tunnel_plain(data: Seq<u8>) -> Seq<u8> {
    let body = spec_u64_to_le_bytes(data.len() as u64) + data;
    let blen: int = body.len() as int;
    let block: int = TUNNEL_BLOCK_SIZE as int;
    let pad: int = (block - blen % block) % block;
    body + zeros(pad as nat)
}

/// The emitted envelope: the nonce, then the sealed padded plaintext.
pub open spec fn tunnel_sealed(key: Seq<u8>, nonce: Seq<u8>, data: Seq<u8>) -> Seq<u8> {
    nonce + chacha_seal(key, nonce, tunnel_plain(data))
}

/// The tunnel: one 32-byte key.
pub struct IoTunnel {
    key: [u8; 32],
}

impl IoTunnel {
    /// The key.
    pub closed spec fn spec_key(self) -> Seq<u8> {
        self.key@
    }

    /// A tunnel from a 32-byte key; any other length is rejected.
    pub fn new(key: &[u8]) -> (r: Result<IoTunnel, ComputeError>)
        ensures
            key@.len() == 32 ==> (r matches Ok(t) && t.spec_key() == key@),
            key@.len() != 32 ==> r == Err::<IoTunnel, ComputeError>(ComputeError::TunnelRejected),
    {
        if key.len() != 32 {
            return Err(ComputeError::TunnelRejected);
        }
        let mut arr: [u8; 32] = [0; 32];
        let mut i: usize = 0;
        while i < 32
            invariant
                i <= 32,
                key@.len() == 32,
                forall|j: int| 0 <= j < i ==> #[trigger] arr@[j] == key@[j],
            decreases 32 - i,
        {
            arr[i] = key[i];
            i = i + 1;
        }
        proof {
            assert(arr@ =~= key@);
        }
        Ok(IoTunnel { key: arr })
    }

    /// Seal a payload: the envelope is exactly the sealed padded
    /// plaintext under some fresh nonce, and every payload whose padded
    /// plaintext fits 32 bits seals.
    pub fn encrypt(&self, plaintext: &[u8]) -> (r: Result<Vec<u8>, ComputeError>)
        requires
            plaintext@.len() + 8 + TUNNEL_BLOCK_SIZE <= u64::MAX,
        ensures
            plaintext@.len() + 8 + TUNNEL_BLOCK_SIZE <= 0xffff_ffff ==> r is Ok,
            r matches Ok(v) ==> (exists|nonce: Seq<u8>|
                nonce.len() == 24 && v@ == #[trigger] tunnel_sealed(
                    self.spec_key(),
                    nonce,
                    plaintext@,
                )),
    {
        let mut body: Vec<u8> = u64_to_le_bytes(plaintext.len() as u64);
        let mut data_copy = crate::fec::copy_bytes(&vstd::slice::slice_to_vec(plaintext));
        body.append(&mut data_copy);
        let rem: usize = body.len() % TUNNEL_BLOCK_SIZE;
        let pad: usize = (TUNNEL_BLOCK_SIZE - rem) % TUNNEL_BLOCK_SIZE;
        let mut p: usize = 0;
        let ghost body0 = body@;
        while p < pad
            invariant
                p <= pad,
                body@ =~= body0 + zeros(p as nat),
            decreases pad - p,
        {
            body.push(0);
            p = p + 1;
            proof {
                assert(body@ =~= body0 + zeros(p as nat));
            }
        }
        proof {
            assert(body@ =~= tunnel_plain(plaintext@));
        }
        let nonce: [u8; 24] = random_nonce_24();
        let sealed = xchacha_seal(&self.key, &nonce, body.as_slice());
        let ct = match sealed {
            Ok(v) => v,
            Err(_) => {
                return Err(ComputeError::TunnelRejected);
            },
        };
        let mut out: Vec<u8> = Vec::new();
        let mut ni: usize = 0;
        while ni < 24
            invariant
                ni <= 24,
                out@ =~= nonce@.take(ni as int),
            decreases 24 - ni,
        {
            out.push(nonce[ni]);
            ni = ni + 1;
            proof {
                assert(out@ =~= nonce@.take(ni as int));
            }
        }
        proof {
            assert(nonce@.take(24) =~= nonce@);
        }
        let mut ct_mut = ct;
        out.append(&mut ct_mut);
        proof {
            assert(out@ =~= tunnel_sealed(self.spec_key(), nonce@, plaintext@));
        }
        Ok(out)
    }

    /// Open an envelope — the tunnel round trip: for every payload whose
    /// sealing produced the input, the result is exactly that payload.
    pub fn decrypt(&self, ciphertext_with_nonce: &[u8]) -> (r: Result<Vec<u8>, ComputeError>)
        ensures
            forall|p: Seq<u8>, nonce: Seq<u8>|
                (nonce.len() == 24 && p.len() <= u64::MAX && ciphertext_with_nonce@
                    == #[trigger] tunnel_sealed(self.spec_key(), nonce, p)) ==> (r matches Ok(v)
                    && v@ == p),
    {
        if ciphertext_with_nonce.len() < 24 {
            proof {
                assert forall|p: Seq<u8>, nonce: Seq<u8>|
                    !(nonce.len() == 24 && p.len() <= u64::MAX && ciphertext_with_nonce@
                        == #[trigger] tunnel_sealed(self.spec_key(), nonce, p)) by {
                    if nonce.len() == 24 && ciphertext_with_nonce@ == tunnel_sealed(
                        self.spec_key(),
                        nonce,
                        p,
                    ) {
                        assert(ciphertext_with_nonce@.len() >= 24);
                    }
                }
            }
            return Err(ComputeError::TunnelRejected);
        }
        let nonce_slice: &[u8] = &ciphertext_with_nonce[0..24];
        let mut nonce_arr: [u8; 24] = [0; 24];
        let mut t: usize = 0;
        while t < 24
            invariant
                t <= 24,
                ciphertext_with_nonce@.len() >= 24,
                nonce_slice@ == ciphertext_with_nonce@.take(24),
                forall|u: int| 0 <= u < t ==> #[trigger] nonce_arr@[u] == nonce_slice@[u],
            decreases 24 - t,
        {
            nonce_arr[t] = nonce_slice[t];
            t = t + 1;
        }
        proof {
            assert(nonce_arr@ =~= ciphertext_with_nonce@.take(24));
        }
        let ct_slice: &[u8] = &ciphertext_with_nonce[24..ciphertext_with_nonce.len()];
        proof {
            assert(ct_slice@ =~= ciphertext_with_nonce@.skip(24));
        }
        let opened = xchacha_open(&self.key, &nonce_arr, ct_slice);
        let plain = match opened {
            Ok(v) => v,
            Err(_) => {
                proof {
                    assert forall|p: Seq<u8>, nonce: Seq<u8>|
                        !(nonce.len() == 24 && p.len() <= u64::MAX && ciphertext_with_nonce@
                            == #[trigger] tunnel_sealed(self.spec_key(), nonce, p)) by {
                        if nonce.len() == 24 && ciphertext_with_nonce@ == tunnel_sealed(
                            self.spec_key(),
                            nonce,
                            p,
                        ) {
                            assert(nonce_arr@ =~= nonce);
                            assert(ct_slice@ =~= chacha_seal(
                                self.spec_key(),
                                nonce,
                                tunnel_plain(p),
                            ));
                        }
                    }
                }
                return Err(ComputeError::TunnelRejected);
            },
        };
        if plain.len() < 8 {
            proof {
                lemma_auto_spec_u64_to_from_le_bytes();
                assert forall|p: Seq<u8>, nonce: Seq<u8>|
                    !(nonce.len() == 24 && p.len() <= u64::MAX && ciphertext_with_nonce@
                        == #[trigger] tunnel_sealed(self.spec_key(), nonce, p)) by {
                    if nonce.len() == 24 && ciphertext_with_nonce@ == tunnel_sealed(
                        self.spec_key(),
                        nonce,
                        p,
                    ) {
                        assert(nonce_arr@ =~= nonce);
                        assert(ct_slice@ =~= chacha_seal(self.spec_key(), nonce, tunnel_plain(p)));
                        assert(plain@ == tunnel_plain(p));
                        assert(plain@.len() >= 8);
                    }
                }
            }
            return Err(ComputeError::TunnelRejected);
        }
        let len_slice: &[u8] = &plain.as_slice()[0..8];
        proof {
            assert(len_slice@ =~= plain@.take(8));
        }
        let wanted: u64 = u64_from_le_bytes(len_slice);
        let avail: u64 = (plain.len() - 8) as u64;
        if avail < wanted {
            proof {
                lemma_auto_spec_u64_to_from_le_bytes();
                assert forall|p: Seq<u8>, nonce: Seq<u8>|
                    !(nonce.len() == 24 && p.len() <= u64::MAX && ciphertext_with_nonce@
                        == #[trigger] tunnel_sealed(self.spec_key(), nonce, p)) by {
                    if nonce.len() == 24 && p.len() <= u64::MAX && ciphertext_with_nonce@
                        == tunnel_sealed(self.spec_key(), nonce, p) {
                        assert(nonce_arr@ =~= nonce);
                        assert(ct_slice@ =~= chacha_seal(self.spec_key(), nonce, tunnel_plain(p)));
                        assert(plain@ == tunnel_plain(p));
                        assert(plain@.take(8) =~= spec_u64_to_le_bytes(p.len() as u64));
                        assert(wanted == p.len());
                        assert(plain@.len() >= 8 + p.len());
                    }
                }
            }
            return Err(ComputeError::TunnelRejected);
        }
        let result_slice: &[u8] = &plain.as_slice()[8..8 + wanted as usize];
        proof {
            assert(result_slice@ =~= plain@.subrange(8, 8 + wanted as int));
        }
        let result = vstd::slice::slice_to_vec(result_slice);
        proof {
            lemma_auto_spec_u64_to_from_le_bytes();
            assert forall|p: Seq<u8>, nonce: Seq<u8>|
                (nonce.len() == 24 && p.len() <= u64::MAX && ciphertext_with_nonce@
                    == #[trigger] tunnel_sealed(self.spec_key(), nonce, p)) implies (result@
                == p) by {
                assert(nonce_arr@ =~= nonce);
                assert(ct_slice@ =~= chacha_seal(self.spec_key(), nonce, tunnel_plain(p)));
                assert(plain@ == tunnel_plain(p));
                assert(plain@.take(8) =~= spec_u64_to_le_bytes(p.len() as u64));
                assert(wanted == p.len());
                assert(plain@.subrange(8, 8 + wanted as int) =~= p);
            }
        }
        Ok(result)
    }
}

} // verus!
