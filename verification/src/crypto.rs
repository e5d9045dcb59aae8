//! Trusted boundary to the cryptographic crates.
//!
//! Each wrapper names the outside function it relies on; results that no
//! short formula can state (digests, AEAD ciphertexts, signatures) are given
//! uninterpreted names, and every contract of the library speaks of those
//! names exactly.

use vstd::prelude::*;

use chacha20poly1305::aead::{Aead, KeyInit};
use ed25519_dalek::Verifier;
use rand::Rng;
use rand::RngCore;
use sha2::Digest;

verus! {

/// The lowercase hex encoding of the SHA-256 digest of `data`.
pub uninterp spec fn sha256_hex_of(data: Seq<u8>) -> Seq<char>;

/// The hash of an inner Merkle node: the SHA-256 digest, in lowercase hex,
/// of the bytes of `left` followed by `right` (both hex strings).
pub uninterp spec fn node_hash_of(left: Seq<char>, right: Seq<char>) -> Seq<char>;

/// Whether `sig` is a valid Ed25519 signature over `data` under `key`;
/// false also when `key` is not a valid public key.
pub uninterp spec fn ed25519_valid(data: Seq<u8>, sig: Seq<u8>, key: Seq<u8>) -> bool;

/// The XChaCha20-Poly1305 ciphertext-with-tag for `data` under `key` and
/// `nonce` (the nonce is not part of this value).
pub uninterp spec fn chacha_seal(key: Seq<u8>, nonce: Seq<u8>, data: Seq<u8>) -> Seq<u8>;

/// Relies on sha2::Sha256 and hex::encode: a 32-byte digest becomes 64
/// lowercase hex characters, a function of `data` alone.
#[verifier::external_body]
pub fn sha256_hex(data: &[u8]) -> (r: String)
    ensures
        r@ == sha256_hex_of(data@),
        r@.len() == 64,
{
    hex::encode(sha2::Sha256::digest(data))
}

/// Relies on sha2::Sha256 and hex::encode, applied to the concatenation of
/// the two argument strings; a function of the arguments alone.
#[verifier::external_body]
pub fn merkle_node_hash(left: &String, right: &String) -> (r: String)
    ensures
        r@ == node_hash_of(left@, right@),
        r@.len() == 64,
{
    let joined = format!("{}{}", left, right);
    hex::encode(sha2::Sha256::digest(joined.as_bytes()))
}

/// Relies on ed25519_dalek::VerifyingKey::from_bytes and
/// ed25519_dalek::Verifier::verify: verification is a function of message,
/// signature and key bytes; an unparseable key verifies nothing.
#[verifier::external_body]
pub fn ed25519_verify(data: &[u8], sig: &[u8; 64], key: &[u8; 32]) -> (r: bool)
    ensures
        r == ed25519_valid(data@, sig@, key@),
{
    match ed25519_dalek::VerifyingKey::from_bytes(key) {
        Ok(pk) => pk.verify(data, &ed25519_dalek::Signature::from_bytes(sig)).is_ok(),
        Err(_) => false,
    }
}

/// Relies on chacha20poly1305::XChaCha20Poly1305::encrypt: the ciphertext is
/// the plaintext's length plus a 16-byte tag, a function of key, nonce and
/// plaintext alone.  Sealing fails only on plaintexts of astronomical
/// length, so any input that fits 32 bits seals.
#[verifier::external_body]
pub fn xchacha_seal(key: &[u8; 32], nonce: &[u8; 24], data: &[u8]) -> (r: Result<Vec<u8>, ()>)
    ensures
        r matches Ok(v) ==> v@ == chacha_seal(key@, nonce@, data@) && v@.len() == data@.len()
            + 16,
        data@.len() <= 0xffff_ffff ==> r is Ok,
{
    let cipher = chacha20poly1305::XChaCha20Poly1305::new(key.into());
    let nonce = chacha20poly1305::XNonce::from_slice(nonce);
    cipher.encrypt(nonce, data).map_err(|_| ())
}

/// Relies on chacha20poly1305::XChaCha20Poly1305::decrypt: decryption
/// restores exactly the plaintext whose sealing produced the ciphertext.
#[verifier::external_body]
pub fn xchacha_open(key: &[u8; 32], nonce: &[u8; 24], ct: &[u8]) -> (r: Result<Vec<u8>, ()>)
    ensures
        r matches Ok(v) ==> (forall|p: Seq<u8>| ct@ == #[trigger] chacha_seal(key@, nonce@, p)
            ==> v@ == p),
        r is Err ==> (forall|p: Seq<u8>| ct@ != #[trigger] chacha_seal(key@, nonce@, p)),
{
    let cipher = chacha20poly1305::XChaCha20Poly1305::new(key.into());
    let nonce = chacha20poly1305::XNonce::from_slice(nonce);
    cipher.decrypt(nonce, ct).map_err(|_| ())
}

/// Relies on rand::RngCore::fill_bytes of rand::thread_rng: 32 fresh bytes;
/// nothing is promised of their values.
#[verifier::external_body]
pub fn random_bytes_32() -> (r: [u8; 32]) {
    let mut b = [0u8; 32];
    rand::thread_rng().fill_bytes(&mut b);
    b
}

/// Relies on rand::RngCore::fill_bytes of rand::thread_rng: 24 fresh bytes;
/// nothing is promised of their values.
#[verifier::external_body]
pub fn random_nonce_24() -> (r: [u8; 24]) {
    let mut b = [0u8; 24];
    rand::thread_rng().fill_bytes(&mut b);
    b
}

/// Relies on rand::RngCore::next_u32 of rand::rngs::OsRng: one fresh byte;
/// nothing is promised of its value.
#[verifier::external_body]
pub fn random_byte() -> (r: u8) {
    rand::rngs::OsRng.next_u32() as u8
}

/// Relies on rand::Rng::gen_range of rand::thread_rng: the result lies in
/// the half-open range below `n`; nothing is promised of its distribution.
#[verifier::external_body]
pub fn random_below(n: usize) -> (r: usize)
    requires
        n > 0,
    ensures
        r < n,
{
    rand::thread_rng().gen_range(0..n)
}

} // verus!
