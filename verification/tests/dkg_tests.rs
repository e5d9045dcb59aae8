//! Tests of threshold secret sharing and the field arithmetic under it.

use pangea_ces::dkg::{generate_shares, reconstruct_secret};
use pangea_ces::errors::DkgError;
use pangea_ces::gf256::{gf_add, gf_inv, gf_mul, gf_pow};

#[test]
fn roundtrip_secret_sharing() {
    let secret = b"distributed-key-material";
    let shares = generate_shares(secret, 3, 5).expect("generate shares");

    let recovered = reconstruct_secret(&shares[..3], 3).expect("reconstruct");
    assert_eq!(secret.to_vec(), recovered);

    let recovered = reconstruct_secret(&shares[1..4], 3).expect("reconstruct subset");
    assert_eq!(secret.to_vec(), recovered);
}

#[test]
fn detects_duplicate_share_indices() {
    let secret = b"dup-check";
    let mut shares = generate_shares(secret, 2, 3).expect("generate shares");
    shares[1].x = shares[0].x;
    let err = reconstruct_secret(&shares[..2], 2).unwrap_err();
    assert_eq!(err, DkgError::DuplicateShare);
}

#[test]
fn requires_enough_shares() {
    let secret = b"small";
    let shares = generate_shares(secret, 3, 3).expect("generate shares");
    let err = reconstruct_secret(&shares[..2], 3).unwrap_err();
    assert_eq!(err, DkgError::InsufficientShares);
}

#[test]
fn rejects_bad_threshold() {
    assert_eq!(generate_shares(b"x", 0, 3).unwrap_err(), DkgError::InvalidThreshold);
    assert_eq!(generate_shares(b"x", 4, 3).unwrap_err(), DkgError::InvalidThreshold);
}

#[test]
fn field_arithmetic_facts() {
    // AES field: 0x53 * 0xCA = 0x01, so they are inverses
    assert_eq!(gf_mul(0x53, 0xca), 0x01);
    assert_eq!(gf_inv(0x53).unwrap(), 0xca);
    assert_eq!(gf_add(0x53, 0x53), 0);
    assert_eq!(gf_pow(0x02, 8), 0x1b);
    assert_eq!(gf_inv(0).unwrap_err(), DkgError::NonInvertible);
}
