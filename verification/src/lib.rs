//! Core of a distributed content-delivery and compute platform.
//!
//! Three subsystems share one shard/chunk data model:
//! a compress/encrypt/shard pipeline over Reed-Solomon erasure coding,
//! a chunk-oriented streaming fabric (ring-buffer store, forward error
//! correction, tit-for-tat peer scheduling, Ed25519 chunk authentication),
//! and a metered compute sandbox with Merkle-rooted result verification.

pub mod assoc;
pub mod caps;
pub mod ces;
pub mod codec;
pub mod compress;
pub mod compute;
pub mod config;
pub mod crypto;
pub mod detect;
pub mod dkg;
pub mod errors;
pub mod executor;
pub mod fec;
pub mod frame;
pub mod gf256;
pub mod heal;
pub mod merkle;
pub mod metrics;
pub mod metering;
pub mod p2p;
pub mod sandbox;
pub mod store;
pub mod stream;
pub mod sysapi;
pub mod auth;
pub mod tunnel;
pub mod types;
pub mod verification;
