[package]
name = "pangea_ces"
version = "0.1.0"
edition = "2021"
publish = false

[dependencies]
zstd = "*"
brotli = "*"
chacha20poly1305 = "0.10"
rand = "0.8"
sha2 = "0.10"
hex = "0.4"
ed25519-dalek = "2"
reed-solomon-erasure = "*"
num_cpus = "1"
sysinfo = "0.29"
