[package]
name = "xcqa_chain"
version = "0.1.0"
edition = "2021"
publish = false

[dependencies]
blake3 = "=1.8.7"
sha2 = "=0.11.1"
hkdf = "=0.13.0"
ml-dsa = "=0.1.1"
rand = "=0.10.3"
zstd = "=0.14.3"
zeroize = "=1.9.1"
xcqa = "=0.1.0"
clap = { version = "=4.6.7", features = ["derive"] }
tokio = { version = "=1.54.1", features = ["net", "io-util", "sync", "rt-multi-thread", "macros"] }
thiserror = "=2.0.21"
revm = { version = "14", default-features = false, features = ["std"] }
revm-primitives = { version = "10", default-features = false, features = ["std"] }
cudarc = "*"
