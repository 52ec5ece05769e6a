[package]
name = "cargo_multiarch"
version = "0.1.0"
edition = "2021"
publish = false

[dependencies]
anyhow = "=1.0.104"
cargo_metadata = "=0.23.1"
clap = { version = "=4.6.7", features = ["derive"] }
clap-cargo = { version = "=0.19.0", features = ["clap", "cargo_metadata"] }
escargot = "=0.5.15"
libc = "=0.2.190"
proc-exit = "=2.0.2"
qbsdiff = "=1.4.4"
rustix = { version = "=1.1.5", features = ["fs"] }
serde = { version = "=1.0.229", features = ["derive"] }
serde_json = "=1.0.151"
sha2 = "=0.11.0"
target-lexicon = "=0.13.5"
zstd = "=0.14.0"
