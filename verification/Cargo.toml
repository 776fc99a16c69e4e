[package]
name = "spm"
version = "0.1.0"
edition = "2021"
publish = false

[dependencies]
anyhow = "=1.0.104"
clap = { version = "=4.6.7", features = ["derive"] }
flate2 = "=1.1.10"
glob = "=0.3.4"
indicatif = "=0.17.11"
md-5 = "=0.10.6"
num_cpus = "=1.17.0"
serde = { version = "=1.0.229", features = ["derive"] }
serde_yaml = "=0.9.34"
sha1 = "=0.10.7"
sha2 = "=0.10.9"
shellexpand = "=3.1.2"
tar = "=0.4.46"
tempfile = "=3.27.0"
thiserror = "=1.0.69"
walkdir = "=2.5.0"
xz2 = "=0.1.7"
zstd = { version = "=0.13.4", features = ["zstdmt"] }
