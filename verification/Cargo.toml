[package]
name = "conkit"
version = "0.1.0"
edition = "2021"
publish = false

[dependencies]
flate2 = "1"
sha2 = "0.10"
serde = { version = "1", features = ["derive"] }
serde_json = "1"
clap = { version = "4", features = ["derive"] }
thiserror = "2"
anyhow = "1"
ctrlc = "3"
walkdir = "2"
cap-std = "3"
cap-fs-ext = "3"
fs-err = "3"
command-group = "5"
cargo_metadata = "0.19"
rayon = "1"
async-lock = "3"
futures-channel = "0.3"
same-file = "1"
tempfile = "3"
