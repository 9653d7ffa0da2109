[package]
name = "polygone"
version = "1.0.0"
edition = "2021"
publish = false

[dependencies]
blake3 = "1"
getrandom = "0.2"
hex = "0.4"
zeroize = { version = "1", features = ["derive"] }
pqcrypto-mlkem = "*"
pqcrypto-mldsa = "*"
pqcrypto-traits = "*"
serde = { version = "1", features = ["derive"] }
serde_json = "1"
bincode = "1"
clap = { version = "4", features = ["derive"] }
anyhow = "1"
ratatui = "*"
crossterm = "*"
dirs = "*"
num_cpus = "1"
sys-info = "*"
