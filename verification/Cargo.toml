[package]
name = "parquet_to_jsonl"
version = "0.1.0"
edition = "2021"
publish = false

[dependencies]
anyhow = "*"
arrow2 = { version = "*", features = ["io_parquet"] }
clap = { version = "*", features = ["derive"] }
flate2 = "*"
glob = "*"
indicatif = "*"
rayon = "*"
serde_json = "*"
zstd = "*"
