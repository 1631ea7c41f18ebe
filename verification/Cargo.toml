[package]
name = "wiki_stats"
version = "0.1.0"
edition = "2021"
publish = false

[dependencies]
anyhow = "1"
clap = { version = "4", features = ["derive"] }
num_cpus = "1"
rusqlite = "*"
serde = { version = "1", features = ["derive"] }
serde_derive = "1"
serde_json = "1"
zip = { version = "*", default-features = false, features = ["deflate"] }
