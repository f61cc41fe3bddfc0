[package]
name = "linfa_playground"
version = "0.1.0"
edition = "2021"
publish = false

[dependencies]
rand = { version = "0.8", features = ["small_rng"] }
rustc_apfloat = "0.2"
linfa = "0.7"
linfa-trees = { version = "0.7", features = ["serde"] }
ndarray = "0.15"
bincode = { version = "2", features = ["serde"] }
serde = { version = "1", features = ["derive"] }
csv = "1"
anyhow = "1"
