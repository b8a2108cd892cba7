[package]
name = "daw"
version = "0.1.0"
edition = "2021"
publish = false

[dependencies]
petgraph = "0.6"
rtrb = "0.3"
crossbeam-channel = "0.5"
wide = "0.7"
serde = { version = "1", features = ["derive"] }
serde_json = "1"
automerge = "0.5"
tracing = "0.1"
tracing-subscriber = { version = "0.3", features = ["env-filter"] }
wgpu = "24"
