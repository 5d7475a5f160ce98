[package]
name = "edgepacer"
version = "0.1.0"
edition = "2021"
publish = false

[dependencies]
anyhow = "1"
bollard = "0.19"
chrono = "0.4"
clap = { version = "4", features = ["derive", "env"] }
ed25519-dalek = "2"
futures-util = "0.3"
gethostname = "1"
hex = "0.4"
k8s-openapi = { version = "0.26", features = ["latest"] }
kube = "2"
procfs = "0.18"
regex = "1"
reqwest = { version = "0.12", default-features = false, features = ["json"] }
rusqlite = { version = "0.37", features = ["bundled"] }
serde = { version = "1", features = ["derive"] }
serde_json = "1"
sha2 = "0.10"
sysinfo = "0.37"
thiserror = "2"
tokio = { version = "1", features = ["full"] }
tracing = "0.1"
uuid = { version = "1", features = ["v4"] }
