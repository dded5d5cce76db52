[package]
name = "jevernetes"
version = "0.1.0"
edition = "2021"
publish = false

[dependencies]
async-compression = { version = "=0.4.52", features = ["tokio", "gzip"] }
chrono = "=0.4.45"
clap = { version = "=4.6.7", features = ["derive"] }
crossterm = { version = "=0.29.0", features = ["event-stream"] }
futures = "=0.3.34"
k8s-openapi = { version = "=0.29.0", features = ["latest"] }
kube = { version = "=5.0.0", features = ["client", "runtime", "ws"] }
lru = { version = "=0.19.0", default-features = false }
ratatui = { version = "=0.30.2", default-features = false, features = ["crossterm"] }
regex = "=1.13.1"
reqwest = { version = "=0.12.28", default-features = false, features = ["json", "rustls-tls"] }
rusqlite = { version = "=0.41.1", features = ["bundled"] }
serde = { version = "=1.0.229", features = ["derive"] }
serde_json = "=1.0.154"
sha2 = "=0.10.9"
tempfile = "=3.27.0"
tokio = { version = "=1.54.1", features = ["full"] }
tokio-util = { version = "=0.7.20", features = ["compat"] }
unicode-width = "=0.2.3"
