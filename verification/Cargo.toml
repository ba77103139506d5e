[package]
name = "amgix_now"
version = "0.1.0"
edition = "2021"
publish = false

[dependencies]
uuid = { version = "=1.29.0", features = ["v4", "v5"] }
chrono = { version = "=0.4.45", default-features = false, features = ["std", "clock"] }
murmurhash3 = "=0.0.5"
serde = { version = "=1.0.229", features = ["derive"] }
serde_json = "=1.0.154"
tokio = { version = "=1.54.1", features = ["full"] }
tokio-stream = "=0.1.19"
axum = { version = "=0.8.9", default-features = false, features = ["http1", "json", "query", "tokio"] }
bytes = "=1.12.1"
flate2 = "=1.1.10"
lapin = { version = "=4.12.3", default-features = false, features = ["tokio"] }
qdrant-client = { version = "=1.20.0", default-features = false, features = ["serde"] }
rayon = "=1.12.0"
sysinfo = { version = "=0.40.1", default-features = false, features = ["system"] }
nu-ansi-term = "=0.50.3"
tracing = "=0.1.44"
tracing-subscriber = { version = "=0.3.23", default-features = false, features = ["env-filter", "fmt", "ansi"] }
candle-core = { version = "=0.9.2", default-features = false }
hf-hub = { version = "=0.4.3", default-features = false, features = ["ureq", "rustls-tls"] }
tokenizers = { version = "=0.21.4", default-features = false, features = ["onig"] }
model2vec-rs = { version = "=0.4.0", default-features = false }
nvml-wrapper = "=0.13.0"
