[package]
name = "embedding_bench"
version = "0.1.0"
edition = "2021"
publish = false

[dependencies]
anyhow = "1"
candle-core = "0.10.2"
candle-nn = "0.10.2"
candle-transformers = "0.10.2"
clap = { version = "4", features = ["derive"] }
fastembed = { version = "5.14.0", default-features = false, features = ["ort-load-dynamic", "hf-hub-rustls-tls"] }
hf-hub = { version = "0.4.3", default-features = false, features = ["ureq", "rustls-tls"] }
ort = { version = "=2.0.0-rc.12", default-features = false, features = ["std", "ndarray", "load-dynamic"] }
reqwest = { version = "0.12", default-features = false, features = ["blocking", "json", "rustls-tls"] }
serde = { version = "1", features = ["derive"] }
serde_json = "1"
sysinfo = "0.30"
tokenizers = "0.21.4"
