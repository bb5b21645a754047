[package]
name = "melba_stt"
version = "0.1.0"
edition = "2021"
publish = false

[dependencies]
candle-core = "0.9"
candle-nn = "0.9"
candle-transformers = "0.9"
dashmap = "=5.5.3"
futures = "0.3"
hf-hub = { version = "0.4", default-features = false, features = ["tokio"] }
itertools = "0.11"
num-complex = "0.4"
rand = "0.9"
realfft = "3"
rubato = "0.14"
serde = { version = "1", features = ["derive"] }
serde_json = "1"
serde_with = { version = "3", default-features = false, features = ["macros", "std"] }
serenity = { version = "0.12", default-features = false, features = ["cache", "client", "gateway", "model", "rustls_backend"] }
thiserror = "1"
time = { version = "0.3", features = ["formatting", "parsing", "serde"] }
tokenizers = { version = "=0.21.4", default-features = false, features = ["fancy-regex"] }
tokio = { version = "1", features = ["fs", "io-util", "macros", "process", "rt-multi-thread", "sync", "time"] }
tokio-tungstenite = "0.21"
toml = "0.8"
tracing = "0.1"
tracing-subscriber = { version = "0.3", default-features = false, features = ["env-filter", "fmt", "registry", "std"] }
wav = "=1.0.1"
