[package]
name = "dvs"
version = "0.1.0"
edition = "2021"
publish = false

[dependencies]
base64 = "=0.23.1"
chrono = { version = "=0.4.45", features = ["serde"] }
quick-xml = "=0.42.0"
rayon = "=1.12.0"
rmcp = { version = "=3.8.0", features = ["server", "transport-io"] }
roxmltree = "=0.21.2"
serde = { version = "=1.0.229", features = ["derive"] }
serde_json = { version = "=1.0.154", features = ["float_roundtrip"] }
tempfile = "=3.27.0"
tokio = { version = "=1.54.1", features = ["rt-multi-thread", "macros", "io-std"] }
ulid = "=3.0.0"
which = "=8.0.6"
