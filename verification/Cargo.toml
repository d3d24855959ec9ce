[package]
name = "enginelib"
version = "0.1.0"
edition = "2021"
publish = false

[dependencies]
chrono = "=0.4.45"
libloading = "=0.8.9"
oxifs = "=0.1.0"
prost = "=0.13.5"
rand = "=0.8.8"
serde = { version = "=1.0.229", features = ["derive"] }
sled = "=0.34.7"
tokio = { version = "=1.54.1", features = ["rt-multi-thread", "macros", "sync", "time"] }
toml = "=0.8.23"
tonic = "=0.12.3"
tracing = "=0.1.44"
tracing-subscriber = "=0.3.23"

[dev-dependencies]
bincode = "=1.3.3"
