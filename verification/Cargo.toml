[package]
name = "peerchat"
version = "0.1.0"
edition = "2021"
publish = false

[dependencies]
anyhow = "1"
chrono = { version = "0.4", default-features = false, features = ["clock", "std"] }
clap = { version = "3", features = ["derive"] }
libp2p = { version = "0.53", features = ["gossipsub", "macros", "mdns", "noise", "ping", "tcp", "tokio", "yamux"] }
names = { version = "0.14", default-features = false }
tokio = { version = "1", features = ["io-std", "io-util", "macros", "rt-multi-thread", "signal", "time"] }
tracing = "0.1"
tracing-subscriber = "0.3"
void = "1"

[dev-dependencies]
serde_cbor = "0.11"
