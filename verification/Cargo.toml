[package]
name = "puppypeer"
version = "0.1.0"
edition = "2021"
publish = false

[dependencies]
anyhow = "*"
futures = "*"
libp2p = { version = "*", features = ["tokio", "tcp", "noise", "yamux", "mdns", "ping", "request-response", "json", "macros", "ed25519"] }
mime_guess = "*"
serde = { version = "*", features = ["derive"] }
serde_json = "*"
sha2 = "*"
sysinfo = "*"
tokio = { version = "*", features = ["rt-multi-thread", "macros", "sync", "fs", "io-util", "signal", "time"] }
