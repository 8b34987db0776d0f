[package]
name = "vigil-collector"
version = "0.1.1"
edition = "2021"
publish = false

[dependencies]
anyhow = "1"
arc-swap = "1"
axum = { version = "=0.7.9", features = ["ws"] }
base64 = "=0.22.1"
clap = { version = "4", features = ["derive", "env"] }
dirs = "=5.0.1"
futures-util = { version = "0.3", features = ["sink"] }
gethostname = "=0.5.0"
libc = "0.2"
mime_guess = "=2.0.5"
parking_lot = "0.12"
rand = "=0.8.8"
reqwest = { version = "=0.12.28", default-features = false, features = ["rustls-tls"] }
rust-embed = { version = "=8.13.0", features = ["interpolate-folder-path"] }
serde = { version = "1", features = ["derive"] }
serde_json = "1"
sysinfo = { version = "=0.32.1", default-features = false, features = ["component", "disk", "network", "system", "user"] }
time = { version = "0.3", features = ["formatting", "local-offset", "macros"] }
tokio = { version = "1", features = ["macros", "net", "rt", "rt-multi-thread", "signal", "sync", "time"] }
tokio-tungstenite = { version = "=0.24.0", features = ["rustls-tls-webpki-roots"] }
tower-http = { version = "=0.6.11", features = ["cors"] }
tracing = "0.1"
tracing-subscriber = { version = "0.3", features = ["env-filter"] }
whoami = "=1.6.1"
